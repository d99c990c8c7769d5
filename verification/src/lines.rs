//! Splitting a byte stream into lines.

use crate::sse::{is_single_line, is_terminated, LINE_FEED};
use vstd::prelude::*;

verus! {

/// The lines that are complete in `stream`, each with the line feed that ends it.
pub open spec fn complete_lines(stream: Seq<u8>) -> Seq<Seq<u8>>
    decreases stream.len(),
{
    proof {
        stream.index_of_first_ensures(LINE_FEED);
    }
    match stream.index_of_first(LINE_FEED) {
        Some(i) => seq![stream.take(i + 1)] + complete_lines(stream.skip(i + 1)),
        None => Seq::empty(),
    }
}

/// What follows the last line feed of `stream`: the line that is not complete yet.
pub open spec fn unfinished_line(stream: Seq<u8>) -> Seq<u8>
    decreases stream.len(),
{
    proof {
        stream.index_of_first_ensures(LINE_FEED);
    }
    match stream.index_of_first(LINE_FEED) {
        Some(i) => unfinished_line(stream.skip(i + 1)),
        None => stream,
    }
}

/// The index just behind the first line feed of `stream` from `start` on.
pub(crate) fn find_line_end(stream: &[u8], start: usize) -> (end: Option<usize>)
    requires
        start <= stream@.len(),
    ensures
        match stream@.skip(start as int).index_of_first(LINE_FEED) {
            Some(i) => end matches Some(index) && index == start + i + 1,
            None => end is None,
        },
{
    let ghost rest = stream@.skip(start as int);
    let mut i: usize = start;
    while i < stream.len()
        invariant
            start <= i <= stream@.len(),
            rest == stream@.skip(start as int),
            forall|j: int| 0 <= j < i - start ==> #[trigger] rest[j] != LINE_FEED,
        decreases stream@.len() - i,
    {
        if stream[i] == LINE_FEED {
            proof {
                lemma_first_line_feed(rest, i - start);
            }
            return Some(i + 1);
        }
        assert(rest[i - start] != LINE_FEED);
        i = i + 1;
    }
    proof {
        rest.index_of_first_ensures(LINE_FEED);
    }
    None
}

/// Joining two sequences of lines joins their bytes.
pub(crate) proof fn lemma_flatten_add(a: Seq<Seq<u8>>, b: Seq<Seq<u8>>)
    ensures
        (a + b).flatten() == a.flatten() + b.flatten(),
    decreases a.len(),
{
    if a.len() == 0 {
        assert(a + b =~= b);
    } else {
        assert((a + b).drop_first() =~= a.drop_first() + b);
        lemma_flatten_add(a.drop_first(), b);
    }
}

/// The bytes of one line are that line.
pub(crate) proof fn lemma_flatten_one(line: Seq<u8>)
    ensures
        seq![line].flatten() == line,
{
    seq![line].lemma_flatten_one_element();
}

/// Where the first line feed of a sequence stands, in terms of its bytes.
pub proof fn lemma_first_line_feed(stream: Seq<u8>, i: int)
    requires
        0 <= i < stream.len(),
        stream[i] == LINE_FEED,
        forall|j: int| 0 <= j < i ==> #[trigger] stream[j] != LINE_FEED,
    ensures
        stream.index_of_first(LINE_FEED) == Some(i),
{
    stream.index_of_first_ensures(LINE_FEED);
    let k = stream.index_of_first(LINE_FEED)->0;
    assert(stream.contains(LINE_FEED));
    if k < i {
        assert(stream[k] != LINE_FEED);
    } else if i < k {
        assert(stream[i] != LINE_FEED);
    }
}

/// Nothing is lost and nothing is added by splitting: the complete lines and the unfinished one are
/// the stream. Each complete line is a single line that is ended by a line feed, and the unfinished
/// one holds no line feed.
pub proof fn law_lines_make_up_the_stream(stream: Seq<u8>)
    ensures
        complete_lines(stream).flatten() + unfinished_line(stream) == stream,
        forall|i: int|
            0 <= i < complete_lines(stream).len() ==> is_single_line(
                #[trigger] complete_lines(stream)[i],
            ) && is_terminated(complete_lines(stream)[i]),
        !unfinished_line(stream).contains(LINE_FEED),
    decreases stream.len(),
{
    stream.index_of_first_ensures(LINE_FEED);
    if let Some(i) = stream.index_of_first(LINE_FEED) {
        let line = stream.take(i + 1);
        let rest = stream.skip(i + 1);
        law_lines_make_up_the_stream(rest);
        lemma_flatten_add(seq![line], complete_lines(rest));
        lemma_flatten_one(line);
        assert(stream =~= line + rest);
        assert(line + complete_lines(rest).flatten() + unfinished_line(rest) =~= line + (
        complete_lines(rest).flatten() + unfinished_line(rest)));
        assert(is_single_line(line)) by {
            assert forall|j: int| 0 <= j < line.len() - 1 implies #[trigger] line[j]
                != LINE_FEED by {
                assert(line[j] == stream[j]);
            }
        }
        assert forall|j: int| 0 <= j < complete_lines(stream).len() implies is_single_line(
            #[trigger] complete_lines(stream)[j],
        ) && is_terminated(complete_lines(stream)[j]) by {
            if j > 0 {
                assert(complete_lines(stream)[j] == complete_lines(rest)[j - 1]);
            }
        }
    } else {
        assert(complete_lines(stream).flatten() + stream =~= stream);
    }
}

/// Where a stream is cut does not matter to its lines: those of the whole are those of the first
/// part, and then those of what that part left unfinished together with the second part.
pub proof fn law_lines_of_a_cut_stream(first: Seq<u8>, second: Seq<u8>)
    ensures
        complete_lines(first + second) == complete_lines(first) + complete_lines(
            unfinished_line(first) + second,
        ),
        unfinished_line(first + second) == unfinished_line(unfinished_line(first) + second),
    decreases first.len(),
{
    let whole = first + second;
    first.index_of_first_ensures(LINE_FEED);
    if let Some(i) = first.index_of_first(LINE_FEED) {
        assert forall|j: int| 0 <= j < i implies #[trigger] whole[j] != LINE_FEED by {
            assert(whole[j] == first[j]);
        }
        assert(whole[i] == first[i]);
        lemma_first_line_feed(whole, i);
        assert(whole.take(i + 1) =~= first.take(i + 1));
        assert(whole.skip(i + 1) =~= first.skip(i + 1) + second);
        law_lines_of_a_cut_stream(first.skip(i + 1), second);
        let line = seq![first.take(i + 1)];
        let rest = complete_lines(first.skip(i + 1));
        let tail = complete_lines(unfinished_line(first) + second);
        assert(line + (rest + tail) =~= (line + rest) + tail);
    } else {
        assert(complete_lines(first) + complete_lines(whole) =~= complete_lines(whole));
    }
}

/// Lines that are ended by a line feed each, and joined, are found again by splitting.
pub proof fn law_joined_lines_are_split_again(lines: Seq<Seq<u8>>)
    requires
        forall|i: int|
            0 <= i < lines.len() ==> is_single_line(#[trigger] lines[i]) && is_terminated(lines[i]),
    ensures
        complete_lines(lines.flatten()) == lines,
        unfinished_line(lines.flatten()) == Seq::<u8>::empty(),
    decreases lines.len(),
{
    let stream = lines.flatten();
    if lines.len() == 0 {
        stream.index_of_first_ensures(LINE_FEED);
        assert(complete_lines(stream) =~= lines);
    } else {
        let line = lines[0];
        let others = lines.drop_first();
        assert forall|i: int| 0 <= i < others.len() implies is_single_line(#[trigger] others[i])
            && is_terminated(others[i]) by {
            assert(others[i] == lines[i + 1]);
        }
        law_joined_lines_are_split_again(others);
        let i = line.len() - 1;
        assert(stream == line + others.flatten());
        assert forall|j: int| 0 <= j < i implies #[trigger] stream[j] != LINE_FEED by {
            assert(stream[j] == line[j]);
        }
        lemma_first_line_feed(stream, i);
        assert(stream.take(i + 1) =~= line);
        assert(stream.skip(i + 1) =~= others.flatten());
        assert(seq![line] + others =~= lines);
    }
}

/// How many line feeds `bytes` holds.
pub open spec fn line_feeds(bytes: Seq<u8>) -> nat
    decreases bytes.len(),
{
    if bytes.len() == 0 {
        0
    } else {
        line_feeds(bytes.drop_last()) + if bytes.last() == LINE_FEED {
            1nat
        } else {
            0nat
        }
    }
}

/// Joined bytes hold the line feeds of both parts.
pub(crate) proof fn lemma_line_feeds_add(first: Seq<u8>, second: Seq<u8>)
    ensures
        line_feeds(first + second) == line_feeds(first) + line_feeds(second),
    decreases second.len(),
{
    if second.len() == 0 {
        assert(first + second =~= first);
    } else {
        assert((first + second).drop_last() =~= first + second.drop_last());
        assert((first + second).last() == second.last());
        lemma_line_feeds_add(first, second.drop_last());
    }
}

/// Bytes among which there is no line feed hold none.
pub(crate) proof fn lemma_no_line_feeds(bytes: Seq<u8>)
    requires
        !bytes.contains(LINE_FEED),
    ensures
        line_feeds(bytes) == 0,
    decreases bytes.len(),
{
    if bytes.len() > 0 {
        assert forall|i: int| 0 <= i < bytes.len() implies #[trigger] bytes[i] != LINE_FEED by {
            assert(bytes.contains(bytes[i]));
        }
        assert(!bytes.drop_last().contains(LINE_FEED));
        lemma_no_line_feeds(bytes.drop_last());
    }
}

/// There are as many complete lines as line feeds.
pub proof fn law_one_complete_line_per_line_feed(stream: Seq<u8>)
    ensures
        complete_lines(stream).len() == line_feeds(stream),
    decreases stream.len(),
{
    stream.index_of_first_ensures(LINE_FEED);
    if let Some(i) = stream.index_of_first(LINE_FEED) {
        let body = stream.take(i);
        let line = stream.take(i + 1);
        let rest = stream.skip(i + 1);
        assert(!body.contains(LINE_FEED)) by {
            assert forall|j: int| 0 <= j < body.len() implies #[trigger] body[j] != LINE_FEED by {
                assert(body[j] == stream[j]);
            }
        }
        lemma_no_line_feeds(body);
        assert(line.drop_last() =~= body);
        assert(line_feeds(line) == 1);
        assert(stream =~= line + rest);
        lemma_line_feeds_add(line, rest);
        law_one_complete_line_per_line_feed(rest);
    } else {
        lemma_no_line_feeds(stream);
    }
}

/// A stream that leaves no line unfinished is empty or ends in a line feed.
pub proof fn law_a_stream_of_complete_lines_is_terminated(stream: Seq<u8>)
    requires
        unfinished_line(stream) == Seq::<u8>::empty(),
    ensures
        stream.len() == 0 || is_terminated(stream),
    decreases stream.len(),
{
    stream.index_of_first_ensures(LINE_FEED);
    if let Some(i) = stream.index_of_first(LINE_FEED) {
        let rest = stream.skip(i + 1);
        law_a_stream_of_complete_lines_is_terminated(rest);
        if rest.len() > 0 {
            assert(rest.last() == stream.last());
        }
    }
}

} // verus!
