//! Injecting the cached token count into an event stream that arrives in pieces.

use crate::digits::{
    digit_runs_fit, has_fitting_digit_runs, lemma_part_has_fitting_digit_runs, MAX_DIGIT_RUN,
};
use crate::lines::{
    complete_lines, find_line_end, law_a_stream_of_complete_lines_is_terminated,
    law_joined_lines_are_split_again, law_lines_make_up_the_stream, law_lines_of_a_cut_stream,
    law_one_complete_line_per_line_feed, lemma_flatten_add, lemma_flatten_one,
    lemma_line_feeds_add, lemma_no_line_feeds, line_feeds, unfinished_line,
};
use crate::json::Json;
use crate::laws::lemma_usage_chunk_reaches_the_reader;
use crate::outside::{bytes_from_vec, content, parsed};
use crate::sse::{
    append, data_payload, delivers_count, forwarded_line, is_parseable, is_single_line,
    is_terminated, lemma_fitting_line_is_parseable, process_sse_line, read_data_payload, LINE_FEED,
};
use crate::usage::response_count;
use bytes::Bytes;
use vstd::prelude::*;
use vstd::slice::slice_subrange;

verus! {

/// What is forwarded for each of `lines`.
pub open spec fn forwarded_lines(lines: Seq<Seq<u8>>, cached_tokens: Option<u64>) -> Seq<Seq<u8>> {
    lines.map_values(|line: Seq<u8>| forwarded_line(line, cached_tokens))
}

/// What is forwarded once `stream` has arrived: its complete lines, each as it is forwarded.
pub open spec fn forwarded(stream: Seq<u8>, cached_tokens: Option<u64>) -> Seq<u8> {
    forwarded_lines(complete_lines(stream), cached_tokens).flatten()
}

/// What is forwarded at the end of the stream for the line that was left unfinished.
pub open spec fn flushed(pending: Seq<u8>, cached_tokens: Option<u64>) -> Seq<u8> {
    if pending.len() > 0 {
        forwarded_line(pending, cached_tokens)
    } else {
        Seq::empty()
    }
}

/// What is forwarded in all for a whole stream.
pub open spec fn stream_output(stream: Seq<u8>, cached_tokens: Option<u64>) -> Seq<u8> {
    forwarded(stream, cached_tokens) + flushed(unfinished_line(stream), cached_tokens)
}

/// Whether the payload of each complete line, where it has to be parsed, has no longer run of digits
/// than the parser takes.
pub open spec fn lines_are_parseable(stream: Seq<u8>, cached_tokens: Option<u64>) -> bool {
    forall|i: int|
        0 <= i < complete_lines(stream).len() ==> is_parseable(
            #[trigger] complete_lines(stream)[i],
            cached_tokens,
        )
}

/// Whether the count reaches the reader of each complete line.
pub open spec fn lines_deliver_count(stream: Seq<u8>, cached_tokens: Option<u64>) -> bool {
    forall|i: int|
        0 <= i < complete_lines(stream).len() ==> delivers_count(
            #[trigger] complete_lines(stream)[i],
            cached_tokens,
        )
}

/// Stateful transformer that injects the prefiller's cached token count into the final usage chunk of
/// an SSE stream coming from the decode server.
///
/// SSE `data:` lines are JSON-parsed individually; lines that are not valid JSON (e.g. `[DONE]`) or
/// that are not modified are forwarded byte-for-byte.
pub struct CachedTokensSseInjector {
    cached_tokens: Option<u64>,
    buffer: Vec<u8>,
}

impl CachedTokensSseInjector {
    /// The count that is injected, if any.
    pub closed spec fn cached_tokens(self) -> Option<u64> {
        self.cached_tokens
    }

    /// The bytes that arrived and were not forwarded yet.
    pub closed spec fn pending(self) -> Seq<u8> {
        self.buffer@
    }

    /// Between calls, what is held back is part of one line.
    pub open spec fn wf(self) -> bool {
        !self.pending().contains(LINE_FEED)
    }

    /// An injector for a stream that has not started. Without a count it forwards everything as it is.
    pub fn new(cached_tokens: Option<u64>) -> (injector: Self)
        ensures
            injector.wf(),
            injector.cached_tokens() == cached_tokens,
            injector.pending() == Seq::<u8>::empty(),
    {
        CachedTokensSseInjector { cached_tokens, buffer: Vec::new() }
    }

    /// Process an incoming byte chunk from the decode stream and return the bytes to forward to the
    /// client. Lines are only transformed once they are fully received (newline-terminated).
    pub fn process(&mut self, chunk: &[u8]) -> (out: Bytes)
        requires
            lines_are_parseable(old(self).pending() + chunk@, old(self).cached_tokens()),
        ensures
            final(self).wf(),
            final(self).cached_tokens() == old(self).cached_tokens(),
            final(self).pending() == unfinished_line(old(self).pending() + chunk@),
            content(out) == forwarded(old(self).pending() + chunk@, old(self).cached_tokens()),
            complete_lines(content(out)) == forwarded_lines(
                complete_lines(old(self).pending() + chunk@),
                old(self).cached_tokens(),
            ),
            unfinished_line(content(out)) == Seq::<u8>::empty(),
            content(out).len() == 0 || is_terminated(content(out)),
            old(self).wf() ==> line_feeds(content(out)) == line_feeds(chunk@),
            lines_deliver_count(old(self).pending() + chunk@, old(self).cached_tokens()),
            complete_lines(content(out)).len() == complete_lines(old(self).pending() + chunk@).len(),
            old(self).cached_tokens() matches Some(count) ==> (forall|i: int|
                0 <= i < complete_lines(old(self).pending() + chunk@).len() ==> (data_payload(
                    #[trigger] complete_lines(old(self).pending() + chunk@)[i],
                ) matches Some(payload) ==> (parsed(payload) matches Some(document) ==> (
                document.member("usage"@) matches Some(usage) ==> ({
                    &&& usage.member("prompt_tokens_details"@) is Some || usage.member("input_tokens_details"@) is Some
                        || usage.member("prompt_tokens"@) is Some || usage.member("input_tokens"@) is Some
                    &&& !(document.member("choices"@) matches Some(Json::Array(choices))
                        && choices.len() > 0)
                } ==> (data_payload(complete_lines(content(out))[i]) matches Some(text) && {
                    &&& parsed(text) matches Some(found) ==> response_count(found) == Some(count)
                    &&& document.without_floats() ==> parsed(text) is Some
                })))))),
    {
        append(&mut self.buffer, chunk);
        let cached_tokens = self.cached_tokens;
        let ghost all = self.buffer@;
        let ghost mut done: Seq<Seq<u8>> = Seq::empty();
        let mut out: Vec<u8> = Vec::new();
        let mut start: usize = 0;
        proof {
            assert(all.skip(0) =~= all);
            assert(done + complete_lines(all) =~= complete_lines(all));
            assert(forwarded_lines(done, cached_tokens) =~= Seq::empty());
        }
        loop
            invariant
                start <= all.len(),
                self.buffer@ == all,
                self.cached_tokens == cached_tokens,
                lines_are_parseable(all, cached_tokens),
                complete_lines(all) == done + complete_lines(all.skip(start as int)),
                unfinished_line(all) == unfinished_line(all.skip(start as int)),
                out@ == forwarded_lines(done, cached_tokens).flatten(),
                forall|i: int|
                    0 <= i < done.len() ==> is_single_line(
                        #[trigger] forwarded_lines(done, cached_tokens)[i],
                    ) && is_terminated(forwarded_lines(done, cached_tokens)[i]),
                forall|i: int|
                    0 <= i < done.len() ==> delivers_count(#[trigger] done[i], cached_tokens),
            ensures
                !all.skip(start as int).contains(LINE_FEED),
            decreases all.len() - start,
        {
            let ghost rest = all.skip(start as int);
            proof {
                rest.index_of_first_ensures(LINE_FEED);
            }
            match find_line_end(self.buffer.as_slice(), start) {
                Some(end) => {
                    let line = slice_subrange(self.buffer.as_slice(), start, end);
                    proof {
                        assert(line@ =~= rest.take(end - start));
                        assert(rest.skip(end - start) =~= all.skip(end as int));
                        assert(complete_lines(all)[done.len() as int] == line@);
                        law_lines_make_up_the_stream(all);
                    }
                    process_sse_line(line, cached_tokens, &mut out);
                    proof {
                        let before = forwarded_lines(done, cached_tokens);
                        let last = forwarded_line(line@, cached_tokens);
                        assert(forwarded_lines(done.push(line@), cached_tokens) =~= before + seq![
                            last,
                        ]);
                        lemma_flatten_add(before, seq![last]);
                        lemma_flatten_one(last);
                        assert(done + (seq![line@] + complete_lines(all.skip(end as int)))
                            =~= done.push(line@) + complete_lines(all.skip(end as int)));
                        done = done.push(line@);
                        assert forall|i: int| 0 <= i < done.len() implies is_single_line(
                            #[trigger] forwarded_lines(done, cached_tokens)[i],
                        ) && is_terminated(forwarded_lines(done, cached_tokens)[i]) by {
                            if i < before.len() {
                                assert(forwarded_lines(done, cached_tokens)[i] == before[i]);
                            }
                        }
                    }
                    start = end;
                },
                None => {
                    break;
                },
            }
        }
        proof {
            let rest = all.skip(start as int);
            rest.index_of_first_ensures(LINE_FEED);
            assert(complete_lines(all) =~= done);
            law_joined_lines_are_split_again(forwarded_lines(done, cached_tokens));
            law_lines_make_up_the_stream(all);
            law_a_stream_of_complete_lines_is_terminated(out@);
            law_one_complete_line_per_line_feed(all);
            law_one_complete_line_per_line_feed(out@);
            lemma_line_feeds_add(old(self).pending(), chunk@);
            if old(self).wf() {
                lemma_no_line_feeds(old(self).pending());
            }
            if let Some(count) = cached_tokens {
                assert forall|i: int| 0 <= i < done.len() implies (data_payload(
                    #[trigger] complete_lines(all)[i],
                ) matches Some(payload) ==> (parsed(payload) matches Some(document) ==> (
                document.member("usage"@) matches Some(usage) ==> ({
                    &&& usage.member("prompt_tokens_details"@) is Some || usage.member("input_tokens_details"@) is Some
                        || usage.member("prompt_tokens"@) is Some || usage.member("input_tokens"@) is Some
                    &&& !(document.member("choices"@) matches Some(Json::Array(choices))
                        && choices.len() > 0)
                } ==> (data_payload(complete_lines(out@)[i]) matches Some(text) && {
                    &&& parsed(text) matches Some(found) ==> response_count(found) == Some(count)
                    &&& document.without_floats() ==> parsed(text) is Some
                }))))) by {
                    assert(complete_lines(out@)[i] == forwarded_line(done[i], cached_tokens));
                    lemma_usage_chunk_reaches_the_reader(done[i], count);
                }
            }
        }
        self.buffer = self.buffer.split_off(start);
        assert(self.buffer@ =~= all.skip(start as int));
        bytes_from_vec(out)
    }

    /// Flush any buffered partial line when the decode stream ends.
    pub fn finish(&mut self) -> (out: Bytes)
        requires
            is_parseable(old(self).pending(), old(self).cached_tokens()),
        ensures
            final(self).wf(),
            final(self).cached_tokens() == old(self).cached_tokens(),
            final(self).pending() == Seq::<u8>::empty(),
            content(out) == flushed(old(self).pending(), old(self).cached_tokens()),
            old(self).wf() ==> !content(out).contains(LINE_FEED),
            old(self).pending().len() > 0 ==> delivers_count(
                old(self).pending(),
                old(self).cached_tokens(),
            ),
            old(self).cached_tokens() matches Some(count) ==> (data_payload(
                old(self).pending(),
            ) matches Some(payload) ==> (parsed(payload) matches Some(document) ==> (
            document.member("usage"@) matches Some(usage) ==> ({
                &&& usage.member("prompt_tokens_details"@) is Some || usage.member("input_tokens_details"@) is Some
                    || usage.member("prompt_tokens"@) is Some || usage.member("input_tokens"@) is Some
                &&& !(document.member("choices"@) matches Some(Json::Array(choices))
                    && choices.len() > 0)
            } ==> (data_payload(content(out)) matches Some(text) && {
                &&& parsed(text) matches Some(found) ==> response_count(found) == Some(count)
                &&& document.without_floats() ==> parsed(text) is Some
            }))))),
    {
        let mut remaining: Vec<u8> = Vec::new();
        std::mem::swap(&mut remaining, &mut self.buffer);
        let mut out: Vec<u8> = Vec::new();
        if !remaining.is_empty() {
            process_sse_line(remaining.as_slice(), self.cached_tokens, &mut out);
        }
        assert(out@ =~= flushed(old(self).pending(), old(self).cached_tokens()));
        proof {
            if let Some(count) = self.cached_tokens {
                if old(self).pending().len() > 0 {
                    lemma_usage_chunk_reaches_the_reader(old(self).pending(), count);
                }
            }
        }
        bytes_from_vec(out)
    }

    /// Whether [`process`](Self::process) takes `chunk`: whether no payload that it completes and that
    /// has to be parsed has a longer run of digits than the parser takes.
    pub fn accepts(&self, chunk: &[u8]) -> (answer: bool)
        ensures
            answer == lines_are_parseable(self.pending() + chunk@, self.cached_tokens()),
    {
        let ghost all = self.pending() + chunk@;
        if self.buffer.len() <= MAX_DIGIT_RUN && chunk.len() <= MAX_DIGIT_RUN - self.buffer.len() {
            proof {
                law_streams_with_fitting_digit_runs_are_taken(all, self.cached_tokens);
            }
            return true;
        }
        let mut stream: Vec<u8> = Vec::new();
        append(&mut stream, self.buffer.as_slice());
        append(&mut stream, chunk);
        let ghost mut done: int = 0;
        let mut start: usize = 0;
        proof {
            assert(stream@ =~= all);
            assert(all.skip(0) =~= all);
        }
        loop
            invariant
                start <= all.len(),
                all == self.pending() + chunk@,
                stream@ == all,
                0 <= done <= complete_lines(all).len(),
                complete_lines(all).skip(done) == complete_lines(all.skip(start as int)),
                forall|i: int|
                    0 <= i < done ==> is_parseable(
                        #[trigger] complete_lines(all)[i],
                        self.cached_tokens,
                    ),
            ensures
                done == complete_lines(all).len(),
            decreases all.len() - start,
        {
            let ghost rest = all.skip(start as int);
            proof {
                rest.index_of_first_ensures(LINE_FEED);
            }
            match find_line_end(stream.as_slice(), start) {
                Some(end) => {
                    let line = slice_subrange(stream.as_slice(), start, end);
                    proof {
                        assert(line@ =~= rest.take(end - start));
                        assert(rest.skip(end - start) =~= all.skip(end as int));
                        assert(complete_lines(all).skip(done).len() > 0);
                        assert(complete_lines(all).skip(done)[0] == line@);
                        assert(complete_lines(all)[done] == line@);
                        assert(complete_lines(all).skip(done + 1) =~= complete_lines(rest).skip(1));
                        assert(complete_lines(rest).skip(1) =~= complete_lines(
                            all.skip(end as int),
                        ));
                    }
                    if !line_is_parseable(line, self.cached_tokens) {
                        return false;
                    }
                    proof {
                        done = done + 1;
                    }
                    start = end;
                },
                None => {
                    break;
                },
            }
        }
        true
    }

    /// Whether [`finish`](Self::finish) takes what is held back, in the same sense.
    pub fn accepts_end(&self) -> (answer: bool)
        ensures
            answer == is_parseable(self.pending(), self.cached_tokens()),
    {
        line_is_parseable(self.buffer.as_slice(), self.cached_tokens)
    }
}

/// Whether the payload of a line, where it has to be parsed, has no longer run of digits than the
/// parser takes.
fn line_is_parseable(line: &[u8], cached_tokens: Option<u64>) -> (answer: bool)
    ensures
        answer == is_parseable(line@, cached_tokens),
{
    if cached_tokens.is_none() {
        return true;
    }
    match read_data_payload(line) {
        Some(payload) => has_fitting_digit_runs(payload),
        None => true,
    }
}

/// A stream without a run of digits that is longer than the parser takes is taken, whatever its
/// lines.
pub proof fn law_streams_with_fitting_digit_runs_are_taken(
    stream: Seq<u8>,
    cached_tokens: Option<u64>,
)
    requires
        digit_runs_fit(stream),
    ensures
        lines_are_parseable(stream, cached_tokens),
    decreases stream.len(),
{
    stream.index_of_first_ensures(LINE_FEED);
    if let Some(i) = stream.index_of_first(LINE_FEED) {
        let line = stream.take(i + 1);
        let rest = stream.skip(i + 1);
        assert(line =~= stream.subrange(0, i + 1));
        assert(rest =~= stream.subrange(i + 1, stream.len() as int));
        lemma_part_has_fitting_digit_runs(stream, 0, i + 1);
        lemma_part_has_fitting_digit_runs(stream, i + 1, stream.len() as int);
        lemma_fitting_line_is_parseable(line, cached_tokens);
        law_streams_with_fitting_digit_runs_are_taken(rest, cached_tokens);
        assert forall|j: int| 0 <= j < complete_lines(stream).len() implies is_parseable(
            #[trigger] complete_lines(stream)[j],
            cached_tokens,
        ) by {
            if j > 0 {
                assert(complete_lines(stream)[j] == complete_lines(rest)[j - 1]);
            }
        }
    }
}

/// What is forwarded in all for a stream that arrives in `chunks`, after `pending` was held back: what
/// each chunk completes, and at the end what is left.
pub open spec fn chunked_output(
    pending: Seq<u8>,
    chunks: Seq<Seq<u8>>,
    cached_tokens: Option<u64>,
) -> Seq<u8>
    decreases chunks.len(),
{
    if chunks.len() == 0 {
        flushed(pending, cached_tokens)
    } else {
        forwarded(pending + chunks[0], cached_tokens) + chunked_output(
            unfinished_line(pending + chunks[0]),
            chunks.drop_first(),
            cached_tokens,
        )
    }
}

/// Two chunks are worth what they are in one: what is forwarded for the one and then for the other is
/// what is forwarded for both together, the same bytes are held back at the end, and the pair is taken
/// exactly where the two together are.
pub proof fn law_two_chunks_are_worth_one(
    pending: Seq<u8>,
    first: Seq<u8>,
    second: Seq<u8>,
    cached_tokens: Option<u64>,
)
    ensures
        ({
            let held = unfinished_line(pending + first);
            &&& forwarded(pending + (first + second), cached_tokens) == forwarded(
                pending + first,
                cached_tokens,
            ) + forwarded(held + second, cached_tokens)
            &&& unfinished_line(pending + (first + second)) == unfinished_line(held + second)
            &&& lines_are_parseable(pending + (first + second), cached_tokens) <==> (
            lines_are_parseable(pending + first, cached_tokens) && lines_are_parseable(
                held + second,
                cached_tokens,
            ))
        }),
{
    let before = pending + first;
    let held = unfinished_line(before);
    assert(pending + (first + second) =~= before + second);
    law_lines_of_a_cut_stream(before, second);
    let a = complete_lines(before);
    let b = complete_lines(held + second);
    assert(forwarded_lines(a + b, cached_tokens) =~= forwarded_lines(a, cached_tokens)
        + forwarded_lines(b, cached_tokens));
    lemma_flatten_add(forwarded_lines(a, cached_tokens), forwarded_lines(b, cached_tokens));
    if lines_are_parseable(before + second, cached_tokens) {
        assert forall|i: int| 0 <= i < a.len() implies is_parseable(
            #[trigger] a[i],
            cached_tokens,
        ) by {
            assert((a + b)[i] == a[i]);
        }
        assert forall|i: int| 0 <= i < b.len() implies is_parseable(
            #[trigger] b[i],
            cached_tokens,
        ) by {
            assert((a + b)[a.len() + i] == b[i]);
        }
    }
}

/// What is forwarded for a stream that is cut in two: what its first part completes, and then what is
/// forwarded for the line that this part leaves unfinished together with the second part.
pub proof fn law_output_of_a_cut_stream(
    first: Seq<u8>,
    second: Seq<u8>,
    cached_tokens: Option<u64>,
)
    ensures
        stream_output(first + second, cached_tokens) == forwarded(first, cached_tokens)
            + stream_output(unfinished_line(first) + second, cached_tokens),
{
    law_two_chunks_are_worth_one(Seq::empty(), first, second, cached_tokens);
    assert(Seq::<u8>::empty() + first =~= first);
    assert(Seq::<u8>::empty() + (first + second) =~= first + second);
    assert(stream_output(first + second, cached_tokens) =~= forwarded(first, cached_tokens)
        + stream_output(unfinished_line(first) + second, cached_tokens));
}

/// A stream without a line feed is forwarded at its end, all at once.
pub(crate) proof fn lemma_output_of_an_unfinished_line(stream: Seq<u8>, cached_tokens: Option<u64>)
    requires
        !stream.contains(LINE_FEED),
    ensures
        stream_output(stream, cached_tokens) == flushed(stream, cached_tokens),
{
    stream.index_of_first_ensures(LINE_FEED);
    assert(forwarded_lines(complete_lines(stream), cached_tokens) =~= Seq::empty());
    assert(stream_output(stream, cached_tokens) =~= flushed(stream, cached_tokens));
}

/// Chunk boundaries do not matter: however a stream is cut into chunks, even in the middle of a line,
/// the bytes that are forwarded in all are those of the stream in one piece.
pub proof fn law_chunk_boundaries_do_not_matter(
    pending: Seq<u8>,
    chunks: Seq<Seq<u8>>,
    cached_tokens: Option<u64>,
)
    requires
        !pending.contains(LINE_FEED),
    ensures
        chunked_output(pending, chunks, cached_tokens) == stream_output(
            pending + chunks.flatten(),
            cached_tokens,
        ),
    decreases chunks.len(),
{
    if chunks.len() == 0 {
        assert(pending + chunks.flatten() =~= pending);
        lemma_output_of_an_unfinished_line(pending, cached_tokens);
    } else {
        let first = pending + chunks[0];
        let others = chunks.drop_first();
        law_lines_make_up_the_stream(first);
        law_chunk_boundaries_do_not_matter(unfinished_line(first), others, cached_tokens);
        assert(pending + chunks.flatten() =~= first + others.flatten());
        law_output_of_a_cut_stream(first, others.flatten(), cached_tokens);
    }
}

/// A stream of which no line is changed is forwarded byte for byte.
pub proof fn law_unchanged_lines_make_an_unchanged_stream(
    stream: Seq<u8>,
    cached_tokens: Option<u64>,
)
    requires
        forall|i: int|
            0 <= i < complete_lines(stream).len() ==> forwarded_line(
                #[trigger] complete_lines(stream)[i],
                cached_tokens,
            ) == complete_lines(stream)[i],
        forwarded_line(unfinished_line(stream), cached_tokens) == unfinished_line(stream),
    ensures
        stream_output(stream, cached_tokens) == stream,
{
    law_lines_make_up_the_stream(stream);
    assert(forwarded_lines(complete_lines(stream), cached_tokens) =~= complete_lines(stream));
    assert(flushed(unfinished_line(stream), cached_tokens) =~= unfinished_line(stream));
}

/// Without a count to report, every stream is forwarded byte for byte.
pub proof fn law_without_a_count_nothing_changes(stream: Seq<u8>)
    ensures
        stream_output(stream, None) == stream,
{
    law_unchanged_lines_make_an_unchanged_stream(stream, None);
}

} // verus!
