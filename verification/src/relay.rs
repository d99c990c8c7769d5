//! Relaying a decode response stream item by item.

use crate::digits::{digit_runs_fit, lemma_part_has_fitting_digit_runs};
use crate::injector::{
    flushed, forwarded, law_output_of_a_cut_stream, law_streams_with_fitting_digit_runs_are_taken,
    law_two_chunks_are_worth_one, lemma_output_of_an_unfinished_line, lines_are_parseable,
    lines_deliver_count, stream_output, CachedTokensSseInjector,
};
use crate::lines::{law_lines_make_up_the_stream, law_lines_of_a_cut_stream, unfinished_line};
use crate::outside::{bytes_as_slice, content};
use crate::sse::{delivers_count, is_parseable, lemma_fitting_line_is_parseable, LINE_FEED};
use bytes::Bytes;
use vstd::prelude::*;

verus! {

/// What goes on between the decode stream and the client: for each item of the one, the item that
/// the other gets.
///
/// Chunks are passed through an injector, error items are forwarded unchanged. The end of the decode
/// stream is answered with one last chunk, and then the stream to the client has ended too.
pub struct CachedTokensRelay {
    injector: CachedTokensSseInjector,
    finished: bool,
}

impl CachedTokensRelay {
    /// The count that is injected.
    pub closed spec fn cached_tokens(self) -> Option<u64> {
        self.injector.cached_tokens()
    }

    /// The bytes that arrived and were not forwarded yet.
    pub closed spec fn pending(self) -> Seq<u8> {
        self.injector.pending()
    }

    /// Whether the stream to the client has ended.
    pub closed spec fn finished(self) -> bool {
        self.finished
    }

    /// Between calls, what is held back is part of one line, and nothing is once the stream has
    /// ended.
    pub open spec fn wf(self) -> bool {
        &&& !self.pending().contains(LINE_FEED)
        &&& self.finished() ==> self.pending() == Seq::<u8>::empty()
    }

    /// A relay for a stream that has not started.
    pub fn new(cached_tokens: u64) -> (relay: Self)
        ensures
            relay.wf(),
            relay.cached_tokens() == Some(cached_tokens),
            relay.pending() == Seq::<u8>::empty(),
            !relay.finished(),
    {
        CachedTokensRelay {
            injector: CachedTokensSseInjector::new(Some(cached_tokens)),
            finished: false,
        }
    }

    /// Whether the stream to the client has ended, so that the decode stream is not polled again.
    pub fn is_finished(&self) -> (answer: bool)
        ensures
            answer == self.finished(),
    {
        self.finished
    }

    /// Whether what `next` completes has no longer run of digits than the parser takes.
    pub open spec fn takes<E>(self, next: Option<Result<Bytes, E>>) -> bool {
        !self.finished() ==> match next {
            Some(Ok(chunk)) => lines_are_parseable(
                self.pending() + content(chunk),
                self.cached_tokens(),
            ),
            Some(Err(_)) => true,
            None => is_parseable(self.pending(), self.cached_tokens()),
        }
    }

    /// Whether [`step`](Self::step) takes `next`.
    pub fn accepts<E>(&self, next: &Option<Result<Bytes, E>>) -> (answer: bool)
        ensures
            answer == self.takes(*next),
    {
        if self.finished {
            return true;
        }
        match next {
            Some(Ok(chunk)) => self.injector.accepts(bytes_as_slice(chunk)),
            Some(Err(_)) => true,
            None => self.injector.accepts_end(),
        }
    }

    /// The item for the client, given what the decode stream gave: an item, or `None` at its end.
    /// `None` once the stream to the client has ended.
    pub fn step<E>(&mut self, next: Option<Result<Bytes, E>>) -> (item: Option<Result<Bytes, E>>)
        requires
            old(self).takes(next),
        ensures
            old(self).wf() ==> final(self).wf(),
            final(self).cached_tokens() == old(self).cached_tokens(),
            old(self).finished() ==> item is None && *final(self) == *old(self),
            !old(self).finished() ==> match next {
                Some(Ok(chunk)) => {
                    &&& item matches Some(Ok(out)) && content(out) == forwarded(
                        old(self).pending() + content(chunk),
                        old(self).cached_tokens(),
                    )
                    &&& final(self).pending() == unfinished_line(
                        old(self).pending() + content(chunk),
                    )
                    &&& !final(self).finished()
                    &&& lines_deliver_count(
                        old(self).pending() + content(chunk),
                        old(self).cached_tokens(),
                    )
                },
                Some(Err(error)) => {
                    &&& item == Some(Err::<Bytes, E>(error))
                    &&& *final(self) == *old(self)
                },
                None => {
                    &&& item matches Some(Ok(out)) && content(out) == flushed(
                        old(self).pending(),
                        old(self).cached_tokens(),
                    )
                    &&& final(self).pending() == Seq::<u8>::empty()
                    &&& final(self).finished()
                    &&& old(self).pending().len() > 0 ==> delivers_count(
                        old(self).pending(),
                        old(self).cached_tokens(),
                    )
                },
            },
    {
        if self.finished {
            return None;
        }
        match next {
            Some(Ok(chunk)) => {
                let out = self.injector.process(bytes_as_slice(&chunk));
                Some(Ok(out))
            },
            Some(Err(error)) => Some(Err(error)),
            None => {
                let out = self.injector.finish();
                self.finished = true;
                Some(Ok(out))
            },
        }
    }
}

/// The items that the client gets for the items of a decode stream and its end, after `pending` was
/// held back.
pub open spec fn relayed<E>(
    pending: Seq<u8>,
    items: Seq<Result<Seq<u8>, E>>,
    cached_tokens: Option<u64>,
) -> Seq<Result<Seq<u8>, E>>
    decreases items.len(),
{
    if items.len() == 0 {
        seq![Ok(flushed(pending, cached_tokens))]
    } else {
        match items[0] {
            Ok(chunk) => seq![Ok::<Seq<u8>, E>(forwarded(pending + chunk, cached_tokens))]
                + relayed(
                unfinished_line(pending + chunk),
                items.drop_first(),
                cached_tokens,
            ),
            Err(error) => seq![Err::<Seq<u8>, E>(error)] + relayed(
                pending,
                items.drop_first(),
                cached_tokens,
            ),
        }
    }
}

/// The bytes of the chunks among `items`, joined.
pub open spec fn chunk_bytes<E>(items: Seq<Result<Seq<u8>, E>>) -> Seq<u8>
    decreases items.len(),
{
    if items.len() == 0 {
        Seq::empty()
    } else {
        let rest = chunk_bytes(items.drop_first());
        match items[0] {
            Ok(chunk) => chunk + rest,
            Err(_) => rest,
        }
    }
}

/// What is held back after `items`: the line that their chunks leave unfinished.
pub open spec fn held_back<E>(pending: Seq<u8>, items: Seq<Result<Seq<u8>, E>>) -> Seq<u8> {
    unfinished_line(pending + chunk_bytes(items))
}

/// The client gets one item for each item of the decode stream, in order, and one more for its end.
/// An error is forwarded unchanged, and holds nothing up. A chunk becomes what an injector forwards
/// for it, which has held back the unfinished line of the chunks before. The last item is what the
/// injector flushes, even where that is nothing.
pub proof fn law_each_item_is_answered<E>(
    pending: Seq<u8>,
    items: Seq<Result<Seq<u8>, E>>,
    cached_tokens: Option<u64>,
)
    requires
        !pending.contains(LINE_FEED),
    ensures
        relayed(pending, items, cached_tokens).len() == items.len() + 1,
        forall|k: int|
            0 <= k < items.len() ==> #[trigger] relayed(pending, items, cached_tokens)[k] == (
            match items[k] {
                Ok(chunk) => Ok::<Seq<u8>, E>(
                    forwarded(held_back(pending, items.take(k)) + chunk, cached_tokens),
                ),
                Err(error) => Err(error),
            }),
        relayed(pending, items, cached_tokens).last() == Ok::<Seq<u8>, E>(
            flushed(held_back(pending, items), cached_tokens),
        ),
    decreases items.len(),
{
    let all = relayed(pending, items, cached_tokens);
    pending.index_of_first_ensures(LINE_FEED);
    assert(pending + Seq::empty() =~= pending);
    if items.len() > 0 {
        let others = items.drop_first();
        let held = match items[0] {
            Ok(chunk) => unfinished_line(pending + chunk),
            Err(_) => pending,
        };
        if let Ok(chunk) = items[0] {
            law_lines_make_up_the_stream(pending + chunk);
        }
        law_each_item_is_answered(held, others, cached_tokens);
        let rest = relayed(held, others, cached_tokens);
        lemma_held_back_after_the_first(pending, items);
        assert(all.last() == rest.last());
        assert forall|k: int| 0 <= k < items.len() implies #[trigger] all[k] == (match items[k] {
            Ok(chunk) => Ok::<Seq<u8>, E>(
                forwarded(held_back(pending, items.take(k)) + chunk, cached_tokens),
            ),
            Err(error) => Err(error),
        }) by {
            if k > 0 {
                assert(all[k] == rest[k - 1]);
                assert(items.take(k).drop_first() =~= others.take(k - 1));
                lemma_held_back_after_the_first(pending, items.take(k));
            }
        }
    }
}

/// What is held back after several items is what the first of them and then the others leave.
proof fn lemma_held_back_after_the_first<E>(pending: Seq<u8>, items: Seq<Result<Seq<u8>, E>>)
    requires
        items.len() > 0,
    ensures
        held_back(pending, items) == match items[0] {
            Ok(chunk) => held_back(unfinished_line(pending + chunk), items.drop_first()),
            Err(_) => held_back(pending, items.drop_first()),
        },
{
    let rest = chunk_bytes(items.drop_first());
    if let Ok(chunk) = items[0] {
        assert(pending + chunk_bytes(items) =~= (pending + chunk) + rest);
        law_lines_of_a_cut_stream(pending + chunk, rest);
    }
}

/// Whether each of `items`, and the end after them, is taken in its turn.
pub open spec fn is_taken<E>(
    pending: Seq<u8>,
    items: Seq<Result<Seq<u8>, E>>,
    cached_tokens: Option<u64>,
) -> bool
    decreases items.len(),
{
    if items.len() == 0 {
        is_parseable(pending, cached_tokens)
    } else {
        match items[0] {
            Ok(chunk) => lines_are_parseable(pending + chunk, cached_tokens) && is_taken(
                unfinished_line(pending + chunk),
                items.drop_first(),
                cached_tokens,
            ),
            Err(_) => is_taken(pending, items.drop_first(), cached_tokens),
        }
    }
}

/// Whether a stream is taken does not depend on how it is cut into items: each of them and the end are
/// taken exactly where each line of the whole can be parsed. So a stream without a run of digits that
/// is longer than the parser takes is taken.
pub proof fn law_a_stream_is_taken_however_it_is_cut<E>(
    pending: Seq<u8>,
    items: Seq<Result<Seq<u8>, E>>,
    cached_tokens: Option<u64>,
)
    requires
        !pending.contains(LINE_FEED),
    ensures
        is_taken(pending, items, cached_tokens) <==> (lines_are_parseable(
            pending + chunk_bytes(items),
            cached_tokens,
        ) && is_parseable(held_back(pending, items), cached_tokens)),
        digit_runs_fit(pending + chunk_bytes(items)) ==> is_taken(pending, items, cached_tokens),
    decreases items.len(),
{
    let whole = pending + chunk_bytes(items);
    if items.len() == 0 {
        pending.index_of_first_ensures(LINE_FEED);
        assert(whole =~= pending);
    } else {
        let others = items.drop_first();
        let rest = chunk_bytes(others);
        lemma_held_back_after_the_first(pending, items);
        match items[0] {
            Ok(chunk) => {
                law_lines_make_up_the_stream(pending + chunk);
                law_a_stream_is_taken_however_it_is_cut(
                    unfinished_line(pending + chunk),
                    others,
                    cached_tokens,
                );
                law_two_chunks_are_worth_one(pending, chunk, rest, cached_tokens);
            },
            Err(_) => law_a_stream_is_taken_however_it_is_cut(pending, others, cached_tokens),
        }
    }
    if digit_runs_fit(whole) {
        law_lines_make_up_the_stream(whole);
        let held = held_back(pending, items);
        let start = whole.len() - held.len();
        assert(held =~= whole.subrange(start, whole.len() as int));
        lemma_part_has_fitting_digit_runs(whole, start, whole.len() as int);
        lemma_fitting_line_is_parseable(held, cached_tokens);
        law_streams_with_fitting_digit_runs_are_taken(whole, cached_tokens);
    }
}

/// The chunks that the client gets, joined, are what an injector forwards for the chunks of the decode
/// stream in one piece, whatever errors stand between them.
pub proof fn law_relayed_chunks_are_the_rewritten_stream<E>(
    pending: Seq<u8>,
    items: Seq<Result<Seq<u8>, E>>,
    cached_tokens: Option<u64>,
)
    requires
        !pending.contains(LINE_FEED),
    ensures
        chunk_bytes(relayed(pending, items, cached_tokens)) == stream_output(
            pending + chunk_bytes(items),
            cached_tokens,
        ),
    decreases items.len(),
{
    let all = relayed(pending, items, cached_tokens);
    if items.len() == 0 {
        reveal_with_fuel(chunk_bytes, 2);
        assert(chunk_bytes(all) =~= flushed(pending, cached_tokens));
        assert(pending + chunk_bytes(items) =~= pending);
        lemma_output_of_an_unfinished_line(pending, cached_tokens);
    } else {
        let others = items.drop_first();
        let rest = chunk_bytes(others);
        match items[0] {
            Ok(chunk) => {
                let first = pending + chunk;
                law_lines_make_up_the_stream(first);
                law_relayed_chunks_are_the_rewritten_stream(
                    unfinished_line(first),
                    others,
                    cached_tokens,
                );
                law_output_of_a_cut_stream(first, rest, cached_tokens);
                assert(all.drop_first() =~= relayed(unfinished_line(first), others, cached_tokens));
                assert(pending + chunk_bytes(items) =~= first + rest);
            },
            Err(_) => {
                law_relayed_chunks_are_the_rewritten_stream(pending, others, cached_tokens);
                assert(all.drop_first() =~= relayed(pending, others, cached_tokens));
            },
        }
    }
}

} // verus!
