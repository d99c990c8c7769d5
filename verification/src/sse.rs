//! Single lines of a server-sent event stream.

use crate::digits::{digit_runs_fit, lemma_part_has_fitting_digit_runs};
use crate::json::Json;
use crate::outside::{encode_json, encoded, json, parse_json, parsed, MAX_NESTING};
use crate::usage::{
    chunk_with_count, inject_cached_tokens_in_chunk, law_floats_do_not_matter,
    law_injection_nests_no_deeper, law_response_keeps_the_last_count,
    law_response_reports_the_injected_count, reads_back,
};
use serde_json::Value;
use vstd::prelude::*;
use vstd::slice::slice_subrange;

verus! {

/// The byte that ends a line.
pub const LINE_FEED: u8 = 0x0a;

/// The byte that may stand before the one that ends a line.
pub const CARRIAGE_RETURN: u8 = 0x0d;

/// The byte that may stand between a field's name and its value.
pub const SPACE: u8 = 0x20;

/// Whether a line is ended by a line feed.
pub open spec fn is_terminated(line: Seq<u8>) -> bool {
    line.len() > 0 && line.last() == LINE_FEED
}

/// Whether no line feed stands before the last byte: such bytes are one line, or part of one.
pub open spec fn is_single_line(line: Seq<u8>) -> bool {
    forall|i: int| 0 <= i < line.len() - 1 ==> #[trigger] line[i] != LINE_FEED
}

/// What a line holds before its end: a line feed, a carriage return, or both.
pub open spec fn line_body(line: Seq<u8>) -> Seq<u8> {
    let unterminated = if is_terminated(line) {
        line.drop_last()
    } else {
        line
    };
    if unterminated.len() > 0 && unterminated.last() == CARRIAGE_RETURN {
        unterminated.drop_last()
    } else {
        unterminated
    }
}

/// What a data line starts with: `data:`.
pub open spec fn data_prefix() -> Seq<u8> {
    seq![0x64u8, 0x61u8, 0x74u8, 0x61u8, 0x3au8]
}

/// The payload of a data line: what follows the prefix, without one leading space. `None` for a line
/// of any other kind.
pub open spec fn data_payload(line: Seq<u8>) -> Option<Seq<u8>> {
    let body = line_body(line);
    if data_prefix().is_prefix_of(body) {
        let rest = body.skip(data_prefix().len() as int);
        Some(
            if rest.len() > 0 && rest[0] == SPACE {
                rest.skip(1)
            } else {
                rest
            },
        )
    } else {
        None
    }
}

/// The data line with the given payload.
pub open spec fn data_line(payload: Seq<u8>, terminated: bool) -> Seq<u8> {
    data_prefix() + seq![SPACE] + payload + if terminated {
        seq![LINE_FEED]
    } else {
        Seq::empty()
    }
}

/// What a data line becomes, given the chunk that its payload holds: a data line for the chunk with
/// the count written into it. A line stays as it is where its payload holds no JSON, or a chunk that
/// takes no count.
pub open spec fn rewritten_line(line: Seq<u8>, chunk: Option<Json>, cached_tokens: u64) -> Seq<u8> {
    match chunk {
        Some(document) => match chunk_with_count(document, cached_tokens) {
            Some(counted) => data_line(encoded(counted), is_terminated(line)),
            None => line,
        },
        None => line,
    }
}

/// The chunk that a line carries: what its payload parses to, if it is a data line.
pub open spec fn carried_chunk(line: Seq<u8>) -> Option<Json> {
    match data_payload(line) {
        Some(payload) => parsed(payload),
        None => None,
    }
}

/// What is forwarded for a line. With no count to report, every line is forwarded as it is.
pub open spec fn forwarded_line(line: Seq<u8>, cached_tokens: Option<u64>) -> Seq<u8> {
    match cached_tokens {
        Some(count) => rewritten_line(line, carried_chunk(line), count),
        None => line,
    }
}

/// Whether the payload of a line, where it has to be parsed, has no longer run of digits than the
/// parser takes.
pub open spec fn is_parseable(line: Seq<u8>, cached_tokens: Option<u64>) -> bool {
    cached_tokens is Some ==> (data_payload(line) matches Some(payload) ==> digit_runs_fit(payload))
}

/// Whether the count reaches the reader of a line: where the chunk that the line carries takes it,
/// the payload that is forwarded is the text of the chunk with the count in it, and reads back.
pub open spec fn delivers_count(line: Seq<u8>, cached_tokens: Option<u64>) -> bool {
    cached_tokens matches Some(count) ==> (carried_chunk(line) matches Some(chunk) ==> (
    chunk_with_count(chunk, count) matches Some(counted) ==> {
        &&& data_payload(forwarded_line(line, cached_tokens)) == Some(encoded(counted))
        &&& reads_back(encoded(counted), counted, count)
    }))
}

/// Append `bytes` to `out`.
pub(crate) fn append(out: &mut Vec<u8>, bytes: &[u8])
    ensures
        final(out)@ == old(out)@ + bytes@,
{
    out.extend_from_slice(bytes);
    assert(out@ =~= old(out)@ + bytes@);
}

/// The payload of a data line. `None` for a line of any other kind.
pub fn read_data_payload(line: &[u8]) -> (payload: Option<&[u8]>)
    ensures
        match data_payload(line@) {
            Some(bytes) => payload matches Some(slice) && slice@ == bytes,
            None => payload is None,
        },
{
    let mut end: usize = line.len();
    if end > 0 && line[end - 1] == LINE_FEED {
        end = end - 1;
    }
    if end > 0 && line[end - 1] == CARRIAGE_RETURN {
        end = end - 1;
    }
    assert(line_body(line@) =~= line@.take(end as int));
    if end < 5 || line[0] != 0x64 || line[1] != 0x61 || line[2] != 0x74 || line[3] != 0x61
        || line[4] != 0x3a {
        return None;
    }
    assert(data_prefix().is_prefix_of(line_body(line@)));
    let mut start: usize = 5;
    if start < end && line[start] == SPACE {
        start = start + 1;
    }
    let payload = slice_subrange(line, start, end);
    assert(payload@ =~= data_payload(line@)->0);
    Some(payload)
}

/// Append the data line with the given payload to `out`.
pub fn append_data_line(payload: &[u8], terminated: bool, out: &mut Vec<u8>)
    ensures
        final(out)@ == old(out)@ + data_line(payload@, terminated),
{
    out.push(0x64);
    out.push(0x61);
    out.push(0x74);
    out.push(0x61);
    out.push(0x3a);
    out.push(SPACE);
    append(out, payload);
    if terminated {
        out.push(LINE_FEED);
    }
    assert(out@ =~= old(out)@ + data_line(payload@, terminated));
}

/// A data line whose payload holds no byte below a space is a single line, and has that payload.
proof fn lemma_data_line(payload: Seq<u8>, terminated: bool)
    requires
        forall|i: int| 0 <= i < payload.len() ==> #[trigger] payload[i] >= SPACE,
    ensures
        is_single_line(data_line(payload, terminated)),
        is_terminated(data_line(payload, terminated)) == terminated,
        data_payload(data_line(payload, terminated)) == Some(payload),
{
    let line = data_line(payload, terminated);
    let body = data_prefix() + seq![SPACE] + payload;
    assert forall|i: int| 0 <= i < body.len() implies #[trigger] body[i] >= SPACE by {
        if i >= 6 {
            assert(body[i] == payload[i - 6]);
        }
    }
    if terminated {
        assert(line.drop_last() =~= body);
    } else {
        assert(line =~= body);
    }
    assert(body.last() >= SPACE);
    assert(line_body(line) == body);
    assert(data_prefix().is_prefix_of(body));
    let rest = body.skip(data_prefix().len() as int);
    assert(rest[0] == SPACE);
    assert(rest.skip(1) =~= payload);
}

/// Forward a data line whose payload holds `chunk`, or no JSON where that is `None`: with the count
/// injected if the chunk takes it, else as it is. Where it is injected, what is appended is a single
/// line again, and its payload reads back.
pub fn rewrite_data_line(line: &[u8], chunk: Option<Value>, cached_tokens: u64, out: &mut Vec<u8>)
    requires
        chunk matches Some(value) ==> json(value).nests_within(MAX_NESTING as nat),
    ensures
        match chunk {
            Some(value) => {
                &&& final(out)@ == old(out)@ + rewritten_line(
                    line@,
                    Some(json(value)),
                    cached_tokens,
                )
                &&& chunk_with_count(json(value), cached_tokens) matches Some(counted) ==> {
                    let written = rewritten_line(line@, Some(json(value)), cached_tokens);
                    &&& is_single_line(written)
                    &&& is_terminated(written) == is_terminated(line@)
                    &&& data_payload(written) == Some(encoded(counted))
                    &&& reads_back(encoded(counted), counted, cached_tokens)
                }
            },
            None => final(out)@ == old(out)@ + line@,
        },
{
    let mut value = match chunk {
        Some(value) => value,
        None => {
            append(out, line);
            return;
        },
    };
    let ghost document = json(value);
    if !inject_cached_tokens_in_chunk(&mut value, cached_tokens) {
        append(out, line);
        return;
    }
    proof {
        law_injection_nests_no_deeper(document, cached_tokens, MAX_NESTING as nat);
        law_response_reports_the_injected_count(document, cached_tokens);
    }
    match encode_json(&value) {
        Some(text) => {
            let terminated = line.len() > 0 && line[line.len() - 1] == LINE_FEED;
            append_data_line(text.as_slice(), terminated, out);
            proof {
                lemma_data_line(text@, terminated);
                if let Some(found) = parsed(text@) {
                    law_floats_do_not_matter(json(value), found);
                }
            }
        },
        None => append(out, line),
    }
}

/// Forward one line of the decode stream. SSE `data:` lines are JSON-parsed; lines that are not valid
/// JSON (e.g. `[DONE]`) or that are not modified are forwarded byte-for-byte.
pub fn process_sse_line(line: &[u8], cached_tokens: Option<u64>, out: &mut Vec<u8>)
    requires
        is_parseable(line@, cached_tokens),
    ensures
        final(out)@ == old(out)@ + forwarded_line(line@, cached_tokens),
        is_single_line(line@) ==> {
            &&& is_single_line(forwarded_line(line@, cached_tokens))
            &&& is_terminated(forwarded_line(line@, cached_tokens)) == is_terminated(line@)
        },
        delivers_count(line@, cached_tokens),
{
    let count: u64 = match cached_tokens {
        Some(count) => count,
        None => {
            append(out, line);
            return;
        },
    };
    match read_data_payload(line) {
        Some(payload) => rewrite_data_line(line, parse_json(payload), count, out),
        None => append(out, line),
    }
}

/// A line with no long run of digits has no payload with one.
pub(crate) proof fn lemma_fitting_line_is_parseable(line: Seq<u8>, cached_tokens: Option<u64>)
    requires
        digit_runs_fit(line),
    ensures
        is_parseable(line, cached_tokens),
{
    if let Some(payload) = data_payload(line) {
        let body = line_body(line);
        let rest = body.skip(data_prefix().len() as int);
        let start = if rest.len() > 0 && rest[0] == SPACE {
            6int
        } else {
            5int
        };
        assert(payload =~= line.subrange(start, body.len() as int));
        lemma_part_has_fitting_digit_runs(line, start, body.len() as int);
    }
}

/// A line is forwarded byte for byte where it is no data line, where its payload is no JSON, and where
/// the chunk it carries takes no count; and every line is, where there is no count to report.
pub proof fn law_other_lines_are_forwarded_unchanged(line: Seq<u8>, cached_tokens: Option<u64>)
    ensures
        cached_tokens is None ==> forwarded_line(line, cached_tokens) == line,
        data_payload(line) is None ==> forwarded_line(line, cached_tokens) == line,
        data_payload(line) matches Some(payload) ==> (parsed(payload) is None ==> forwarded_line(
            line,
            cached_tokens,
        ) == line),
        cached_tokens matches Some(count) ==> (carried_chunk(line) matches Some(chunk) ==> (
        chunk_with_count(chunk, count) is None ==> forwarded_line(line, cached_tokens) == line)),
{
}

/// A line that ends in a carriage return and a line feed carries the same payload as one that ends in
/// a line feed alone, and where it is rewritten it is forwarded as the same line.
pub proof fn law_carriage_returns_are_tolerated(body: Seq<u8>, cached_tokens: u64)
    requires
        body.len() > 0 ==> body.last() != CARRIAGE_RETURN,
    ensures
        ({
            let lf = body.push(LINE_FEED);
            let crlf = body.push(CARRIAGE_RETURN).push(LINE_FEED);
            &&& data_payload(crlf) == data_payload(lf)
            &&& carried_chunk(crlf) matches Some(chunk) ==> (chunk_with_count(
                chunk,
                cached_tokens,
            ) is Some ==> forwarded_line(crlf, Some(cached_tokens)) == forwarded_line(
                lf,
                Some(cached_tokens),
            ))
        }),
{
    let lf = body.push(LINE_FEED);
    let crlf = body.push(CARRIAGE_RETURN).push(LINE_FEED);
    assert(lf.drop_last() =~= body);
    assert(crlf.drop_last() =~= body.push(CARRIAGE_RETURN));
    assert(body.push(CARRIAGE_RETURN).drop_last() =~= body);
}

/// A line that was forwarded is forwarded unchanged the next time, where its end was kept and the
/// chunk that it carries is the one that was written into it.
pub proof fn law_forwarding_twice_changes_nothing(line: Seq<u8>, cached_tokens: u64)
    requires
        is_terminated(forwarded_line(line, Some(cached_tokens))) == is_terminated(line),
        carried_chunk(line) matches Some(chunk) ==> (chunk_with_count(
            chunk,
            cached_tokens,
        ) matches Some(counted) ==> carried_chunk(forwarded_line(line, Some(cached_tokens)))
            == Some(counted)),
    ensures
        forwarded_line(forwarded_line(line, Some(cached_tokens)), Some(cached_tokens))
            == forwarded_line(line, Some(cached_tokens)),
{
    if let Some(chunk) = carried_chunk(line) {
        law_response_keeps_the_last_count(chunk, cached_tokens, cached_tokens);
    }
}

} // verus!
