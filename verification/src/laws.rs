//! What holds of each operation, said of what goes in and what comes out.
//!
//! These laws name the members of a document, the bytes of a line and the lines of a stream
//! directly. Together they determine the result of each operation.

use crate::body::body_with_count;
use crate::digits::{digit_runs_fit, is_digit, is_digit_run, MAX_DIGIT_RUN};
use crate::injector::{
    flushed, forwarded, forwarded_lines, law_streams_with_fitting_digit_runs_are_taken,
    law_two_chunks_are_worth_one, lines_are_parseable, stream_output,
};
use crate::json::Json;
use crate::lines::{
    complete_lines, law_lines_make_up_the_stream, lemma_first_line_feed, lemma_flatten_add,
    lemma_flatten_one, unfinished_line,
};
use crate::outside::{content, encoded, parsed};
use crate::relay::CachedTokensRelay;
use crate::sse::{
    data_line, data_payload, delivers_count, forwarded_line, is_parseable,
    lemma_fitting_line_is_parseable, rewritten_line,
};
use crate::usage::{
    chunk_with_count, law_floats_do_not_matter, law_injection_adds_no_floats, response_count,
    response_with_count, usage_with_count,
};
use bytes::Bytes;
use vstd::prelude::*;

verus! {

/// The member names that the library reads are told apart by their lengths.
pub(crate) proof fn lemma_names()
    ensures
        "usage"@.len() == 5,
        "choices"@.len() == 7,
        "response"@.len() == 8,
        "input_tokens"@.len() == 12,
        "prompt_tokens"@.len() == 13,
        "cached_tokens"@.len() == 13,
        "input_tokens_details"@.len() == 20,
        "prompt_tokens_details"@.len() == 21,
{
    reveal_strlit("usage");
    reveal_strlit("choices");
    reveal_strlit("response");
    reveal_strlit("input_tokens");
    reveal_strlit("prompt_tokens");
    reveal_strlit("cached_tokens");
    reveal_strlit("input_tokens_details");
    reveal_strlit("prompt_tokens_details");
}

/// A count that the Chat/Completions details of a response state is the one that is extracted.
pub proof fn law_a_chat_count_is_extracted(response: Json, usage: Json, details: Json, n: u64)
    requires
        response.member("usage"@) == Some(usage),
        usage.member("prompt_tokens_details"@) == Some(details),
        details.member("cached_tokens"@) == Some(Json::Integer(n as int)),
    ensures
        response_count(response) == Some(n),
{
}

/// A count that the Responses API details state is extracted where the others state none: no integer
/// that is a count.
pub proof fn law_a_responses_count_is_extracted(response: Json, usage: Json, details: Json, n: u64)
    requires
        response.member("usage"@) == Some(usage),
        usage.member("input_tokens_details"@) == Some(details),
        details.member("cached_tokens"@) == Some(Json::Integer(n as int)),
        usage.member("prompt_tokens_details"@) matches Some(other) ==> forall|m: u64|
            other.member("cached_tokens"@) != Some(Json::Integer(m as int)),
    ensures
        response_count(response) == Some(n),
{
    if let Some(other) = usage.member("prompt_tokens_details"@) {
        if let Some(Json::Integer(m)) = other.member("cached_tokens"@) {
            if 0 <= m <= u64::MAX {
                assert(other.member("cached_tokens"@) == Some(Json::Integer((m as u64) as int)));
            }
        }
    }
}

/// What is extracted is the `cached_tokens` of one of the two details objects. Nothing else in a
/// response is taken for the count.
pub proof fn law_only_a_cached_token_count_is_extracted(response: Json)
    ensures
        response_count(response) matches Some(n) ==> {
            let usage = response.member("usage"@);
            &&& usage is Some
            &&& {
                ||| (usage->0.member("prompt_tokens_details"@) matches Some(details)
                    && details.member("cached_tokens"@) == Some(Json::Integer(n as int)))
                ||| (usage->0.member("input_tokens_details"@) matches Some(details)
                    && details.member("cached_tokens"@) == Some(Json::Integer(n as int)))
            }
        },
{
}

/// A usage object takes the count exactly where it has a details object or a token total of either
/// format.
pub proof fn law_usage_of_either_format_takes_the_count(usage: Json, cached_tokens: u64)
    ensures
        usage_with_count(usage, cached_tokens) is Some <==> {
            ||| usage.member("prompt_tokens_details"@) is Some
            ||| usage.member("input_tokens_details"@) is Some
            ||| usage.member("prompt_tokens"@) is Some
            ||| usage.member("input_tokens"@) is Some
        },
{
}

/// Details that are there take the count, of whatever kind they are, those of Chat/Completions first;
/// the others stay as they are, or absent.
pub proof fn law_details_that_are_there_take_the_count(usage: Json, cached_tokens: u64)
    ensures
        usage.member("prompt_tokens_details"@) is Some ==> (usage_with_count(
            usage,
            cached_tokens,
        ) matches Some(counted) && {
            &&& counted.member("prompt_tokens_details"@) matches Some(details)
                && details.member("cached_tokens"@) == Some(Json::Integer(cached_tokens as int))
            &&& counted.member("input_tokens_details"@) == usage.member("input_tokens_details"@)
        }),
        usage.member("prompt_tokens_details"@) is None && usage.member("input_tokens_details"@) is Some
            ==> (usage_with_count(usage, cached_tokens) matches Some(counted) && {
            &&& counted.member("input_tokens_details"@) matches Some(details)
                && details.member("cached_tokens"@) == Some(Json::Integer(cached_tokens as int))
            &&& counted.member("prompt_tokens_details"@) is None
        }),
{
    lemma_names();
}

/// Where there are no details, those of the format that the token totals show are created, with the
/// count and nothing else in them.
pub proof fn law_missing_details_are_created(usage: Json, cached_tokens: u64)
    requires
        usage.member("prompt_tokens_details"@) is None,
        usage.member("input_tokens_details"@) is None,
    ensures
        usage.member("prompt_tokens"@) is Some ==> (usage_with_count(
            usage,
            cached_tokens,
        ) matches Some(counted) && {
            &&& counted.member("prompt_tokens_details"@) == Some(
                Json::Object(map!["cached_tokens"@ => Json::Integer(cached_tokens as int)]),
            )
            &&& counted.member("input_tokens_details"@) is None
        }),
        usage.member("prompt_tokens"@) is None && usage.member("input_tokens"@) is Some ==> (
        usage_with_count(usage, cached_tokens) matches Some(counted) && {
            &&& counted.member("input_tokens_details"@) == Some(
                Json::Object(map!["cached_tokens"@ => Json::Integer(cached_tokens as int)]),
            )
            &&& counted.member("prompt_tokens_details"@) is None
        }),
{
    lemma_names();
}

/// Nothing but the count changes in a usage object: a member of any other name is what it was, and a
/// details object that changed has, under any name but `cached_tokens`, what it had.
pub proof fn law_usage_changes_only_in_the_count(
    usage: Json,
    cached_tokens: u64,
    name: Seq<char>,
    inner: Seq<char>,
)
    ensures
        usage_with_count(usage, cached_tokens) matches Some(counted) ==> {
            &&& counted is Object
            &&& name != "prompt_tokens_details"@ && name != "input_tokens_details"@
                ==> counted.member(name) == usage.member(name)
            &&& counted.member(name) != usage.member(name) ==> {
                let details = counted.member(name);
                &&& details is Some
                &&& details->0 is Object
                &&& inner != "cached_tokens"@ ==> details->0.member(inner) == (match usage.member(
                    name,
                ) {
                    Some(before) => before.member(inner),
                    None => None,
                })
            }
        },
{
}

/// A response whose own `usage` is of either format takes the count there, whatever else it holds:
/// its `usage` becomes what that usage object becomes, extracting gives the count, and a member of any
/// other name is what it was.
pub proof fn law_own_usage_takes_the_count(
    response: Json,
    usage: Json,
    cached_tokens: u64,
    name: Seq<char>,
)
    requires
        response.member("usage"@) == Some(usage),
        usage.member("prompt_tokens_details"@) is Some || usage.member("input_tokens_details"@) is Some
            || usage.member("prompt_tokens"@) is Some || usage.member("input_tokens"@) is Some,
    ensures
        response_with_count(response, cached_tokens) matches Some(counted) && {
            &&& counted is Object
            &&& counted.member("usage"@) is Some
            &&& counted.member("usage"@) == usage_with_count(usage, cached_tokens)
            &&& response_count(counted) == Some(cached_tokens)
            &&& name != "usage"@ ==> counted.member(name) == response.member(name)
        },
{
    lemma_names();
}

/// A response whose own `usage` takes no count takes it in the `usage` of its member `response`, where
/// that is of either format: there too everything else is what it was.
pub proof fn law_nested_usage_takes_the_count(
    response: Json,
    nested: Json,
    usage: Json,
    cached_tokens: u64,
    name: Seq<char>,
)
    requires
        response.member("usage"@) matches Some(own) ==> {
            &&& own.member("prompt_tokens_details"@) is None
            &&& own.member("input_tokens_details"@) is None
            &&& own.member("prompt_tokens"@) is None
            &&& own.member("input_tokens"@) is None
        },
        response.member("response"@) == Some(nested),
        nested.member("usage"@) == Some(usage),
        usage.member("prompt_tokens_details"@) is Some || usage.member("input_tokens_details"@) is Some
            || usage.member("prompt_tokens"@) is Some || usage.member("input_tokens"@) is Some,
    ensures
        response_with_count(response, cached_tokens) matches Some(counted) && {
            let inner = counted.member("response"@);
            &&& counted is Object
            &&& inner is Some
            &&& inner->0 is Object
            &&& inner->0.member("usage"@) is Some
            &&& inner->0.member("usage"@) == usage_with_count(usage, cached_tokens)
            &&& response_count(inner->0) == Some(cached_tokens)
            &&& name != "usage"@ ==> inner->0.member(name) == nested.member(name)
            &&& name != "response"@ ==> counted.member(name) == response.member(name)
        },
{
    lemma_names();
}

/// No other response takes a count.
pub proof fn law_no_other_response_takes_a_count(response: Json, cached_tokens: u64)
    ensures
        response_with_count(response, cached_tokens) is Some ==> {
            ||| (response.member("usage"@) matches Some(usage) && {
                ||| usage.member("prompt_tokens_details"@) is Some
                ||| usage.member("input_tokens_details"@) is Some
                ||| usage.member("prompt_tokens"@) is Some
                ||| usage.member("input_tokens"@) is Some
            })
            ||| (response.member("response"@) matches Some(nested) && nested.member(
                "usage"@,
            ) matches Some(usage) && {
                ||| usage.member("prompt_tokens_details"@) is Some
                ||| usage.member("input_tokens_details"@) is Some
                ||| usage.member("prompt_tokens"@) is Some
                ||| usage.member("input_tokens"@) is Some
            })
        },
{
}

/// A streaming chunk is skipped exactly for a `choices` array that is not empty; with any other
/// `choices`, or none, it takes the count as a response does.
pub proof fn law_a_chunk_is_skipped_for_its_choices_alone(chunk: Json, cached_tokens: u64)
    ensures
        (chunk.member("choices"@) matches Some(Json::Array(choices)) && choices.len() > 0)
            ==> chunk_with_count(chunk, cached_tokens) is None,
        !(chunk.member("choices"@) matches Some(Json::Array(choices)) && choices.len() > 0)
            ==> chunk_with_count(chunk, cached_tokens) == response_with_count(chunk, cached_tokens),
{
}

/// A body that holds a response with usage of either format takes the count, whatever its choices are:
/// it becomes the response with the count in it. A body that is no JSON stays.
pub proof fn law_a_body_takes_the_count_whatever_its_choices(
    document: Json,
    usage: Json,
    cached_tokens: u64,
    name: Seq<char>,
)
    requires
        document.member("usage"@) == Some(usage),
        usage.member("prompt_tokens_details"@) is Some || usage.member("input_tokens_details"@) is Some
            || usage.member("prompt_tokens"@) is Some || usage.member("input_tokens"@) is Some,
    ensures
        body_with_count(Some(document), cached_tokens) matches Some(counted) && {
            &&& response_count(counted) == Some(cached_tokens)
            &&& counted.member("usage"@) == usage_with_count(usage, cached_tokens)
            &&& name != "usage"@ ==> counted.member(name) == document.member(name)
        },
        body_with_count(None, cached_tokens) is None,
{
    law_own_usage_takes_the_count(document, usage, cached_tokens, name);
}

/// A body takes a count exactly where the response that it holds does, and with the same result.
pub proof fn law_a_body_becomes_its_response_with_the_count(document: Json, cached_tokens: u64)
    ensures
        body_with_count(Some(document), cached_tokens) == response_with_count(
            document,
            cached_tokens,
        ),
{
}

/// A line is a data line exactly where it starts with `data:`.
pub proof fn law_data_lines_start_with_data(line: Seq<u8>)
    ensures
        data_payload(line) is Some <==> {
            &&& line.len() >= 5
            &&& line[0] == 0x64
            &&& line[1] == 0x61
            &&& line[2] == 0x74
            &&& line[3] == 0x61
            &&& line[4] == 0x3a
        },
{
}

/// The payload of a data line stands between `data:`, with a space or without, and the end of the
/// line, a carriage return, a line feed, both or none.
pub proof fn law_payload_of_a_data_line(
    payload: Seq<u8>,
    spaced: bool,
    returned: bool,
    terminated: bool,
)
    requires
        spaced || payload.len() == 0 || payload[0] != 0x20,
        returned || payload.len() == 0 || payload.last() != 0x0d,
        returned || terminated || payload.len() == 0 || payload.last() != 0x0a,
    ensures
        data_payload(
            seq![0x64u8, 0x61u8, 0x74u8, 0x61u8, 0x3au8] + (if spaced {
                seq![0x20u8]
            } else {
                Seq::empty()
            }) + payload + (if returned {
                seq![0x0du8]
            } else {
                Seq::empty()
            }) + (if terminated {
                seq![0x0au8]
            } else {
                Seq::empty()
            }),
        ) == Some(payload),
{
}

/// A data line whose payload is the text of a chunk that takes the count is forwarded as `data: `, the
/// text of that chunk with the count in it, and a line feed where the line has one. That holds of
/// every such line, however long it is and however it is spaced and ended.
pub proof fn law_a_usage_chunk_is_rewritten(
    payload: Seq<u8>,
    spaced: bool,
    returned: bool,
    terminated: bool,
    chunk: Json,
    counted: Json,
    cached_tokens: u64,
)
    requires
        spaced || payload.len() == 0 || payload[0] != 0x20,
        returned || payload.len() == 0 || payload.last() != 0x0d,
        returned || terminated || payload.len() == 0 || payload.last() != 0x0a,
        parsed(payload) == Some(chunk),
        chunk_with_count(chunk, cached_tokens) == Some(counted),
    ensures
        forwarded_line(
            seq![0x64u8, 0x61u8, 0x74u8, 0x61u8, 0x3au8] + (if spaced {
                seq![0x20u8]
            } else {
                Seq::empty()
            }) + payload + (if returned {
                seq![0x0du8]
            } else {
                Seq::empty()
            }) + (if terminated {
                seq![0x0au8]
            } else {
                Seq::empty()
            }),
            Some(cached_tokens),
        ) == seq![0x64u8, 0x61u8, 0x74u8, 0x61u8, 0x3au8, 0x20u8] + encoded(counted) + (
        if terminated {
            seq![0x0au8]
        } else {
            Seq::empty()
        }),
{
    law_payload_of_a_data_line(payload, spaced, returned, terminated);
    let line = seq![0x64u8, 0x61u8, 0x74u8, 0x61u8, 0x3au8] + (if spaced {
        seq![0x20u8]
    } else {
        Seq::empty()
    }) + payload + (if returned {
        seq![0x0du8]
    } else {
        Seq::empty()
    }) + (if terminated {
        seq![0x0au8]
    } else {
        Seq::empty()
    });
    assert(line.len() > 0);
    assert((line.last() == 0x0a) == terminated);
    assert(forwarded_line(line, Some(cached_tokens)) =~= seq![
        0x64u8,
        0x61u8,
        0x74u8,
        0x61u8,
        0x3au8,
        0x20u8,
    ] + encoded(counted) + (if terminated {
        seq![0x0au8]
    } else {
        Seq::empty()
    }));
}

/// A data line is forwarded as it is where its payload is no JSON, and where the chunk that it holds
/// takes no count.
pub proof fn law_any_other_data_line_stays(
    payload: Seq<u8>,
    spaced: bool,
    returned: bool,
    terminated: bool,
    cached_tokens: u64,
)
    requires
        spaced || payload.len() == 0 || payload[0] != 0x20,
        returned || payload.len() == 0 || payload.last() != 0x0d,
        returned || terminated || payload.len() == 0 || payload.last() != 0x0a,
        parsed(payload) matches Some(chunk) ==> chunk_with_count(chunk, cached_tokens) is None,
    ensures
        ({
            let line = seq![0x64u8, 0x61u8, 0x74u8, 0x61u8, 0x3au8] + (if spaced {
                seq![0x20u8]
            } else {
                Seq::empty()
            }) + payload + (if returned {
                seq![0x0du8]
            } else {
                Seq::empty()
            }) + (if terminated {
                seq![0x0au8]
            } else {
                Seq::empty()
            });
            forwarded_line(line, Some(cached_tokens)) == line
        }),
{
    law_payload_of_a_data_line(payload, spaced, returned, terminated);
}

/// A line that does not start with `data:` is forwarded as it is, and without a count every line is.
pub proof fn law_any_other_line_stays(line: Seq<u8>, cached_tokens: Option<u64>)
    ensures
        !(line.len() >= 5 && line[0] == 0x64 && line[1] == 0x61 && line[2] == 0x74 && line[3] == 0x61
            && line[4] == 0x3a) ==> forwarded_line(line, cached_tokens) == line,
        forwarded_line(line, None) == line,
{
    law_data_lines_start_with_data(line);
}

/// Given the chunk that a line carries, the line becomes the data line for the text of that chunk with
/// the count in it, ended as the line was. Where the chunk takes no count, the line stays.
pub proof fn law_a_parsed_chunk_is_rewritten(line: Seq<u8>, chunk: Json, cached_tokens: u64)
    ensures
        chunk_with_count(chunk, cached_tokens) matches Some(counted) ==> rewritten_line(
            line,
            Some(chunk),
            cached_tokens,
        ) == seq![0x64u8, 0x61u8, 0x74u8, 0x61u8, 0x3au8, 0x20u8] + encoded(counted) + (if line.len()
            > 0 && line.last() == 0x0a {
            seq![0x0au8]
        } else {
            Seq::empty()
        }),
        chunk_with_count(chunk, cached_tokens) is None ==> rewritten_line(
            line,
            Some(chunk),
            cached_tokens,
        ) == line,
{
    if let Some(counted) = chunk_with_count(chunk, cached_tokens) {
        assert(rewritten_line(line, Some(chunk), cached_tokens) =~= seq![
            0x64u8,
            0x61u8,
            0x74u8,
            0x61u8,
            0x3au8,
            0x20u8,
        ] + encoded(counted) + (if line.len() > 0 && line.last() == 0x0a {
            seq![0x0au8]
        } else {
            Seq::empty()
        }));
    }
}

/// The data line for a payload is `data: `, the payload, and a line feed where one is asked for.
pub proof fn law_bytes_of_a_data_line(payload: Seq<u8>)
    ensures
        data_line(payload, false) == seq![0x64u8, 0x61u8, 0x74u8, 0x61u8, 0x3au8, 0x20u8] + payload,
        data_line(payload, true) == data_line(payload, false).push(0x0au8),
{
}

/// A stream is forwarded line by line: a line that ends in the first line feed of the stream is
/// forwarded as it is on its own, and then what follows it is, as a stream of its own.
pub proof fn law_a_stream_is_forwarded_line_by_line(
    line: Seq<u8>,
    rest: Seq<u8>,
    cached_tokens: Option<u64>,
)
    requires
        line.len() > 0,
        line.last() == 0x0a,
        forall|i: int| 0 <= i < line.len() - 1 ==> #[trigger] line[i] != 0x0a,
    ensures
        complete_lines(line + rest) == seq![line] + complete_lines(rest),
        unfinished_line(line + rest) == unfinished_line(rest),
        forwarded(line + rest, cached_tokens) == forwarded_line(line, cached_tokens) + forwarded(
            rest,
            cached_tokens,
        ),
        stream_output(line + rest, cached_tokens) == forwarded_line(line, cached_tokens)
            + stream_output(rest, cached_tokens),
        lines_are_parseable(line + rest, cached_tokens) <==> is_parseable(line, cached_tokens)
            && lines_are_parseable(rest, cached_tokens),
{
    let stream = line + rest;
    let last = line.len() - 1;
    assert forall|i: int| 0 <= i < last implies #[trigger] stream[i] != 0x0a by {
        assert(stream[i] == line[i]);
    }
    lemma_first_line_feed(stream, last);
    assert(stream.take(last + 1) =~= line);
    assert(stream.skip(last + 1) =~= rest);
    let lines = complete_lines(rest);
    let first = forwarded_line(line, cached_tokens);
    assert(forwarded_lines(seq![line] + lines, cached_tokens) =~= seq![first] + forwarded_lines(
        lines,
        cached_tokens,
    ));
    lemma_flatten_add(seq![first], forwarded_lines(lines, cached_tokens));
    lemma_flatten_one(first);
    assert(stream_output(stream, cached_tokens) =~= first + stream_output(rest, cached_tokens));
    if lines_are_parseable(stream, cached_tokens) {
        assert((seq![line] + lines)[0] == line);
        assert forall|i: int| 0 <= i < lines.len() implies is_parseable(
            #[trigger] lines[i],
            cached_tokens,
        ) by {
            assert((seq![line] + lines)[i + 1] == lines[i]);
        }
    }
}

/// Bytes without a line feed wait for the rest of their line: nothing is forwarded for them and all of
/// them are held back. At the end of the stream they are forwarded as a line, where there are any.
pub proof fn law_an_unfinished_line_waits(stream: Seq<u8>, cached_tokens: Option<u64>)
    requires
        forall|i: int| 0 <= i < stream.len() ==> #[trigger] stream[i] != 0x0a,
    ensures
        complete_lines(stream) == Seq::<Seq<u8>>::empty(),
        unfinished_line(stream) == stream,
        forwarded(stream, cached_tokens) == Seq::<u8>::empty(),
        stream.len() > 0 ==> stream_output(stream, cached_tokens) == forwarded_line(
            stream,
            cached_tokens,
        ),
        stream.len() == 0 ==> stream_output(stream, cached_tokens) == stream,
        lines_are_parseable(stream, cached_tokens),
{
    stream.index_of_first_ensures(0x0au8);
    assert(forwarded_lines(complete_lines(stream), cached_tokens) =~= Seq::empty());
    assert(stream_output(stream, cached_tokens) =~= flushed(stream, cached_tokens));
}

/// What is flushed at the end is what a line of those bytes is forwarded as, and nothing where there
/// are none.
pub proof fn law_what_is_left_is_flushed_as_a_line(pending: Seq<u8>, cached_tokens: Option<u64>)
    ensures
        pending.len() > 0 ==> flushed(pending, cached_tokens) == forwarded_line(
            pending,
            cached_tokens,
        ),
        pending.len() == 0 ==> flushed(pending, cached_tokens) == pending,
{
    assert(pending.len() == 0 ==> flushed(pending, cached_tokens) =~= pending);
}

/// Each line of a stream is forwarded at its own place.
pub proof fn law_each_line_keeps_its_place(
    lines: Seq<Seq<u8>>,
    cached_tokens: Option<u64>,
    i: int,
)
    requires
        0 <= i < lines.len(),
    ensures
        forwarded_lines(lines, cached_tokens).len() == lines.len(),
        forwarded_lines(lines, cached_tokens)[i] == forwarded_line(lines[i], cached_tokens),
{
}

/// A line is refused only for its digits: where there is a count and the line starts with `data:`,
/// and then for those of its payload alone.
pub proof fn law_a_line_is_refused_for_its_digits_alone(
    payload: Seq<u8>,
    spaced: bool,
    returned: bool,
    terminated: bool,
    cached_tokens: u64,
)
    requires
        spaced || payload.len() == 0 || payload[0] != 0x20,
        returned || payload.len() == 0 || payload.last() != 0x0d,
        returned || terminated || payload.len() == 0 || payload.last() != 0x0a,
    ensures
        is_parseable(
            seq![0x64u8, 0x61u8, 0x74u8, 0x61u8, 0x3au8] + (if spaced {
                seq![0x20u8]
            } else {
                Seq::empty()
            }) + payload + (if returned {
                seq![0x0du8]
            } else {
                Seq::empty()
            }) + (if terminated {
                seq![0x0au8]
            } else {
                Seq::empty()
            }),
            Some(cached_tokens),
        ) <==> digit_runs_fit(payload),
        forall|line: Seq<u8>| #[trigger] is_parseable(line, None),
        forall|line: Seq<u8>|
            !(line.len() >= 5 && line[0] == 0x64 && line[1] == 0x61 && line[2] == 0x74 && line[3]
                == 0x61 && line[4] == 0x3a) ==> #[trigger] is_parseable(line, Some(cached_tokens)),
{
    law_payload_of_a_data_line(payload, spaced, returned, terminated);
    assert forall|line: Seq<u8>|
        !(line.len() >= 5 && line[0] == 0x64 && line[1] == 0x61 && line[2] == 0x74 && line[3] == 0x61
            && line[4] == 0x3a) implies #[trigger] is_parseable(line, Some(cached_tokens)) by {
        law_data_lines_start_with_data(line);
    }
}

/// In a text that fits, no digits in a row are more than the parser counts.
pub proof fn law_long_digit_runs_do_not_fit(text: Seq<u8>, start: int, end: int)
    requires
        0 <= start <= end <= text.len(),
        forall|i: int| start <= i < end ==> 0x30 <= #[trigger] text[i] <= 0x39,
        end - start > 0x7fff_ffff,
    ensures
        !digit_runs_fit(text),
{
    assert(is_digit_run(text, start, end));
}

/// Any other text fits: one that does not has that many digits in a row.
pub proof fn law_any_other_text_fits(text: Seq<u8>)
    requires
        !digit_runs_fit(text),
    ensures
        exists|start: int, end: int|
            #![trigger text.subrange(start, end)]
            {
                &&& 0 <= start <= end <= text.len()
                &&& end - start > 0x7fff_ffff
                &&& forall|i: int|
                    0 <= i < end - start ==> 0x30 <= #[trigger] text.subrange(start, end)[i] <= 0x39
            },
{
    let (start, end) = choose|start: int, end: int|
        0 <= start <= end <= text.len() && #[trigger] is_digit_run(text, start, end) && end - start
            > MAX_DIGIT_RUN;
    let run = text.subrange(start, end);
    assert forall|i: int| 0 <= i < end - start implies 0x30 <= #[trigger] run[i] <= 0x39 by {
        assert(is_digit(text[start + i]));
    }
}

/// Where the count reaches the reader of a line, a usage chunk that the line carries is found again in
/// the line that is forwarded, with the count in its `usage`.
pub(crate) proof fn lemma_usage_chunk_reaches_the_reader(line: Seq<u8>, count: u64)
    requires
        delivers_count(line, Some(count)),
    ensures
        data_payload(line) matches Some(payload) ==> (parsed(payload) matches Some(document) ==> (
        document.member("usage"@) matches Some(usage) ==> ({
            &&& usage.member("prompt_tokens_details"@) is Some || usage.member("input_tokens_details"@) is Some
                || usage.member("prompt_tokens"@) is Some || usage.member("input_tokens"@) is Some
            &&& !(document.member("choices"@) matches Some(Json::Array(choices)) && choices.len()
                > 0)
        } ==> (data_payload(forwarded_line(line, Some(count))) matches Some(text) && {
            &&& parsed(text) matches Some(found) ==> response_count(found) == Some(count)
            &&& document.without_floats() ==> parsed(text) is Some
        })))),
{
    if let Some(payload) = data_payload(line) {
        if let Some(document) = parsed(payload) {
            law_a_chunk_is_skipped_for_its_choices_alone(document, count);
            if let (Some(usage), Some(counted)) = (
                document.member("usage"@),
                chunk_with_count(document, count),
            ) {
                law_usage_of_either_format_takes_the_count(usage, count);
                if usage_with_count(usage, count) is Some {
                    law_own_usage_takes_the_count(document, usage, count, "usage"@);
                    if let Some(found) = parsed(encoded(counted)) {
                        law_floats_do_not_matter(counted, found);
                    }
                    if document.without_floats() {
                        law_injection_adds_no_floats(document, count);
                    }
                }
            }
        }
    }
}

/// A relay takes every chunk that leaves no long run of digits behind, every error, the end of the
/// stream after such bytes, and once it has finished whatever comes.
pub proof fn law_a_relay_refuses_nothing_but_digits<E>(
    relay: CachedTokensRelay,
    chunk: Bytes,
    error: E,
    next: Option<Result<Bytes, E>>,
)
    ensures
        digit_runs_fit(relay.pending() + content(chunk)) ==> relay.takes(Some(Ok::<Bytes, E>(chunk))),
        relay.takes(Some(Err::<Bytes, E>(error))),
        digit_runs_fit(relay.pending()) ==> relay.takes(None::<Result<Bytes, E>>),
        relay.finished() ==> relay.takes(next),
{
    if digit_runs_fit(relay.pending() + content(chunk)) {
        law_streams_with_fitting_digit_runs_are_taken(
            relay.pending() + content(chunk),
            relay.cached_tokens(),
        );
    }
    if digit_runs_fit(relay.pending()) {
        lemma_fitting_line_is_parseable(relay.pending(), relay.cached_tokens());
    }
}

/// A usage chunk reaches the client wherever it stands in a stream and however long its line is: the
/// lines before it are forwarded as if they stood alone, then comes the data line for the chunk with
/// the count in its `usage`, then what is forwarded for the lines after it.
pub proof fn law_a_usage_chunk_in_a_stream_is_rewritten(
    before: Seq<u8>,
    payload: Seq<u8>,
    spaced: bool,
    returned: bool,
    after: Seq<u8>,
    chunk: Json,
    usage: Json,
    cached_tokens: u64,
)
    requires
        before.len() == 0 || before.last() == 0x0a,
        forall|i: int| 0 <= i < payload.len() ==> #[trigger] payload[i] != 0x0a,
        spaced || payload.len() == 0 || payload[0] != 0x20,
        returned || payload.len() == 0 || payload.last() != 0x0d,
        parsed(payload) == Some(chunk),
        !(chunk.member("choices"@) matches Some(Json::Array(choices)) && choices.len() > 0),
        chunk.member("usage"@) == Some(usage),
        usage.member("prompt_tokens_details"@) is Some || usage.member("input_tokens_details"@) is Some
            || usage.member("prompt_tokens"@) is Some || usage.member("input_tokens"@) is Some,
    ensures
        ({
            let line = seq![0x64u8, 0x61u8, 0x74u8, 0x61u8, 0x3au8] + (if spaced {
                seq![0x20u8]
            } else {
                Seq::empty()
            }) + payload + (if returned {
                seq![0x0du8]
            } else {
                Seq::empty()
            }) + seq![0x0au8];
            chunk_with_count(chunk, cached_tokens) matches Some(counted) && {
                &&& response_count(counted) == Some(cached_tokens)
                &&& forwarded(before + (line + after), Some(cached_tokens)) == forwarded(
                    before,
                    Some(cached_tokens),
                ) + ((seq![0x64u8, 0x61u8, 0x74u8, 0x61u8, 0x3au8, 0x20u8] + encoded(counted) + seq![
                    0x0au8,
                ]) + forwarded(after, Some(cached_tokens)))
            }
        }),
{
    let start = seq![0x64u8, 0x61u8, 0x74u8, 0x61u8, 0x3au8] + (if spaced {
        seq![0x20u8]
    } else {
        Seq::empty()
    });
    let end = if returned {
        seq![0x0du8]
    } else {
        Seq::empty()
    };
    let line = start + payload + end + seq![0x0au8];
    let count = Some(cached_tokens);
    law_a_chunk_is_skipped_for_its_choices_alone(chunk, cached_tokens);
    law_own_usage_takes_the_count(chunk, usage, cached_tokens, "usage"@);
    let counted = chunk_with_count(chunk, cached_tokens)->0;
    law_a_usage_chunk_is_rewritten(
        payload,
        spaced,
        returned,
        true,
        chunk,
        counted,
        cached_tokens,
    );
    assert forall|i: int| 0 <= i < line.len() - 1 implies #[trigger] line[i] != 0x0a by {
        if start.len() <= i < start.len() + payload.len() {
            assert(line[i] == payload[i - start.len()]);
        }
    }
    law_a_stream_is_forwarded_line_by_line(line, after, count);
    let none = Seq::<u8>::empty();
    law_two_chunks_are_worth_one(none, before, line + after, count);
    assert(none + before =~= before);
    assert(none + (before + (line + after)) =~= before + (line + after));
    law_lines_make_up_the_stream(before);
    let held = unfinished_line(before);
    if held.len() > 0 {
        assert(held.last() == before.last());
        assert(held.contains(held.last()));
    }
    assert(held + (line + after) =~= line + after);
}

} // verus!
