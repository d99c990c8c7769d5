//! Reading the cached token count of a prefill response and writing it into a decode response.
//!
//! The contracts speak of the documents that the `serde_json::Value`s hold. For each shape of
//! document there is a spec function that gives the document with the count written into it, or
//! `None` where it has no place for one.

use crate::json::{lemma_member_same_but_floats, lemma_with_own_member, Json};
use crate::outside::{
    json, parsed, value_as_array, value_as_u64, value_empty_object, value_from_u64, value_get,
    value_get_mut, value_is_object, value_set,
};
use serde_json::Value;
use vstd::prelude::*;

verus! {

/// The count that `cached_tokens` in the details object `key` of `usage` states.
pub open spec fn stated_count(usage: Json, key: Seq<char>) -> Option<u64> {
    match usage.member(key) {
        Some(details) => match details.member("cached_tokens"@) {
            Some(count) => count.as_count(),
            None => None,
        },
        None => None,
    }
}

/// The count that a usage object reports: that of the Chat/Completions details where they state
/// one, else that of the Responses API details.
pub open spec fn reported_count(usage: Json) -> Option<u64> {
    match stated_count(usage, "prompt_tokens_details"@) {
        Some(count) => Some(count),
        None => stated_count(usage, "input_tokens_details"@),
    }
}

/// The count that the top-level `usage` of a response reports.
pub open spec fn response_count(response: Json) -> Option<u64> {
    match response.member("usage"@) {
        Some(usage) => reported_count(usage),
        None => None,
    }
}

/// The name of the details object that takes the count: the one that is there, else the one that
/// goes with the API format that the token total of `usage` shows. `None` where `usage` is of
/// neither format, or no object.
pub open spec fn details_key(usage: Json) -> Option<Seq<char>> {
    if usage.member("prompt_tokens_details"@) is Some {
        Some("prompt_tokens_details"@)
    } else if usage.member("input_tokens_details"@) is Some {
        Some("input_tokens_details"@)
    } else if usage.member("prompt_tokens"@) is Some {
        Some("prompt_tokens_details"@)
    } else if usage.member("input_tokens"@) is Some {
        Some("input_tokens_details"@)
    } else {
        None
    }
}

/// The details object with the count in it: an object keeps its other members, anything else is
/// replaced.
pub open spec fn details_with_count(details: Option<Json>, cached_tokens: u64) -> Json {
    let kept = match details {
        Some(Json::Object(members)) => members,
        _ => Map::empty(),
    };
    Json::Object(kept.insert("cached_tokens"@, Json::Integer(cached_tokens as int)))
}

/// A usage object with the count written into its details.
pub open spec fn usage_with_count(usage: Json, cached_tokens: u64) -> Option<Json> {
    match details_key(usage) {
        Some(key) => Some(
            usage.with_member(key, details_with_count(usage.member(key), cached_tokens)),
        ),
        None => None,
    }
}

/// A document with the count written into its member `usage`.
pub open spec fn top_level_with_count(document: Json, cached_tokens: u64) -> Option<Json> {
    match document.member("usage"@) {
        Some(usage) => match usage_with_count(usage, cached_tokens) {
            Some(counted) => Some(document.with_member("usage"@, counted)),
            None => None,
        },
        None => None,
    }
}

/// A document with the count written into the `usage` of its member `response`.
pub open spec fn nested_with_count(document: Json, cached_tokens: u64) -> Option<Json> {
    match document.member("response"@) {
        Some(response) => match top_level_with_count(response, cached_tokens) {
            Some(counted) => Some(document.with_member("response"@, counted)),
            None => None,
        },
        None => None,
    }
}

/// A decode response with the count written into it: into its own `usage` where that takes it, else
/// into the one nested under `response`.
pub open spec fn response_with_count(response: Json, cached_tokens: u64) -> Option<Json> {
    match top_level_with_count(response, cached_tokens) {
        Some(counted) => Some(counted),
        None => nested_with_count(response, cached_tokens),
    }
}

/// Whether a streaming chunk carries content: a `choices` array that is not empty.
pub open spec fn is_content_chunk(chunk: Json) -> bool {
    chunk.member("choices"@) matches Some(Json::Array(choices)) && choices.len() > 0
}

/// A streaming chunk with the count written into it. Content chunks take none.
pub open spec fn chunk_with_count(chunk: Json, cached_tokens: u64) -> Option<Json> {
    if is_content_chunk(chunk) {
        None
    } else {
        response_with_count(chunk, cached_tokens)
    }
}

/// Whether `document` reports `cached_tokens` where a client looks for it: in its own `usage`, or in
/// that of its member `response`.
pub open spec fn reports(document: Json, cached_tokens: u64) -> bool {
    ||| response_count(document) == Some(cached_tokens)
    ||| (document.member("response"@) matches Some(response) && response_count(response) == Some(
        cached_tokens,
    ))
}

/// What a reader of `text` finds, where it was written for `document`: a document that reports the
/// count, the same but for floats; and the very same where there are none.
pub open spec fn reads_back(text: Seq<u8>, document: Json, cached_tokens: u64) -> bool {
    &&& parsed(text) matches Some(found) ==> document.same_but_floats(found) && reports(
        found,
        cached_tokens,
    )
    &&& document.without_floats() ==> parsed(text) == Some(document) && reports(
        document,
        cached_tokens,
    )
}

/// The count that the details object `key` of `usage` states.
fn read_stated_count(usage: &Value, key: &str) -> (count: Option<u64>)
    ensures
        count == stated_count(json(*usage), key@),
{
    match value_get(usage, key) {
        Some(details) => match value_get(details, "cached_tokens") {
            Some(count) => value_as_u64(count),
            None => None,
        },
        None => None,
    }
}

/// Extract the prefiller's cached token count from a prefill response.
///
/// Supports both the OpenAI Chat/Completions format (`usage.prompt_tokens_details.cached_tokens`)
/// and the Responses API format (`usage.input_tokens_details.cached_tokens`). Returns `None` when
/// the prefiller did not report cached tokens.
pub fn extract_prefill_cached_tokens(prefill_json: &Value) -> (count: Option<u64>)
    ensures
        count == response_count(json(*prefill_json)),
        count matches Some(n) ==> (json(*prefill_json).member("usage"@) matches Some(usage) && {
            ||| (usage.member("prompt_tokens_details"@) matches Some(details) && details.member(
                "cached_tokens"@,
            ) == Some(Json::Integer(n as int)))
            ||| (usage.member("input_tokens_details"@) matches Some(details) && details.member(
                "cached_tokens"@,
            ) == Some(Json::Integer(n as int)))
        }),
        json(*prefill_json).member("usage"@) matches Some(usage) ==> (usage.member(
            "prompt_tokens_details"@,
        ) matches Some(details) ==> (details.member("cached_tokens"@) matches Some(Json::Integer(n))
            ==> (0 <= n <= u64::MAX ==> count == Some(n as u64)))),
{
    let usage = match value_get(prefill_json, "usage") {
        Some(usage) => usage,
        None => return None,
    };
    match read_stated_count(usage, "prompt_tokens_details") {
        Some(cached) => Some(cached),
        None => read_stated_count(usage, "input_tokens_details"),
    }
}

/// A new details object that holds the count and nothing else.
fn details_object(cached_tokens: u64) -> (details: Value)
    ensures
        json(details) == details_with_count(None, cached_tokens),
{
    let mut details = value_empty_object();
    value_set(&mut details, "cached_tokens", value_from_u64(cached_tokens));
    details
}

/// Write the count into the details object `key` of `usage`, if there is a member of that name.
/// Returns whether there is one.
fn write_into_details(usage: &mut Value, key: &str, cached_tokens: u64) -> (written: bool)
    ensures
        match json(*old(usage)).member(key@) {
            Some(details) => written && json(*final(usage)) == json(*old(usage)).with_member(
                key@,
                details_with_count(Some(details), cached_tokens),
            ),
            None => !written && json(*final(usage)) == json(*old(usage)),
        },
{
    match value_get_mut(usage, key) {
        Some(details) => {
            if value_is_object(details) {
                value_set(details, "cached_tokens", value_from_u64(cached_tokens));
            } else {
                *details = details_object(cached_tokens);
            }
            true
        },
        None => false,
    }
}

/// Inject the prefiller's cached token count into a usage object, creating or replacing the details
/// object as needed. Matches the details field name to the API format of the usage block. Returns
/// whether an injection happened; where none did, `usage` is as it was.
pub fn inject_into_usage(usage: &mut Value, cached_tokens: u64) -> (injected: bool)
    ensures
        match usage_with_count(json(*old(usage)), cached_tokens) {
            Some(counted) => injected && json(*final(usage)) == counted,
            None => !injected && json(*final(usage)) == json(*old(usage)),
        },
        json(*old(usage)).member("prompt_tokens_details"@) is Some ==> {
            &&& injected
            &&& json(*final(usage)).member("prompt_tokens_details"@) matches Some(details)
                && details.member("cached_tokens"@) == Some(Json::Integer(cached_tokens as int))
            &&& json(*final(usage)).member("input_tokens_details"@) == json(*old(usage)).member(
                "input_tokens_details"@,
            )
        },
        forall|name: Seq<char>|
            name != "prompt_tokens_details"@ && name != "input_tokens_details"@ ==> #[trigger] json(
                *final(usage),
            ).member(name) == json(*old(usage)).member(name),
{
    proof {
        lemma_details_names_differ();
    }
    if !value_is_object(usage) {
        return false;
    }
    if write_into_details(usage, "prompt_tokens_details", cached_tokens) {
        return true;
    }
    if write_into_details(usage, "input_tokens_details", cached_tokens) {
        return true;
    }
    if value_get(usage, "prompt_tokens").is_some() {
        value_set(usage, "prompt_tokens_details", details_object(cached_tokens));
        true
    } else if value_get(usage, "input_tokens").is_some() {
        value_set(usage, "input_tokens_details", details_object(cached_tokens));
        true
    } else {
        false
    }
}

/// Inject into the `usage` of `document`, if it has one.
fn inject_at_top_level(document: &mut Value, cached_tokens: u64) -> (injected: bool)
    ensures
        match top_level_with_count(json(*old(document)), cached_tokens) {
            Some(counted) => injected && json(*final(document)) == counted,
            None => !injected && json(*final(document)) == json(*old(document)),
        },
{
    proof {
        lemma_with_own_member(json(*document), "usage"@);
    }
    match value_get_mut(document, "usage") {
        Some(usage) => inject_into_usage(usage, cached_tokens),
        None => false,
    }
}

/// Inject the prefiller's cached token count into a full decode response.
///
/// Handles the top-level `usage` of Chat/Completions and Responses API responses, as well as the
/// usage nested under `response` in Responses API streaming `response.completed` events. Returns
/// whether an injection happened; where none did, the response is as it was.
pub fn inject_cached_tokens_in_json(decode_json: &mut Value, cached_tokens: u64) -> (injected: bool)
    ensures
        match response_with_count(json(*old(decode_json)), cached_tokens) {
            Some(counted) => injected && json(*final(decode_json)) == counted,
            None => !injected && json(*final(decode_json)) == json(*old(decode_json)),
        },
        json(*old(decode_json)).member("usage"@) matches Some(usage) ==> ((usage.member("prompt_tokens_details"@) is Some || usage.member("input_tokens_details"@) is Some
            || usage.member("prompt_tokens"@) is Some || usage.member("input_tokens"@) is Some) ==> {
            &&& injected
            &&& response_count(json(*final(decode_json))) == Some(cached_tokens)
            &&& json(*final(decode_json)).member("response"@) == json(*old(decode_json)).member(
                "response"@,
            )
        }),
        forall|name: Seq<char>|
            name != "usage"@ && name != "response"@ ==> #[trigger] json(*final(decode_json)).member(
                name,
            ) == json(*old(decode_json)).member(name),
{
    proof {
        lemma_member_names_differ();
        law_response_reports_the_injected_count(json(*decode_json), cached_tokens);
        lemma_with_own_member(json(*decode_json), "response"@);
    }
    if inject_at_top_level(decode_json, cached_tokens) {
        return true;
    }
    match value_get_mut(decode_json, "response") {
        Some(response) => inject_at_top_level(response, cached_tokens),
        None => false,
    }
}

/// Inject into a single streaming chunk. Content chunks (non-empty `choices`) are skipped; the final
/// usage chunk (empty or absent `choices`) is injected.
pub fn inject_cached_tokens_in_chunk(chunk_json: &mut Value, cached_tokens: u64) -> (injected: bool)
    ensures
        match chunk_with_count(json(*old(chunk_json)), cached_tokens) {
            Some(counted) => injected && json(*final(chunk_json)) == counted,
            None => !injected && json(*final(chunk_json)) == json(*old(chunk_json)),
        },
        json(*old(chunk_json)).member("choices"@) matches Some(Json::Array(choices)) ==> (
        choices.len() > 0 ==> !injected),
        forall|name: Seq<char>|
            name != "usage"@ && name != "response"@ ==> #[trigger] json(*final(chunk_json)).member(
                name,
            ) == json(*old(chunk_json)).member(name),
{
    if let Some(choices) = value_get(chunk_json, "choices") {
        if let Some(items) = value_as_array(choices) {
            if !items.is_empty() {
                return false;
            }
        }
    }
    inject_cached_tokens_in_json(chunk_json, cached_tokens)
}

/// The names of the two details objects are different.
proof fn lemma_details_names_differ()
    ensures
        "prompt_tokens_details"@ != "input_tokens_details"@,
{
    reveal_strlit("prompt_tokens_details");
    reveal_strlit("input_tokens_details");
    assert("prompt_tokens_details"@.len() != "input_tokens_details"@.len());
}

/// What was written is what is read: a usage object that took a count reports that count.
pub proof fn law_usage_reports_the_injected_count(usage: Json, cached_tokens: u64)
    ensures
        usage_with_count(usage, cached_tokens) matches Some(counted) ==> reported_count(counted)
            == Some(cached_tokens),
{
    lemma_details_names_differ();
}

/// Extracting from a response that took a count in its own `usage` gives that count; where the count
/// went into the nested response, extracting from that one does. Either way the document reports it.
pub proof fn law_response_reports_the_injected_count(response: Json, cached_tokens: u64)
    ensures
        top_level_with_count(response, cached_tokens) matches Some(counted) ==> response_count(
            counted,
        ) == Some(cached_tokens),
        nested_with_count(response, cached_tokens) matches Some(counted) ==> (counted.member(
            "response"@,
        ) matches Some(nested) && response_count(nested) == Some(cached_tokens)),
        response_with_count(response, cached_tokens) matches Some(counted) ==> reports(
            counted,
            cached_tokens,
        ),
        chunk_with_count(response, cached_tokens) matches Some(counted) ==> reports(
            counted,
            cached_tokens,
        ),
{
    if let Some(usage) = response.member("usage"@) {
        law_usage_reports_the_injected_count(usage, cached_tokens);
    }
    if let Some(nested) = response.member("response"@) {
        if let Some(usage) = nested.member("usage"@) {
            law_usage_reports_the_injected_count(usage, cached_tokens);
        }
    }
}

/// Writing a count over another gives what writing the last one alone gives.
pub proof fn law_usage_keeps_the_last_count(usage: Json, first: u64, last: u64)
    ensures
        usage_with_count(usage, first) matches Some(counted) ==> usage_with_count(counted, last)
            == usage_with_count(usage, last),
{
    lemma_details_names_differ();
    if let Some(key) = details_key(usage) {
        let once = usage_with_count(usage, first)->0;
        assert(details_key(once) == Some(key));
        let kept = match usage.member(key) {
            Some(Json::Object(members)) => members,
            _ => Map::empty(),
        };
        assert(kept.insert("cached_tokens"@, Json::Integer(first as int)).insert(
            "cached_tokens"@,
            Json::Integer(last as int),
        ) =~= kept.insert("cached_tokens"@, Json::Integer(last as int)));
        assert(details_with_count(once.member(key), last) == details_with_count(
            usage.member(key),
            last,
        ));
        let members = usage->Object_0;
        assert(members.insert(key, once.member(key)->0).insert(
            key,
            details_with_count(usage.member(key), last),
        ) =~= members.insert(key, details_with_count(usage.member(key), last)));
    }
}

/// The member names that a response is read by are different.
proof fn lemma_member_names_differ()
    ensures
        "usage"@ != "response"@,
        "usage"@ != "choices"@,
        "response"@ != "choices"@,
{
    reveal_strlit("usage");
    reveal_strlit("response");
    reveal_strlit("choices");
    assert("usage"@.len() == 5 && "response"@.len() == 8 && "choices"@.len() == 7);
}

/// In whole documents, in nested responses and in streaming chunks too, writing a count over another
/// gives what writing the last one alone gives.
pub proof fn law_response_keeps_the_last_count(response: Json, first: u64, last: u64)
    ensures
        top_level_with_count(response, first) matches Some(counted) ==> top_level_with_count(
            counted,
            last,
        ) == top_level_with_count(response, last),
        response_with_count(response, first) matches Some(counted) ==> response_with_count(
            counted,
            last,
        ) == response_with_count(response, last),
        chunk_with_count(response, first) matches Some(counted) ==> chunk_with_count(counted, last)
            == chunk_with_count(response, last),
{
    lemma_member_names_differ();
    lemma_top_level_keeps_the_last_count(response, first, last);
    if top_level_with_count(response, first) is None {
        if let Some(nested) = response.member("response"@) {
            lemma_top_level_keeps_the_last_count(nested, first, last);
            if let Some(counted) = top_level_with_count(nested, first) {
                let again = top_level_with_count(nested, last)->0;
                assert(response->Object_0.insert("response"@, counted).insert("response"@, again)
                    =~= response->Object_0.insert("response"@, again));
            }
        }
    }
}

proof fn lemma_top_level_keeps_the_last_count(document: Json, first: u64, last: u64)
    ensures
        top_level_with_count(document, first) matches Some(counted) ==> top_level_with_count(
            counted,
            last,
        ) == top_level_with_count(document, last),
{
    if let Some(usage) = document.member("usage"@) {
        law_usage_keeps_the_last_count(usage, first, last);
        if let Some(counted) = usage_with_count(usage, first) {
            let again = usage_with_count(usage, last)->0;
            assert(document->Object_0.insert("usage"@, counted).insert("usage"@, again)
                =~= document->Object_0.insert("usage"@, again));
        }
    }
}

/// An injection into a usage object touches nothing but the count: every member but the details
/// object stays, and so does every member of the details object but `cached_tokens`.
pub proof fn law_usage_keeps_its_other_members(usage: Json, cached_tokens: u64, key: Seq<char>)
    ensures
        usage_with_count(usage, cached_tokens) matches Some(counted) ==> {
            let details = details_key(usage)->0;
            &&& key != details ==> counted.member(key) == usage.member(key)
            &&& key != "cached_tokens"@ ==> counted.member(details)->0.member(key) == (
            match usage.member(details) {
                Some(old_details) => old_details.member(key),
                None => None,
            })
        },
{
}

/// An injection into a response touches nothing but the usage object that takes the count: every
/// other member stays, and so does every other member of a nested response.
pub proof fn law_response_keeps_its_other_members(
    response: Json,
    cached_tokens: u64,
    key: Seq<char>,
)
    ensures
        top_level_with_count(response, cached_tokens) matches Some(counted) ==> (key != "usage"@
            ==> counted.member(key) == response.member(key)),
        nested_with_count(response, cached_tokens) matches Some(counted) ==> {
            &&& key != "response"@ ==> counted.member(key) == response.member(key)
            &&& key != "usage"@ ==> counted.member("response"@)->0.member(key) == response.member(
                "response"@,
            )->0.member(key)
        },
{
}

/// Whether a document takes a count does not depend on the count.
pub proof fn law_acceptance_is_independent_of_the_count(document: Json, one: u64, other: u64)
    ensures
        usage_with_count(document, one) is Some <==> usage_with_count(document, other) is Some,
        response_with_count(document, one) is Some <==> response_with_count(document, other) is Some,
        chunk_with_count(document, one) is Some <==> chunk_with_count(document, other) is Some,
{
}

/// A content chunk takes no count; a chunk whose `choices` are empty or absent takes it as a whole
/// response does.
pub proof fn law_only_content_chunks_are_skipped(chunk: Json, cached_tokens: u64)
    ensures
        is_content_chunk(chunk) ==> chunk_with_count(chunk, cached_tokens) is None,
        chunk.member("choices"@) is None ==> chunk_with_count(chunk, cached_tokens)
            == response_with_count(chunk, cached_tokens),
        chunk.member("choices"@) == Some(Json::Array(Seq::empty())) ==> chunk_with_count(
            chunk,
            cached_tokens,
        ) == response_with_count(chunk, cached_tokens),
{
}

/// A document that differs from another only in floats reports the same counts.
pub proof fn law_floats_do_not_matter(a: Json, b: Json)
    requires
        a.same_but_floats(b),
    ensures
        reported_count(a) == reported_count(b),
        response_count(a) == response_count(b),
        forall|cached_tokens: u64| reports(a, cached_tokens) == reports(b, cached_tokens),
{
    lemma_reported_count_same_but_floats(a, b);
    lemma_response_count_same_but_floats(a, b);
    lemma_member_same_but_floats(a, b, "response"@);
    if let (Some(x), Some(y)) = (a.member("response"@), b.member("response"@)) {
        lemma_response_count_same_but_floats(x, y);
    }
}

proof fn lemma_response_count_same_but_floats(a: Json, b: Json)
    requires
        a.same_but_floats(b),
    ensures
        response_count(a) == response_count(b),
{
    lemma_member_same_but_floats(a, b, "usage"@);
    if let (Some(x), Some(y)) = (a.member("usage"@), b.member("usage"@)) {
        lemma_reported_count_same_but_floats(x, y);
    }
}

proof fn lemma_reported_count_same_but_floats(a: Json, b: Json)
    requires
        a.same_but_floats(b),
    ensures
        reported_count(a) == reported_count(b),
{
    lemma_stated_count_same_but_floats(a, b, "prompt_tokens_details"@);
    lemma_stated_count_same_but_floats(a, b, "input_tokens_details"@);
}

proof fn lemma_stated_count_same_but_floats(a: Json, b: Json, key: Seq<char>)
    requires
        a.same_but_floats(b),
    ensures
        stated_count(a, key) == stated_count(b, key),
{
    lemma_member_same_but_floats(a, b, key);
    if let (Some(x), Some(y)) = (a.member(key), b.member(key)) {
        lemma_member_same_but_floats(x, y, "cached_tokens"@);
    }
}

/// Setting a member nests no deeper than the object and the new value do.
proof fn lemma_with_member_nests_within(document: Json, key: Seq<char>, value: Json, levels: nat)
    requires
        document.nests_within(levels),
        document is Object,
        value.nests_within((levels - 1) as nat),
    ensures
        document.with_member(key, value).nests_within(levels),
{
    let members = document->Object_0;
    assert forall|other: Seq<char>| #[trigger]
        members.insert(key, value).dom().contains(other) implies members.insert(
        key,
        value,
    )[other].nests_within((levels - 1) as nat) by {
        if other != key {
            assert(members.dom().contains(other));
        }
    }
}

proof fn lemma_usage_with_count_nests_within(usage: Json, cached_tokens: u64, levels: nat)
    requires
        usage.nests_within(levels),
        levels >= 2,
    ensures
        usage_with_count(usage, cached_tokens) matches Some(counted) ==> counted.nests_within(
            levels,
        ),
{
    if let Some(key) = details_key(usage) {
        let inner = (levels - 1) as nat;
        let details = match usage.member(key) {
            Some(Json::Object(members)) => Json::Object(members),
            _ => Json::Object(Map::empty()),
        };
        let count = Json::Integer(cached_tokens as int);
        assert(details.nests_within(inner)) by {
            if let Some(Json::Object(members)) = usage.member(key) {
                assert(usage->Object_0.dom().contains(key));
            }
        }
        lemma_with_member_nests_within(details, "cached_tokens"@, count, inner);
        lemma_with_member_nests_within(
            usage,
            key,
            details_with_count(usage.member(key), cached_tokens),
            levels,
        );
    }
}

proof fn lemma_top_level_with_count_nests_within(document: Json, cached_tokens: u64, levels: nat)
    requires
        document.nests_within(levels),
        levels >= 3,
    ensures
        top_level_with_count(document, cached_tokens) matches Some(counted)
            ==> counted.nests_within(levels),
{
    if let Some(usage) = document.member("usage"@) {
        assert(document->Object_0.dom().contains("usage"@));
        lemma_usage_with_count_nests_within(usage, cached_tokens, (levels - 1) as nat);
        if let Some(counted) = usage_with_count(usage, cached_tokens) {
            lemma_with_member_nests_within(document, "usage"@, counted, levels);
        }
    }
}

/// An injection adds no nesting beyond the four levels that lead to the count of a nested response.
pub proof fn law_injection_nests_no_deeper(response: Json, cached_tokens: u64, levels: nat)
    requires
        response.nests_within(levels),
        levels >= 4,
    ensures
        response_with_count(response, cached_tokens) matches Some(counted)
            ==> counted.nests_within(levels),
        chunk_with_count(response, cached_tokens) matches Some(counted) ==> counted.nests_within(
            levels,
        ),
{
    lemma_top_level_with_count_nests_within(response, cached_tokens, levels);
    if let Some(nested) = response.member("response"@) {
        assert(response->Object_0.dom().contains("response"@));
        lemma_top_level_with_count_nests_within(nested, cached_tokens, (levels - 1) as nat);
        if let Some(counted) = top_level_with_count(nested, cached_tokens) {
            lemma_with_member_nests_within(response, "response"@, counted, levels);
        }
    }
}

/// Setting a member to a value without floats brings no float into an object.
proof fn lemma_with_member_without_floats(document: Json, key: Seq<char>, value: Json)
    requires
        document.without_floats(),
        document is Object,
        value.without_floats(),
    ensures
        document.with_member(key, value).without_floats(),
{
    let members = document->Object_0;
    assert forall|other: Seq<char>| #[trigger]
        members.insert(key, value).dom().contains(other) implies members.insert(
        key,
        value,
    )[other].without_floats() by {
        if other != key {
            assert(members.dom().contains(other));
        }
    }
}

proof fn lemma_top_level_without_floats(document: Json, cached_tokens: u64)
    requires
        document.without_floats(),
    ensures
        top_level_with_count(document, cached_tokens) matches Some(counted)
            ==> counted.without_floats(),
{
    if let Some(usage) = document.member("usage"@) {
        assert(document->Object_0.dom().contains("usage"@));
        assert(usage.without_floats());
        if let Some(key) = details_key(usage) {
            let details = match usage.member(key) {
                Some(Json::Object(members)) => Json::Object(members),
                _ => Json::Object(Map::empty()),
            };
            assert(details.without_floats()) by {
                if let Some(Json::Object(members)) = usage.member(key) {
                    assert(usage->Object_0.dom().contains(key));
                }
            }
            let count = Json::Integer(cached_tokens as int);
            lemma_with_member_without_floats(details, "cached_tokens"@, count);
            let counted = details_with_count(usage.member(key), cached_tokens);
            lemma_with_member_without_floats(usage, key, counted);
            let counted_usage = usage_with_count(usage, cached_tokens)->0;
            lemma_with_member_without_floats(document, "usage"@, counted_usage);
        }
    }
}

/// An injection brings no float into a document that has none.
pub proof fn law_injection_adds_no_floats(response: Json, cached_tokens: u64)
    requires
        response.without_floats(),
    ensures
        response_with_count(response, cached_tokens) matches Some(counted)
            ==> counted.without_floats(),
        chunk_with_count(response, cached_tokens) matches Some(counted)
            ==> counted.without_floats(),
{
    lemma_top_level_without_floats(response, cached_tokens);
    if let Some(nested) = response.member("response"@) {
        assert(response->Object_0.dom().contains("response"@));
        lemma_top_level_without_floats(nested, cached_tokens);
        if let Some(counted) = top_level_with_count(nested, cached_tokens) {
            lemma_with_member_without_floats(response, "response"@, counted);
        }
    }
}

} // verus!
