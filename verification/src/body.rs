//! Injecting the cached token count into a full (non-streaming) response body.

use crate::digits::{digit_runs_fit, has_fitting_digit_runs};
use crate::json::Json;
use crate::outside::{
    bytes_as_slice, bytes_from_vec, content, encode_json, encoded, json, parse_json, parsed,
    MAX_NESTING,
};
use crate::usage::{
    inject_cached_tokens_in_json, law_floats_do_not_matter, law_injection_adds_no_floats,
    law_injection_nests_no_deeper, law_response_reports_the_injected_count, reads_back,
    response_count, response_with_count,
};
use bytes::Bytes;
use serde_json::Value;
use vstd::prelude::*;

verus! {

/// The document that a body is replaced by, given the one that it holds: that one with the count
/// written into it. `None` where the body stays: it holds no JSON, or no usage that takes the count.
pub open spec fn body_with_count(document: Option<Json>, cached_tokens: u64) -> Option<Json> {
    match document {
        Some(response) => response_with_count(response, cached_tokens),
        None => None,
    }
}

/// Replace a body that holds `decode_json`, or no JSON where that is `None`, by the text of the same
/// document with the count injected. Returns whether the body was modified; where it was, it reads
/// back.
pub fn inject_cached_tokens_in_parsed_body(
    body: &mut Bytes,
    decode_json: Option<Value>,
    cached_tokens: u64,
) -> (modified: bool)
    requires
        decode_json matches Some(value) ==> json(value).nests_within(MAX_NESTING as nat),
    ensures
        ({
            let document = match decode_json {
                Some(value) => Some(json(value)),
                None => None,
            };
            match body_with_count(document, cached_tokens) {
                Some(counted) => {
                    &&& modified
                    &&& content(*final(body)) == encoded(counted)
                    &&& reads_back(content(*final(body)), counted, cached_tokens)
                },
                None => !modified && *final(body) == *old(body),
            }
        }),
        decode_json matches Some(value) ==> (json(value).member("usage"@) matches Some(usage)
            ==> ((usage.member("prompt_tokens_details"@) is Some || usage.member("input_tokens_details"@) is Some
            || usage.member("prompt_tokens"@) is Some || usage.member("input_tokens"@) is Some) ==> {
            &&& modified
            &&& parsed(content(*final(body))) matches Some(found) ==> response_count(found) == Some(
                cached_tokens,
            )
            &&& json(value).without_floats() ==> parsed(content(*final(body))) is Some
        })),
{
    let mut value = match decode_json {
        Some(value) => value,
        None => return false,
    };
    let ghost document = json(value);
    if !inject_cached_tokens_in_json(&mut value, cached_tokens) {
        return false;
    }
    proof {
        law_injection_nests_no_deeper(document, cached_tokens, MAX_NESTING as nat);
        law_response_reports_the_injected_count(document, cached_tokens);
        if document.without_floats() {
            law_injection_adds_no_floats(document, cached_tokens);
        }
    }
    match encode_json(&value) {
        Some(text) => {
            proof {
                if let Some(found) = parsed(text@) {
                    law_floats_do_not_matter(json(value), found);
                }
            }
            *body = bytes_from_vec(text);
            true
        },
        None => false,
    }
}

/// Try to inject the prefiller's cached token count into a full (non-streaming) JSON response body.
/// The body is passed through unchanged when it is not JSON or has no usable usage block. Returns
/// whether the body was modified; where it was, it reads back.
pub fn inject_cached_tokens_in_body(body: &mut Bytes, cached_tokens: u64) -> (modified: bool)
    requires
        digit_runs_fit(content(*old(body))),
    ensures
        match body_with_count(parsed(content(*old(body))), cached_tokens) {
            Some(counted) => {
                &&& modified
                &&& content(*final(body)) == encoded(counted)
                &&& reads_back(content(*final(body)), counted, cached_tokens)
            },
            None => !modified && *final(body) == *old(body),
        },
        parsed(content(*old(body))) matches Some(document) ==> (document.member("usage"@) matches Some(usage)
            ==> ((usage.member("prompt_tokens_details"@) is Some || usage.member("input_tokens_details"@) is Some
            || usage.member("prompt_tokens"@) is Some || usage.member("input_tokens"@) is Some) ==> {
            &&& modified
            &&& parsed(content(*final(body))) matches Some(found) ==> response_count(found) == Some(
                cached_tokens,
            )
            &&& document.without_floats() ==> parsed(content(*final(body))) is Some
        })),
{
    let decode_json = parse_json(bytes_as_slice(body));
    inject_cached_tokens_in_parsed_body(body, decode_json, cached_tokens)
}

/// Whether [`inject_cached_tokens_in_body`] takes `body`: whether no run of digits in it is
/// longer than the parser takes.
pub fn accepts_body(body: &Bytes) -> (answer: bool)
    ensures
        answer == digit_runs_fit(content(*body)),
{
    has_fitting_digit_runs(bytes_as_slice(body))
}

} // verus!
