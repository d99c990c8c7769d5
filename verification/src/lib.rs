//! Prefiller cached tokens reporting for PD disaggregation.
//!
//! In PD (prefill/decode) disaggregated mode with prefix caching enabled, prefix cache hits happen on
//! the prefiller, but the response returned to the client comes from the decoder, whose reported
//! `cached_tokens` does not count the prefiller's prefix cache hits. These utilities extract the
//! cached token count from the prefiller's response and inject it into the decode response: both the
//! non-streaming JSON body and the final usage chunk of a streaming SSE response (the
//! empty-`choices` chunk that carries the usage, or the nested `response.usage` of a Responses API
//! `response.completed` event).

pub mod body;
pub mod digits;
pub mod injector;
pub mod json;
pub mod laws;
pub mod lines;
pub mod outside;
pub mod relay;
pub mod sse;
pub mod usage;

pub use crate::body::{
    accepts_body, inject_cached_tokens_in_body, inject_cached_tokens_in_parsed_body,
};
pub use crate::digits::has_fitting_digit_runs;
pub use crate::injector::CachedTokensSseInjector;
pub use crate::relay::CachedTokensRelay;
pub use crate::sse::{append_data_line, process_sse_line, read_data_payload, rewrite_data_line};
pub use crate::usage::{
    extract_prefill_cached_tokens, inject_cached_tokens_in_chunk, inject_cached_tokens_in_json,
    inject_into_usage,
};
