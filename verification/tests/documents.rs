use bytes::Bytes;
use cached_tokens_merge::{
    accepts_body, extract_prefill_cached_tokens, inject_cached_tokens_in_body,
    inject_cached_tokens_in_chunk, inject_cached_tokens_in_json,
    inject_cached_tokens_in_parsed_body, inject_into_usage,
};
use serde_json::Value;

fn value(text: &str) -> Value {
    serde_json::from_str(text).unwrap()
}

fn extracted(text: &str) -> Option<u64> {
    extract_prefill_cached_tokens(&value(text))
}

fn injected_usage(text: &str, cached_tokens: u64) -> Option<Value> {
    let mut usage = value(text);
    let before = usage.clone();
    if inject_into_usage(&mut usage, cached_tokens) {
        Some(usage)
    } else {
        assert_eq!(usage, before);
        None
    }
}

#[test]
fn extract_prefers_prompt_details() {
    assert_eq!(
        extracted(
            r#"{"usage":{"prompt_tokens_details":{"cached_tokens":1},"input_tokens_details":{"cached_tokens":2}}}"#
        ),
        Some(1)
    );
}

#[test]
fn extract_falls_back_where_prompt_details_state_no_count() {
    for stated in ["\"many\"", "-1", "1.0", "1e3", "null", "18446744073709551616", "[1]"] {
        let text = format!(
            r#"{{"usage":{{"prompt_tokens_details":{{"cached_tokens":{stated}}},"input_tokens_details":{{"cached_tokens":2}}}}}}"#
        );
        assert_eq!(extracted(&text), Some(2));
    }
    assert_eq!(
        extracted(
            r#"{"usage":{"prompt_tokens_details":[],"input_tokens_details":{"cached_tokens":2}}}"#
        ),
        Some(2)
    );
}

#[test]
fn extract_takes_the_whole_range_of_a_count() {
    assert_eq!(
        extracted(r#"{"usage":{"prompt_tokens_details":{"cached_tokens":0}}}"#),
        Some(0)
    );
    assert_eq!(
        extracted(r#"{"usage":{"prompt_tokens_details":{"cached_tokens":18446744073709551615}}}"#),
        Some(u64::MAX)
    );
}

#[test]
fn extract_reads_objects_only() {
    for text in ["null", "true", "5", "\"usage\"", "[]", r#"{"usage":[]}"#] {
        assert_eq!(extracted(text), None);
    }
}

#[test]
fn extract_does_not_look_into_a_nested_response() {
    assert_eq!(
        extracted(r#"{"response":{"usage":{"input_tokens_details":{"cached_tokens":3}}}}"#),
        None
    );
}

#[test]
fn usage_keeps_the_other_members_of_its_details() {
    assert_eq!(
        injected_usage(
            r#"{"prompt_tokens":1,"prompt_tokens_details":{"audio_tokens":4,"cached_tokens":9}}"#,
            5
        ),
        Some(value(
            r#"{"prompt_tokens":1,"prompt_tokens_details":{"audio_tokens":4,"cached_tokens":5}}"#
        ))
    );
}

#[test]
fn usage_replaces_details_that_are_no_object() {
    for details in ["null", "7", "\"x\"", "[1,2]", "false"] {
        let text = format!(r#"{{"input_tokens":1,"input_tokens_details":{details}}}"#);
        assert_eq!(
            injected_usage(&text, 5),
            Some(value(
                r#"{"input_tokens":1,"input_tokens_details":{"cached_tokens":5}}"#
            ))
        );
    }
}

#[test]
fn usage_details_that_are_there_win_over_the_token_totals() {
    assert_eq!(
        injected_usage(r#"{"prompt_tokens":1,"input_tokens_details":{}}"#, 5),
        Some(value(
            r#"{"prompt_tokens":1,"input_tokens_details":{"cached_tokens":5}}"#
        ))
    );
    assert_eq!(
        injected_usage(
            r#"{"input_tokens_details":{"cached_tokens":1},"prompt_tokens_details":{}}"#,
            5
        ),
        Some(value(
            r#"{"input_tokens_details":{"cached_tokens":1},"prompt_tokens_details":{"cached_tokens":5}}"#
        ))
    );
    assert_eq!(
        injected_usage(r#"{"prompt_tokens":1,"input_tokens":2}"#, 5),
        Some(value(
            r#"{"prompt_tokens":1,"input_tokens":2,"prompt_tokens_details":{"cached_tokens":5}}"#
        ))
    );
}

#[test]
fn usage_of_neither_format_takes_no_count() {
    for text in ["{}", r#"{"total_tokens":3}"#, "null", "3", "[]", "\"prompt_tokens\""] {
        assert_eq!(injected_usage(text, 5), None);
    }
}

#[test]
fn injected_count_is_extracted() {
    for count in [0, 1, u64::MAX] {
        for text in [
            r#"{"usage":{"prompt_tokens":1}}"#,
            r#"{"usage":{"input_tokens":1}}"#,
            r#"{"usage":{"prompt_tokens_details":null,"input_tokens_details":{"cached_tokens":8}}}"#,
        ] {
            let mut response = value(text);
            assert!(inject_cached_tokens_in_json(&mut response, count));
            assert_eq!(extract_prefill_cached_tokens(&response), Some(count));
        }
    }
}

#[test]
fn last_count_is_kept() {
    let text = r#"{"choices":[],"usage":{"prompt_tokens":1}}"#;
    let mut twice = value(text);
    assert!(inject_cached_tokens_in_chunk(&mut twice, 3));
    assert!(inject_cached_tokens_in_chunk(&mut twice, 4));
    let mut once = value(text);
    assert!(inject_cached_tokens_in_chunk(&mut once, 4));
    assert_eq!(twice, once);
}

#[test]
fn nested_usage_is_used_where_the_top_level_one_takes_no_count() {
    let mut event = value(r#"{"usage":null,"response":{"usage":{"input_tokens":1}},"n":1.5}"#);
    assert!(inject_cached_tokens_in_json(&mut event, 6));
    assert_eq!(
        event,
        value(
            r#"{"usage":null,"response":{"usage":{"input_tokens":1,"input_tokens_details":{"cached_tokens":6}}},"n":1.5}"#
        )
    );
}

#[test]
fn top_level_usage_leaves_the_nested_one_alone() {
    let mut event =
        value(r#"{"usage":{"prompt_tokens":1},"response":{"usage":{"input_tokens":1}}}"#);
    assert!(inject_cached_tokens_in_json(&mut event, 6));
    assert_eq!(
        event,
        value(
            r#"{"usage":{"prompt_tokens":1,"prompt_tokens_details":{"cached_tokens":6}},"response":{"usage":{"input_tokens":1}}}"#
        )
    );
}

#[test]
fn response_without_a_place_is_unchanged() {
    for text in [
        "[]",
        "null",
        r#"{"response":null}"#,
        r#"{"response":{"usage":{"total_tokens":1}},"usage":[]}"#,
    ] {
        let mut response = value(text);
        assert!(!inject_cached_tokens_in_json(&mut response, 6));
        assert_eq!(response, value(text));
    }
}

#[test]
fn chunk_with_absent_empty_or_odd_choices_is_injected() {
    for choices in ["", r#""choices":[],"#, r#""choices":null,"#, r#""choices":{"a":1},"#] {
        let text = format!(r#"{{{choices}"usage":{{"prompt_tokens":1}}}}"#);
        let mut chunk = value(&text);
        assert!(inject_cached_tokens_in_chunk(&mut chunk, 2));
        assert_eq!(extract_prefill_cached_tokens(&chunk), Some(2));
    }
}

#[test]
fn whole_response_with_choices_is_injected() {
    let mut response = value(r#"{"choices":[1],"usage":{"prompt_tokens":1}}"#);
    assert!(!inject_cached_tokens_in_chunk(&mut response, 2));
    assert!(inject_cached_tokens_in_json(&mut response, 2));
}

#[test]
fn body_is_replaced_by_compact_text() {
    let mut body = Bytes::from_static(b" { \"usage\" : { \"prompt_tokens\" : 10 } } ");
    assert!(accepts_body(&body));
    assert!(inject_cached_tokens_in_body(&mut body, 128));
    assert_eq!(
        &body[..],
        &b"{\"usage\":{\"prompt_tokens\":10,\"prompt_tokens_details\":{\"cached_tokens\":128}}}"[..]
    );
}

#[test]
fn body_without_a_place_is_kept_byte_for_byte() {
    for text in [
        "",
        "{\"usage\": {\"prompt_tokens\": 1}",
        "{ \"choices\" : [] }",
        "{\"usage\": {\"prompt_tokens\": 1}} x",
    ] {
        let mut body = Bytes::from(text.to_string());
        assert!(!inject_cached_tokens_in_body(&mut body, 128));
        assert_eq!(&body[..], text.as_bytes());
    }
}

#[test]
fn body_reads_back_with_floats_and_escapes() {
    let text = r#"{"logprob":-0.31,"big":1e300,"text":"a\n\"\u0001é","usage":{"prompt_tokens":10}}"#;
    let mut body = Bytes::from(text.to_string());
    assert!(inject_cached_tokens_in_body(&mut body, 128));
    assert!(body.iter().all(|&byte| byte >= 0x20));
    let mut expected = value(text);
    assert!(inject_cached_tokens_in_json(&mut expected, 128));
    let found: Value = serde_json::from_slice(&body).unwrap();
    assert_eq!(found["text"], expected["text"]);
    assert_eq!(found["usage"], expected["usage"]);
    assert!(found["logprob"].is_f64());
    assert!(found["big"].is_f64());
    assert_eq!(extract_prefill_cached_tokens(&found), Some(128));
}

#[test]
fn body_nested_to_the_limit_is_replaced_and_reads_back() {
    let deep = |levels: usize| {
        format!(
            "{{\"deep\":{}{},\"usage\":{{\"input_tokens\":1}}}}",
            "[".repeat(levels),
            "]".repeat(levels)
        )
    };
    let mut body = Bytes::from(deep(126));
    assert!(inject_cached_tokens_in_body(&mut body, 1));
    assert!(serde_json::from_slice::<Value>(&body).is_ok());
    let mut too_deep = Bytes::from(deep(127));
    assert!(!inject_cached_tokens_in_body(&mut too_deep, 1));
    assert_eq!(&too_deep[..], deep(127).as_bytes());
}

#[test]
fn parsed_body_decides_what_the_body_becomes() {
    let mut body = Bytes::from_static(b"before");
    assert!(!inject_cached_tokens_in_parsed_body(&mut body, None, 3));
    assert!(!inject_cached_tokens_in_parsed_body(
        &mut body,
        Some(value("{}")),
        3
    ));
    assert_eq!(&body[..], &b"before"[..]);
    assert!(inject_cached_tokens_in_parsed_body(
        &mut body,
        Some(value(r#"{"usage":{"input_tokens":1}}"#)),
        3
    ));
    assert_eq!(
        &body[..],
        &b"{\"usage\":{\"input_tokens\":1,\"input_tokens_details\":{\"cached_tokens\":3}}}"[..]
    );
}
