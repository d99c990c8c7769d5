use bytes::Bytes;
use cached_tokens_merge::{
    extract_prefill_cached_tokens, inject_cached_tokens_in_body, inject_cached_tokens_in_chunk,
    inject_cached_tokens_in_json, CachedTokensRelay, CachedTokensSseInjector,
};
use serde_json::Value;

fn value(text: &str) -> Value {
    serde_json::from_str(text).unwrap()
}

fn run_injector(input: &str, cached_tokens: Option<u64>) -> String {
    let mut injector = CachedTokensSseInjector::new(cached_tokens);
    let mut out = injector.process(input.as_bytes()).to_vec();
    out.extend_from_slice(&injector.finish());
    String::from_utf8(out).unwrap()
}

fn data_lines(output: &str) -> Vec<Value> {
    output
        .lines()
        .filter_map(|line| line.strip_prefix("data: "))
        .filter(|payload| *payload != "[DONE]")
        .map(|payload| serde_json::from_str::<Value>(payload).unwrap())
        .collect()
}

#[test]
fn test_extract_prefill_cached_tokens_chat_format() {
    let prefill = value(
        r#"{
            "id": "chatcmpl-1",
            "choices": [{"index": 0, "message": {"role": "assistant", "content": ""}}],
            "usage": {
                "prompt_tokens": 256,
                "completion_tokens": 1,
                "total_tokens": 257,
                "prompt_tokens_details": {"cached_tokens": 128}
            }
        }"#,
    );
    assert_eq!(extract_prefill_cached_tokens(&prefill), Some(128));
}

#[test]
fn test_extract_prefill_cached_tokens_responses_format() {
    let prefill = value(
        r#"{
            "id": "resp_1",
            "usage": {
                "input_tokens": 256,
                "output_tokens": 1,
                "total_tokens": 257,
                "input_tokens_details": {"cached_tokens": 64}
            }
        }"#,
    );
    assert_eq!(extract_prefill_cached_tokens(&prefill), Some(64));
}

#[test]
fn test_extract_prefill_cached_tokens_missing_or_invalid() {
    assert_eq!(extract_prefill_cached_tokens(&value("{}")), None);
    assert_eq!(
        extract_prefill_cached_tokens(&value(r#"{"usage": {"prompt_tokens": 5}}"#)),
        None
    );
    assert_eq!(
        extract_prefill_cached_tokens(&value(
            r#"{"usage": {"prompt_tokens_details": {"cached_tokens": "many"}}}"#
        )),
        None
    );
}

#[test]
fn test_inject_creates_prompt_tokens_details() {
    let mut decode = value(
        r#"{
            "choices": [{"index": 0, "message": {"content": "hi"}}],
            "usage": {"prompt_tokens": 10, "completion_tokens": 1, "total_tokens": 11}
        }"#,
    );
    assert!(inject_cached_tokens_in_json(&mut decode, 128));
    assert_eq!(
        decode["usage"]["prompt_tokens_details"]["cached_tokens"],
        128
    );
}

#[test]
fn test_inject_creates_input_tokens_details() {
    let mut decode =
        value(r#"{"usage": {"input_tokens": 10, "output_tokens": 2, "total_tokens": 12}}"#);
    assert!(inject_cached_tokens_in_json(&mut decode, 64));
    assert_eq!(decode["usage"]["input_tokens_details"]["cached_tokens"], 64);
}

#[test]
fn test_inject_replaces_existing_details() {
    let mut decode = value(
        r#"{
            "usage": {
                "prompt_tokens": 10,
                "prompt_tokens_details": {"cached_tokens": 0}
            }
        }"#,
    );
    assert!(inject_cached_tokens_in_json(&mut decode, 128));
    assert_eq!(
        decode["usage"]["prompt_tokens_details"]["cached_tokens"],
        128
    );
}

#[test]
fn test_inject_responses_streaming_completed_event() {
    let mut event = value(
        r#"{
            "type": "response.completed",
            "response": {
                "id": "resp_1",
                "usage": {
                    "input_tokens": 10,
                    "output_tokens": 2,
                    "input_tokens_details": {"cached_tokens": 0}
                }
            }
        }"#,
    );
    assert!(inject_cached_tokens_in_json(&mut event, 64));
    assert_eq!(
        event["response"]["usage"]["input_tokens_details"]["cached_tokens"],
        64
    );
}

#[test]
fn test_inject_returns_false_without_usage() {
    let mut decode = value(r#"{"choices": []}"#);
    assert!(!inject_cached_tokens_in_json(&mut decode, 128));
    let mut null_usage = value(r#"{"usage": null}"#);
    assert!(!inject_cached_tokens_in_json(&mut null_usage, 128));
}

#[test]
fn test_inject_chunk_skips_content_chunks() {
    let mut chunk = value(
        r#"{
            "id": "1",
            "choices": [{"index": 0, "delta": {"content": "Hi"}}],
            "usage": {"prompt_tokens": 10}
        }"#,
    );
    assert!(!inject_cached_tokens_in_chunk(&mut chunk, 128));
    assert!(chunk["usage"].get("prompt_tokens_details").is_none());
}

#[test]
fn test_sse_injector_injects_final_usage_chunk() {
    let content_line = "data: {\"id\":\"1\",\"object\":\"chat.completion.chunk\",\"choices\":[{\"index\":0,\"delta\":{\"content\":\"Hi\"}}]}";
    let usage_line = "data: {\"id\":\"1\",\"object\":\"chat.completion.chunk\",\"choices\":[],\"usage\":{\"prompt_tokens\":10,\"completion_tokens\":1,\"total_tokens\":11}}";
    let input = format!("{content_line}\n\n{usage_line}\n\ndata: [DONE]\n\n");

    let output = run_injector(&input, Some(128));

    assert!(output.contains("[DONE]"));
    let lines = data_lines(&output);
    let usage_chunk = lines
        .iter()
        .find(|v| v.get("usage").is_some())
        .expect("usage chunk present");
    assert_eq!(
        usage_chunk["usage"]["prompt_tokens_details"]["cached_tokens"],
        128
    );
    assert_eq!(usage_chunk["usage"]["prompt_tokens"], 10);
    let content_chunk = lines
        .iter()
        .find(|v| {
            v.get("choices")
                .and_then(Value::as_array)
                .is_some_and(|a| !a.is_empty())
        })
        .expect("content chunk present");
    assert_eq!(content_chunk["choices"][0]["delta"]["content"], "Hi");
}

#[test]
fn test_sse_injector_handles_arbitrary_chunk_boundaries() {
    let input = "data: {\"choices\":[{\"index\":0,\"delta\":{\"content\":\"Hi\"}}]}\n\n\
                 data: {\"choices\":[],\"usage\":{\"prompt_tokens\":10,\"completion_tokens\":1,\"total_tokens\":11}}\n\n\
                 data: [DONE]\n\n";
    let single_shot = run_injector(input, Some(128));

    let mut injector = CachedTokensSseInjector::new(Some(128));
    let mut split = Vec::new();
    for byte in input.bytes() {
        split.extend_from_slice(&injector.process(&[byte]));
    }
    split.extend_from_slice(&injector.finish());
    assert_eq!(String::from_utf8(split).unwrap(), single_shot);

    let lines = data_lines(&single_shot);
    let usage_chunk = lines.iter().find(|v| v.get("usage").is_some()).unwrap();
    assert_eq!(
        usage_chunk["usage"]["prompt_tokens_details"]["cached_tokens"],
        128
    );
}

#[test]
fn test_sse_injector_passthrough_without_usage_chunk() {
    let input = "data: {\"choices\":[{\"index\":0,\"delta\":{\"content\":\"Hi\"}}]}\n\n\
                 data: [DONE]\n\n";
    let output = run_injector(input, Some(128));
    assert_eq!(output, input);
}

#[test]
fn test_sse_injector_passthrough_when_disabled() {
    let input = "data: {\"choices\":[],\"usage\":{\"prompt_tokens\":10}}\n\n\
                 data: [DONE]\n\n";
    let output = run_injector(input, None);
    assert_eq!(output, input);
}

#[test]
fn test_sse_injector_responses_api_completed_event() {
    let input = "event: response.completed\n\
                 data: {\"type\":\"response.completed\",\"response\":{\"id\":\"resp_1\",\"usage\":{\"input_tokens\":10,\"output_tokens\":2,\"total_tokens\":12,\"input_tokens_details\":{\"cached_tokens\":0}}}}\n\n\
                 data: [DONE]\n\n";
    let output = run_injector(input, Some(64));

    let lines = data_lines(&output);
    let completed = lines
        .iter()
        .find(|v| v["type"] == "response.completed")
        .expect("response.completed event present");
    assert_eq!(
        completed["response"]["usage"]["input_tokens_details"]["cached_tokens"],
        64
    );
    assert!(output.contains("event: response.completed\n"));
    assert!(output.contains("data: [DONE]"));
}

#[test]
fn test_sse_injector_preserves_non_data_lines() {
    let input = ": keep-alive comment\n\n\
                 event: ping\n\
                 data: {\"choices\":[],\"usage\":{\"prompt_tokens\":3}}\n\
                 \n\
                 data: [DONE]\n\n";
    let output = run_injector(input, Some(7));
    assert!(output.contains(": keep-alive comment\n"));
    assert!(output.contains("event: ping\n"));
    assert!(output.contains("data: [DONE]"));
    let lines = data_lines(&output);
    assert_eq!(
        lines[0]["usage"]["prompt_tokens_details"]["cached_tokens"],
        7
    );
}

#[test]
fn test_sse_injector_tolerates_crlf() {
    let input =
        "data: {\"choices\":[],\"usage\":{\"prompt_tokens\":5}}\r\n\r\ndata: [DONE]\r\n\r\n";
    let output = run_injector(input, Some(9));
    let lines = data_lines(&output);
    assert_eq!(
        lines[0]["usage"]["prompt_tokens_details"]["cached_tokens"],
        9
    );
    assert!(output.contains("data: [DONE]"));
}

#[test]
fn test_inject_body_json_modified() {
    let mut body = Bytes::from(
        "{\"usage\":{\"prompt_tokens\":10,\"completion_tokens\":1,\"total_tokens\":11}}"
            .to_string(),
    );
    assert!(inject_cached_tokens_in_body(&mut body, 128));
    let parsed: Value = serde_json::from_slice(&body).unwrap();
    assert_eq!(
        parsed["usage"]["prompt_tokens_details"]["cached_tokens"],
        128
    );
}

#[test]
fn test_inject_body_non_json_passthrough() {
    let original = Bytes::from_static(b"not json");
    let mut body = original.clone();
    assert!(!inject_cached_tokens_in_body(&mut body, 128));
    assert_eq!(body, original);
}

#[test]
fn test_inject_cached_tokens_stream_end_to_end() {
    let chunks: Vec<Result<Bytes, std::io::Error>> = vec![
        Ok(Bytes::from_static(
            b"data: {\"choices\":[{\"index\":0,\"delta\":{\"content\":\"Hi\"}}]}\n\n",
        )),
        Ok(Bytes::from_static(
            b"data: {\"choices\":[],\"usage\":{\"prompt_tokens\":10,\"completion_tokens\":1,\"total_tokens\":11}}\n\n",
        )),
        Ok(Bytes::from_static(b"data: [DONE]\n\n")),
    ];
    let mut decode_stream = futures::executor::block_on_stream(futures::stream::iter(chunks));
    let mut relay = CachedTokensRelay::new(128);
    let mut total = Vec::new();
    while !relay.is_finished() {
        let next = decode_stream.next();
        assert!(relay.accepts(&next));
        let chunk = relay.step(next).unwrap();
        total.extend_from_slice(&chunk.unwrap());
    }
    let output = String::from_utf8(total).unwrap();

    assert!(output.contains("data: [DONE]"));
    let lines = data_lines(&output);
    let usage_chunk = lines.iter().find(|v| v.get("usage").is_some()).unwrap();
    assert_eq!(
        usage_chunk["usage"]["prompt_tokens_details"]["cached_tokens"],
        128
    );
}
