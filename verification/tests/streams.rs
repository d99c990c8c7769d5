use bytes::Bytes;
use cached_tokens_merge::{
    append_data_line, has_fitting_digit_runs, process_sse_line, read_data_payload, rewrite_data_line, CachedTokensRelay,
    CachedTokensSseInjector,
};
use serde_json::Value;

fn value(text: &str) -> Value {
    serde_json::from_str(text).unwrap()
}

fn forwarded_line(line: &str, cached_tokens: Option<u64>) -> String {
    let mut out = b"<".to_vec();
    process_sse_line(line.as_bytes(), cached_tokens, &mut out);
    assert_eq!(out[0], b'<');
    String::from_utf8(out[1..].to_vec()).unwrap()
}

fn run_injector(input: &str, cached_tokens: Option<u64>) -> String {
    let mut injector = CachedTokensSseInjector::new(cached_tokens);
    assert!(injector.accepts(input.as_bytes()));
    let mut out = injector.process(input.as_bytes()).to_vec();
    assert!(injector.accepts_end());
    out.extend_from_slice(&injector.finish());
    String::from_utf8(out).unwrap()
}

#[test]
fn payload_of_data_lines() {
    let cases: [(&str, Option<&str>); 15] = [
        ("data: x\n", Some("x")),
        ("data:x\n", Some("x")),
        ("data:  x\n", Some(" x")),
        ("data: x\r\n", Some("x")),
        ("data: x\r", Some("x")),
        ("data: x\r\r\n", Some("x\r")),
        ("data: x", Some("x")),
        ("data: \n", Some("")),
        ("data:\n", Some("")),
        ("data:", Some("")),
        ("data\n", None),
        (" data: x\n", None),
        ("event: data:\n", None),
        ("\n", None),
        ("", None),
    ];
    for (line, payload) in cases {
        assert_eq!(
            read_data_payload(line.as_bytes()),
            payload.map(|text| text.as_bytes())
        );
    }
}

#[test]
fn data_line_is_appended() {
    let mut out = b"a".to_vec();
    append_data_line(b"xy", true, &mut out);
    append_data_line(b"", false, &mut out);
    assert_eq!(out, b"adata: xy\ndata: ".to_vec());
}

#[test]
fn rewritten_line_follows_the_chunk_it_is_given() {
    let mut out = Vec::new();
    rewrite_data_line(b"data: 1\r\n", None, 3, &mut out);
    rewrite_data_line(b"data: 2\r\n", Some(value("[]")), 3, &mut out);
    rewrite_data_line(
        b"data: 3\r\n",
        Some(value(r#"{"usage":{"prompt_tokens":1}}"#)),
        3,
        &mut out,
    );
    rewrite_data_line(
        b"data: 4",
        Some(value(r#"{"usage":{"input_tokens":1}}"#)),
        3,
        &mut out,
    );
    assert_eq!(
        String::from_utf8(out).unwrap(),
        "data: 1\r\ndata: 2\r\n\
         data: {\"usage\":{\"prompt_tokens\":1,\"prompt_tokens_details\":{\"cached_tokens\":3}}}\n\
         data: {\"usage\":{\"input_tokens\":1,\"input_tokens_details\":{\"cached_tokens\":3}}}"
    );
}

#[test]
fn line_is_rewritten_as_compact_json() {
    assert_eq!(
        forwarded_line("data:{ \"usage\": {\"prompt_tokens\": 5}, \"choices\": [] }\r\n", Some(9)),
        "data: {\"choices\":[],\"usage\":{\"prompt_tokens\":5,\"prompt_tokens_details\":{\"cached_tokens\":9}}}\n"
    );
}

#[test]
fn carriage_returns_do_not_change_a_rewritten_line() {
    let body = "data: {\"usage\":{\"prompt_tokens\":5}}";
    assert_eq!(
        forwarded_line(&format!("{body}\r\n"), Some(9)),
        forwarded_line(&format!("{body}\n"), Some(9))
    );
}

#[test]
fn other_lines_are_forwarded_byte_for_byte() {
    for line in [
        "data: [DONE]\r\n",
        "data:   {\"choices\" : [1], \"usage\":{\"prompt_tokens\":5}}\r\n",
        "data: { \"id\" : 1 }\n",
        "data: {\"usage\":{\"prompt_tokens\":5}} trailing\n",
        "id: {\"usage\":{\"prompt_tokens\":5}}\n",
        "data\r\n",
        "\r\n",
        "",
    ] {
        assert_eq!(forwarded_line(line, Some(9)), line);
    }
    let usage = "data:  {\"usage\":{\"prompt_tokens\":5}}\r\n";
    assert_eq!(forwarded_line(usage, None), usage);
    assert_ne!(forwarded_line(usage, Some(9)), usage);
}

#[test]
fn forwarding_twice_changes_nothing() {
    let once = forwarded_line("data: { \"usage\":{\"prompt_tokens\":5} }\r\n", Some(9));
    assert_eq!(forwarded_line(&once, Some(9)), once);
}

#[test]
fn lines_wait_until_they_are_complete() {
    let mut injector = CachedTokensSseInjector::new(Some(4));
    assert_eq!(&injector.process(b"data: {\"usage\":{\"input")[..], b"");
    assert_eq!(&injector.process(b"_tokens\":1}}")[..], b"");
    assert_eq!(
        &injector.process(b"\r\nda")[..],
        &b"data: {\"usage\":{\"input_tokens\":1,\"input_tokens_details\":{\"cached_tokens\":4}}}\n"[..]
    );
    assert_eq!(&injector.process(b"")[..], b"");
    assert_eq!(&injector.process(b"ta\n\nx")[..], b"data\n\n");
    assert_eq!(&injector.finish()[..], b"x");
    assert_eq!(&injector.finish()[..], b"");
}

#[test]
fn unfinished_data_line_is_injected_at_the_end() {
    assert_eq!(
        run_injector("data: {\"usage\":{\"prompt_tokens\":1}}", Some(2)),
        "data: {\"usage\":{\"prompt_tokens\":1,\"prompt_tokens_details\":{\"cached_tokens\":2}}}"
    );
    assert_eq!(run_injector("data: {\"usage\":", Some(2)), "data: {\"usage\":");
}

#[test]
fn every_cut_of_a_stream_gives_the_same_output() {
    let input = "event: x\r\ndata: {\"usage\":{\"prompt_tokens\":1}}\r\n\r\n: c\ndata: {\"usage\":{\"input_tokens\":1}}";
    let whole = run_injector(input, Some(2));
    for cut in 0..=input.len() {
        let mut injector = CachedTokensSseInjector::new(Some(2));
        let mut out = injector.process(&input.as_bytes()[..cut]).to_vec();
        out.extend_from_slice(&injector.process(&input.as_bytes()[cut..]));
        out.extend_from_slice(&injector.finish());
        assert_eq!(String::from_utf8(out).unwrap(), whole);
    }
}

#[test]
fn lines_of_the_output_are_the_lines_of_the_input() {
    let input = "data: {\"text\":\"a\\nb\",\"usage\":{\"prompt_tokens\":1}}\n\ndata: [DONE]\n";
    let output = run_injector(input, Some(2));
    assert_eq!(
        output.matches('\n').count(),
        input.matches('\n').count()
    );
    assert!(output.ends_with("\n\ndata: [DONE]\n"));
}

#[test]
fn relay_forwards_errors_and_ends_once() {
    let mut relay = CachedTokensRelay::new(2);
    assert!(!relay.is_finished());
    let chunk: Option<Result<Bytes, &str>> =
        Some(Ok(Bytes::from_static(b"data: {\"usage\":{\"prompt_to")));
    assert!(relay.accepts(&chunk));
    assert_eq!(relay.step(chunk), Some(Ok(Bytes::new())));
    assert_eq!(relay.step(Some(Err("reset"))), Some(Err("reset")));
    let rest: Option<Result<Bytes, &str>> = Some(Ok(Bytes::from_static(b"kens\":1}}\nrest")));
    assert_eq!(
        relay.step(rest),
        Some(Ok(Bytes::from_static(
            b"data: {\"usage\":{\"prompt_tokens\":1,\"prompt_tokens_details\":{\"cached_tokens\":2}}}\n"
        )))
    );
    let end: Option<Result<Bytes, &str>> = None;
    assert!(relay.accepts(&end));
    assert_eq!(relay.step(end), Some(Ok(Bytes::from_static(b"rest"))));
    assert!(relay.is_finished());
    let late: Option<Result<Bytes, &str>> = Some(Ok(Bytes::from_static(b"late\n")));
    assert!(relay.accepts(&late));
    assert_eq!(relay.step(late), None);
    assert!(relay.is_finished());
}

#[test]
fn ordinary_runs_of_digits_fit() {
    assert!(has_fitting_digit_runs(b""));
    assert!(has_fitting_digit_runs(b"0123456789"));
    assert!(has_fitting_digit_runs(&[b'7'; 100000]));
}

#[test]
fn long_numbers_are_parsed() {
    let digits = "9".repeat(300);
    let line = format!("data: {{\"n\":{digits},\"usage\":{{\"prompt_tokens\":1}}}}\n");
    let output = forwarded_line(&line, Some(2));
    let payload = output.strip_prefix("data: ").unwrap();
    let found: Value = serde_json::from_str(payload).unwrap();
    assert!(found["n"].is_f64());
    assert_eq!(found["usage"]["prompt_tokens_details"]["cached_tokens"], 2);
}

#[test]
fn line_feeds_are_kept_in_number() {
    let mut injector = CachedTokensSseInjector::new(Some(2));
    for chunk in ["a\nb", "", "c", "\n\ndata: {\"usage\":{\"prompt_tokens\":1}}\n", "x\n"] {
        let out = injector.process(chunk.as_bytes());
        assert!(out.is_empty() || out.ends_with(b"\n"));
        assert_eq!(
            out.iter().filter(|&&byte| byte == b'\n').count(),
            chunk.matches('\n').count()
        );
    }
}

#[test]
fn two_chunks_are_worth_one() {
    let (first, second) = ("x\ndata: {\"usage\":{\"in", "put_tokens\":1}}\ny");
    let mut apart = CachedTokensSseInjector::new(Some(2));
    let mut out = apart.process(first.as_bytes()).to_vec();
    out.extend_from_slice(&apart.process(second.as_bytes()));
    let mut together = CachedTokensSseInjector::new(Some(2));
    assert_eq!(&together.process(format!("{first}{second}").as_bytes())[..], &out[..]);
    assert_eq!(together.finish(), apart.finish());
}

#[test]
fn relay_answers_each_item_and_the_end() {
    let items: Vec<Result<Bytes, u8>> = vec![
        Err(1),
        Ok(Bytes::from_static(b"a\nb")),
        Err(2),
        Ok(Bytes::from_static(b"c\n")),
    ];
    let mut relay = CachedTokensRelay::new(2);
    let mut answers = Vec::new();
    let mut decode_stream = items.into_iter();
    while !relay.is_finished() {
        answers.push(relay.step(decode_stream.next()).unwrap());
    }
    assert_eq!(
        answers,
        vec![
            Err(1),
            Ok(Bytes::from_static(b"a\n")),
            Err(2),
            Ok(Bytes::from_static(b"bc\n")),
            Ok(Bytes::new()),
        ]
    );
}
