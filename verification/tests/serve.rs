//! Requests, chats, replies and streamed text.

use pulsar::gguf::writer::write_header;
use pulsar::gguf::{Gguf, Value};
use pulsar::serve::args::parse_args;
use pulsar::serve::chat::{
    chat_of, closing_events, completion_id, completion_reply, default_temperature, models_reply,
    not_found_reply, prompt_fits, read_chat, sampling, text_event, too_long_reply, ChatFault, Turn,
};
use pulsar::serve::http::{
    event, failure, header_line, next_length, reply, request_line, route, stream_head, HeaderLine,
    Route,
};
use pulsar::serve::streaming::TextStream;

fn strings(v: &[&str]) -> Vec<String> {
    v.iter().map(|s| s.to_string()).collect()
}

#[test]
fn server_settings() {
    let a = parse_args(&strings(&["-m", "x.gguf"])).ok().unwrap();
    assert_eq!((a.model.as_str(), a.port, a.host.as_str(), a.ctx), ("x.gguf", 11435, "127.0.0.1", 8192));
    let a = parse_args(&strings(&["--ctx", "100", "--host", "::1", "--port", "65535", "-m", "y", "-m", "z"]));
    let a = a.ok().unwrap();
    assert_eq!((a.model.as_str(), a.port, a.host.as_str(), a.ctx), ("z", 65535, "::1", 100));
    let fault = |v: &[&str]| parse_args(&strings(v)).err().unwrap();
    assert_eq!(fault(&[]), "missing -m MODEL.gguf");
    assert_eq!(fault(&["-m"]), "-m needs a value");
    assert_eq!(fault(&["--frob"]), "unknown arg --frob");
    assert_eq!(fault(&["--port", "65536"]), "number too large to fit in target type");
    assert_eq!(fault(&["--ctx", "4294967296"]), "number too large to fit in target type");
    assert_eq!(fault(&["--port", "80x"]), "invalid digit found in string");
    assert_eq!(fault(&["--port", ""]), "cannot parse integer from empty string");
    for s in ["65535", "+7", "-1", "+", "70000", "", "x", "00009"] {
        let ours = parse_args(&strings(&["-m", "m", "--port", s]));
        match s.parse::<u16>() {
            Ok(n) => assert_eq!(ours.ok().unwrap().port, n),
            Err(e) => assert_eq!(ours.err().unwrap(), e.to_string()),
        }
    }
}

#[test]
fn request_lines_and_headers() {
    assert_eq!(request_line("GET /v1/models HTTP/1.1\r\n"), ("GET".to_string(), "/v1/models".to_string()));
    assert_eq!(request_line("  POST\t/x"), ("POST".to_string(), "/x".to_string()));
    assert_eq!(request_line("\r\n"), (String::new(), String::new()));
    assert_eq!(header_line("\r\n"), HeaderLine::End);
    assert_eq!(header_line("Content-Length: 42 \r\n"), HeaderLine::Length(42));
    assert_eq!(header_line("CONTENT-LENGTH:x\r\n"), HeaderLine::Length(0));
    assert_eq!(header_line("content-length: 99999999999999999999\r\n"), HeaderLine::Length(0));
    assert_eq!(header_line("content-length : 4\r\n"), HeaderLine::Other);
    assert_eq!(header_line("host: a\r\n"), HeaderLine::Other);
    let mut n = 0;
    for l in ["content-length: 3", "host: b", "content-length: 8"] {
        n = next_length(n, header_line(l));
    }
    assert_eq!(n, 8);
    assert_eq!(route("GET", "/v1/models"), Route::Models);
    assert_eq!(route("POST", "/v1/chat/completions"), Route::Chat);
    assert_eq!(route("POST", "/v1/models"), Route::NotFound);
    assert_eq!(route("GET", "/v1/models/"), Route::NotFound);
}

#[test]
fn replies_give_their_length_in_bytes() {
    assert_eq!(
        reply(200, "{\u{e9}}"),
        "HTTP/1.1 200 OK\r\ncontent-type: application/json\r\ncontent-length: 4\r\n\r\n{\u{e9}}"
    );
    assert!(reply(404, "").starts_with("HTTP/1.1 404 Error\r\n"));
    assert_eq!(failure(), "HTTP/1.1 500 Internal Server Error\r\ncontent-length: 0\r\n\r\n");
    assert!(stream_head().contains("text/event-stream") && stream_head().ends_with("\r\n\r\n"));
    assert_eq!(event("x"), "data: x\n\n");
}

fn said(t: &Turn) -> (&str, &str) {
    match t {
        Turn::System(s) => ("system", s),
        Turn::User(s) => ("user", s),
        Turn::Assistant(s) => ("assistant", s),
    }
}

#[test]
fn chat_requests() {
    let body = r#"{"messages": [
        {"role": "system", "content": "be brief"},
        {"role": "user", "content": "h\u00e9"},
        {"role": "tool", "content": "dropped"},
        {"role": "assistant"},
        "no message"
    ], "max_tokens": 7, "seed": 18446744073709551615, "stream": true, "temperature": 0.5}"#;
    let q = read_chat(body.as_bytes()).ok().unwrap();
    let turns: Vec<(&str, &str)> = q.turns.iter().map(said).collect();
    assert_eq!(turns, vec![("system", "be brief"), ("user", "h\u{e9}"), ("assistant", "")]);
    assert_eq!((q.max_tokens, q.seed, q.stream), (7, u64::MAX, true));
    assert_eq!((q.temperature, q.top_p, q.min_p), (Some(0.5f64.to_bits()), None, None));

    let q = read_chat(br#"{"messages": [], "max_tokens": -3, "seed": 1.5, "stream": "yes"}"#).ok().unwrap();
    assert_eq!((q.turns.len(), q.max_tokens, q.seed, q.stream), (0, 1024, 42, false));

    assert!(matches!(read_chat(b"{}"), Err(ChatFault::NoMessages)));
    assert!(matches!(read_chat(b"[1]"), Err(ChatFault::NoMessages)));
    assert!(matches!(read_chat(br#"{"messages": {}}"#), Err(ChatFault::NoMessages)));
    assert!(matches!(read_chat(b"{"), Err(ChatFault::Json(_))));
    assert!(matches!(read_chat(&[0xff]), Err(ChatFault::Json(_))));

    let doc: serde_json::Value = serde_json::from_slice(br#"{"messages": [{"role": "user", "content": "x"}]}"#).unwrap();
    assert_eq!(chat_of(doc).ok().unwrap().turns.len(), 1);
}

#[test]
fn sampling_fields_are_read_in_double_precision() {
    let q = read_chat(br#"{"messages": [], "temperature": 1, "top_p": -2, "min_p": 0}"#).ok().unwrap();
    assert_eq!((q.temperature, q.top_p, q.min_p), (Some(1f64.to_bits()), Some((-2f64).to_bits()), Some(0)));
    let q = read_chat(br#"{"messages": [], "temperature": 9007199254740993, "top_p": 9007199254740995,
        "min_p": 18446744073709551615}"#)
    .ok()
    .unwrap();
    assert_eq!(q.temperature, Some(9007199254740992f64.to_bits()));
    assert_eq!(q.top_p, Some(9007199254740996f64.to_bits()));
    assert_eq!(q.min_p, Some(18446744073709551616f64.to_bits()));
    let q = read_chat(br#"{"messages": [], "temperature": "1", "top_p": null, "min_p": 1e-3}"#).ok().unwrap();
    assert_eq!((q.temperature, q.top_p, q.min_p), (None, None, Some(1e-3f64.to_bits())));
}

fn model_with(entry: Option<Value>) -> Gguf {
    let meta: Vec<(String, Value)> =
        entry.into_iter().map(|v| ("general.sampling.temp".to_string(), v)).collect();
    Gguf::parse(&write_header(&meta, &vec![], 4096).unwrap()).unwrap()
}

#[test]
fn a_model_may_ask_for_a_temperature() {
    assert_eq!(default_temperature(&model_with(None)), 0.9f32.to_bits());
    let g = model_with(Some(Value::F32(0.6f32.to_bits())));
    assert_eq!(default_temperature(&g), 0.6f32.to_bits());
    let g = model_with(Some(Value::F64(0.1f64.to_bits())));
    assert_eq!(default_temperature(&g), 0.1f32.to_bits());
    let g = model_with(Some(Value::String("warm".to_string())));
    assert_eq!(default_temperature(&g), 0.9f32.to_bits());
}

#[test]
fn sampling_settings() {
    let s = sampling(None, None, None, 0.9f32.to_bits());
    assert_eq!((s.temperature, s.top_p, s.min_p), (0.9f32.to_bits(), 1.0f32.to_bits(), 0));
    let s = sampling(Some(0.1f64.to_bits()), Some(0.95f64.to_bits()), Some(1e-3f64.to_bits()), 0);
    assert_eq!((s.temperature, s.top_p, s.min_p), (0.1f32.to_bits(), 0.95f32.to_bits(), 1e-3f32.to_bits()));
    assert!(prompt_fits(97, 100));
    assert!(!prompt_fits(98, 100));
    assert!(!prompt_fits(0, 0));
}

/// The document in the body of a reply.
fn body_of(reply: &str) -> serde_json::Value {
    let (head, body) = reply.split_once("\r\n\r\n").unwrap();
    assert!(head.ends_with(&format!("content-length: {}", body.len())));
    serde_json::from_str(body).unwrap()
}

#[test]
fn answers() {
    assert_eq!(completion_id(12), "chatcmpl-12");
    let m = models_reply("mo\"del");
    assert!(m.starts_with("HTTP/1.1 200 OK\r\n"));
    assert_eq!(body_of(&m)["object"], "list");
    assert_eq!(body_of(&m)["data"][0]["id"], "mo\"del");
    assert_eq!(body_of(&m)["data"][0]["owned_by"], "pulsar");
    assert!(m.ends_with(
        r#"{"data":[{"id":"mo\"del","object":"model","owned_by":"pulsar"}],"object":"list"}"#
    ));
    assert!(not_found_reply().starts_with("HTTP/1.1 404 Error\r\n"));
    assert!(not_found_reply().ends_with(r#"{"error":{"message":"not found"}}"#));
    assert!(too_long_reply().starts_with("HTTP/1.1 400 Error\r\n"));
    assert!(too_long_reply().ends_with(r#"{"error":{"message":"prompt exceeds context"}}"#));

    let e = text_event("chatcmpl-1", "m", "a\nb");
    assert_eq!(
        e,
        "data: {\"choices\":[{\"delta\":{\"content\":\"a\\nb\"},\"finish_reason\":null,\"index\":0}],\
         \"id\":\"chatcmpl-1\",\"model\":\"m\",\"object\":\"chat.completion.chunk\"}\n\n"
    );
    let c = closing_events("i", "m");
    assert!(c.contains("\"delta\":{}") && c.contains("\"finish_reason\":\"stop\""));
    assert!(c.ends_with("\n\ndata: [DONE]\n\n"));

    let r = completion_reply("i", "m", &[b'o', b'k', 0xff], 5, 3);
    let d = body_of(&r);
    assert_eq!(d["choices"][0]["message"]["content"], "ok\u{fffd}");
    assert_eq!(d["choices"][0]["message"]["role"], "assistant");
    assert_eq!(d["choices"][0]["finish_reason"], "stop");
    assert_eq!(d["usage"]["prompt_tokens"], 5);
    assert_eq!(d["usage"]["completion_tokens"], 3);
    assert_eq!(d["usage"]["total_tokens"], 8);
}

#[test]
fn only_whole_characters_go_out() {
    let mut t = TextStream::new();
    assert_eq!(t.push(b"ab"), Some("ab".to_string()));
    assert_eq!(t.push(&[0xe2]), None);
    assert_eq!(t.push(&[0x82]), None);
    assert_eq!(t.push(&[0xac, b'!', 0xc3]), Some("\u{20ac}!".to_string()));
    assert_eq!(t.pending, vec![0xc3]);
    assert_eq!(t.push(&[0xa9]), Some("\u{e9}".to_string()));
    assert_eq!(t.push(&[]), None);
    assert_eq!(t.tokens, 6);
    // bytes that never become a character stay pending
    assert_eq!(t.push(&[0xff]), None);
    assert_eq!(t.push(b"x"), None);
    assert_eq!(t.pending, vec![0xff, b'x']);
}

#[test]
fn nothing_goes_out_once_sending_failed() {
    let mut t = TextStream::new();
    t.failed = true;
    assert_eq!(t.push(b"ab"), None);
    assert_eq!(t.pending, b"ab".to_vec());
    assert_eq!(t.tokens, 1);
}

#[test]
fn streamed_text_is_the_text_of_all_tokens() {
    let text = "na\u{ef}ve \u{1f600} \u{20ac}5 \u{4f60}\u{597d}";
    for k in 1..5 {
        let mut t = TextStream::new();
        let mut out = String::new();
        for c in text.as_bytes().chunks(k) {
            if let Some(s) = t.push(c) {
                out.push_str(&s);
            }
        }
        assert_eq!(out, text);
        assert!(t.pending.is_empty());
    }
}
