use sse_chat::{bearer_header, ChatMessage, Decoder, InvalidCredential, StreamError};

fn event(id: &str, content: Option<&str>) -> String {
    let delta = match content {
        Some(c) => format!("{{\"content\":\"{}\"}}", c),
        None => "{}".to_string(),
    };
    format!(
        "data: {{\"id\":\"{}\",\"object\":\"chat.completion.chunk\",\"created\":0,\"model\":\"m\",\"choices\":[{{\"delta\":{},\"index\":0,\"finish_reason\":null}}]}}\n\n",
        id, delta
    )
}

#[test]
fn scenario_single_chunk() {
    let chunk = "data: {\"id\":\"1\",\"object\":\"x\",\"created\":0,\"model\":\"m\",\"choices\":[{\"delta\":{\"content\":\"Hel\"},\"index\":0,\"finish_reason\":null}]}\n\ndata: {\"id\":\"1\",\"object\":\"x\",\"created\":0,\"model\":\"m\",\"choices\":[{\"delta\":{\"content\":\"lo\"},\"index\":0,\"finish_reason\":null}]}\n\ndata: [DONE]\n\n";
    let mut d = Decoder::new();
    let tokens = d.push_chunk(chunk.as_bytes()).unwrap();
    assert_eq!(tokens, vec!["Hel".to_string(), "lo".to_string()]);
    assert!(d.finish().is_ok());
}

#[test]
fn tokens_in_order_across_chunks() {
    let mut d = Decoder::new();
    let mut got: Vec<String> = Vec::new();
    for (i, frag) in ["alpha", "beta", "gamma"].iter().enumerate() {
        let chunk = event(&i.to_string(), Some(frag));
        got.extend(d.push_chunk(chunk.as_bytes()).unwrap());
    }
    assert_eq!(got, vec!["alpha", "beta", "gamma"]);
    assert!(d.finish().is_ok());
}

#[test]
fn done_sentinel_yields_nothing_and_does_not_end_stream() {
    let mut d = Decoder::new();
    assert_eq!(d.push_chunk(b"data: [DONE]\n\n").unwrap(), Vec::<String>::new());
    // the stream is still alive: a later event still yields its token
    let tokens = d.push_chunk(event("2", Some("after")).as_bytes()).unwrap();
    assert_eq!(tokens, vec!["after"]);
    assert!(d.finish().is_ok());
}

#[test]
fn sentinel_with_surrounding_whitespace() {
    let mut d = Decoder::new();
    assert_eq!(d.push_chunk(b"data:   [DONE]  \n\n").unwrap(), Vec::<String>::new());
    assert!(d.finish().is_ok());
}

#[test]
fn unicode_whitespace_is_trimmed_around_value() {
    let mut d = Decoder::new();
    // non-breaking space and em space count as trimmable whitespace
    let chunk = "data:\u{a0}[DONE]\u{2003}\n\n".to_string();
    assert_eq!(d.push_chunk(chunk.as_bytes()).unwrap(), Vec::<String>::new());
    let ev = "data:\u{a0}{\"id\":\"1\",\"object\":\"x\",\"created\":0,\"model\":\"m\",\"choices\":[{\"delta\":{\"content\":\"nb\"},\"index\":0,\"finish_reason\":null}]}\n\n";
    assert_eq!(d.push_chunk(ev.as_bytes()).unwrap(), vec!["nb"]);
    assert!(d.finish().is_ok());
}

#[test]
fn event_split_across_chunks() {
    let whole = event("7", Some("split"));
    let bytes = whole.as_bytes();
    let (a, b) = bytes.split_at(bytes.len() / 2);
    let mut d = Decoder::new();
    assert_eq!(d.push_chunk(a).unwrap(), Vec::<String>::new());
    assert_eq!(d.push_chunk(b).unwrap(), vec!["split"]);
    assert!(d.finish().is_ok());
}

#[test]
fn boundary_between_terminator_newlines() {
    let whole = event("8", Some("x"));
    let cut = whole.len() - 1;  // between the two closing newlines
    let mut d = Decoder::new();
    assert_eq!(d.push_chunk(whole[..cut].as_bytes()).unwrap(), Vec::<String>::new());
    assert_eq!(d.push_chunk(whole[cut..].as_bytes()).unwrap(), vec!["x"]);
}

#[test]
fn unknown_field_is_fatal() {
    let mut d = Decoder::new();
    match d.push_chunk(b"foo:bar\n\n") {
        Err(StreamError::UnknownField(ctx)) => assert_eq!(ctx, "foo:bar"),
        other => panic!("expected an unknown-field error, got {:?}", other),
    }
}

#[test]
fn malformed_json_is_fatal() {
    let mut d = Decoder::new();
    match d.push_chunk(b"data: {oops\n\n") {
        Err(StreamError::Payload(ctx)) => assert_eq!(ctx, "data: {oops"),
        other => panic!("expected a payload error, got {:?}", other),
    }
}

#[test]
fn record_without_colon_is_fatal() {
    let mut d = Decoder::new();
    assert!(matches!(d.push_chunk(b"data\n\n"), Err(StreamError::EventFormat(_))));
}

#[test]
fn newline_inside_value_is_fatal() {
    let mut d = Decoder::new();
    assert!(matches!(d.push_chunk(b"data: a\nb\n\n"), Err(StreamError::EventFormat(_))));
}

#[test]
fn no_token_delivered_from_failing_push() {
    let mut d = Decoder::new();
    let chunk = format!("{}foo:bar\n\n", event("1", Some("lost")));
    assert!(matches!(
        d.push_chunk(chunk.as_bytes()),
        Err(StreamError::UnknownField(_))
    ));
}

#[test]
fn invalid_utf8_is_fatal() {
    let mut d = Decoder::new();
    assert!(matches!(d.push_chunk(&[0xff, 0xfe, b'\n', b'\n']), Err(StreamError::Encoding)));
}

#[test]
fn unterminated_record_at_end_of_stream() {
    let mut d = Decoder::new();
    assert_eq!(d.push_chunk(b"data: tail").unwrap(), Vec::<String>::new());
    match d.finish() {
        Err(StreamError::Truncated(ctx)) => assert_eq!(ctx, "data: tail"),
        other => panic!("expected a truncated-stream error, got {:?}", other),
    }
}

#[test]
fn extra_blank_lines_are_skipped() {
    let mut d = Decoder::new();
    let chunk = format!("\n\n{}\n\n{}", event("1", Some("a")), event("2", Some("b")));
    assert_eq!(d.push_chunk(chunk.as_bytes()).unwrap(), vec!["a", "b"]);
}

#[test]
fn absent_content_yields_no_token() {
    let mut d = Decoder::new();
    assert_eq!(d.push_chunk(event("1", None).as_bytes()).unwrap(), Vec::<String>::new());
    let null_content = "data: {\"id\":\"1\",\"object\":\"x\",\"created\":0,\"model\":\"m\",\"choices\":[{\"delta\":{\"content\":null},\"index\":0,\"finish_reason\":null}]}\n\n";
    assert_eq!(d.push_chunk(null_content.as_bytes()).unwrap(), Vec::<String>::new());
}

#[test]
fn credential_with_control_character_fails_fast() {
    assert_eq!(bearer_header("bad\u{1}key"), Err(InvalidCredential));
    assert_eq!(bearer_header("bad\nkey"), Err(InvalidCredential));
}

#[test]
fn credential_builds_bearer_header() {
    assert_eq!(bearer_header("sk-abc123").unwrap(), "Bearer sk-abc123");
    // a tab and non-ASCII text are acceptable header characters
    assert!(bearer_header("a\tb\u{e9}").is_ok());
}

#[test]
fn chat_message_keeps_role_and_content() {
    let m = ChatMessage::new("user", "hello there");
    assert_eq!(m.role, "user");
    assert_eq!(m.content, "hello there");
}
