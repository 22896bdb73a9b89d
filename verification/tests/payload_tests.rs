use sse_chat::{Decoder, StreamError};

fn push_one(payload: &str) -> Result<Vec<String>, StreamError> {
    let mut d = Decoder::new();
    d.push_chunk(format!("data: {}\n\n", payload).as_bytes())
}

fn expect_payload_error(payload: &str) {
    match push_one(payload) {
        Err(StreamError::Payload(_)) => (),
        other => panic!("expected a payload error for {}, got {:?}", payload, other),
    }
}

fn valid(delta: &str, rest: &str) -> String {
    format!(
        "{{\"id\":\"1\",\"object\":\"x\",\"created\":0,\"model\":\"m\",\"choices\":[{{\"delta\":{},\"index\":0{}}}]}}",
        delta, rest
    )
}

#[test]
fn missing_required_field_is_rejected() {
    // no id
    expect_payload_error(
        "{\"object\":\"x\",\"created\":0,\"model\":\"m\",\"choices\":[{\"delta\":{},\"index\":0}]}",
    );
    // no choices
    expect_payload_error("{\"id\":\"1\",\"object\":\"x\",\"created\":0,\"model\":\"m\"}");
}

#[test]
fn duplicate_known_field_is_rejected() {
    expect_payload_error(
        "{\"id\":\"1\",\"id\":\"2\",\"object\":\"x\",\"created\":0,\"model\":\"m\",\"choices\":[{\"delta\":{},\"index\":0}]}",
    );
}

#[test]
fn wrong_field_type_is_rejected() {
    expect_payload_error(
        "{\"id\":7,\"object\":\"x\",\"created\":0,\"model\":\"m\",\"choices\":[{\"delta\":{},\"index\":0}]}",
    );
    expect_payload_error(
        "{\"id\":\"1\",\"object\":\"x\",\"created\":\"0\",\"model\":\"m\",\"choices\":[{\"delta\":{},\"index\":0}]}",
    );
}

#[test]
fn empty_choices_is_rejected() {
    expect_payload_error(
        "{\"id\":\"1\",\"object\":\"x\",\"created\":0,\"model\":\"m\",\"choices\":[]}",
    );
}

#[test]
fn every_choice_is_checked() {
    expect_payload_error(
        "{\"id\":\"1\",\"object\":\"x\",\"created\":0,\"model\":\"m\",\"choices\":[{\"delta\":{},\"index\":0},{\"index\":1}]}",
    );
}

#[test]
fn finish_reason_forms() {
    assert!(push_one(&valid("{}", ",\"finish_reason\":null")).is_ok());
    assert!(push_one(&valid("{}", ",\"finish_reason\":\"stop\"")).is_ok());
    assert!(push_one(&valid("{}", "")).is_ok());
    expect_payload_error(&valid("{}", ",\"finish_reason\":3"));
}

#[test]
fn created_number_forms() {
    assert!(push_one(&valid("{}", "").replace("\"created\":0", "\"created\":9223372036854775807")).is_ok());
    assert!(push_one(&valid("{}", "").replace("\"created\":0", "\"created\":-42")).is_ok());
    // a fraction, an exponent, or a value beyond 64 bits does not denote an integer
    expect_payload_error(&valid("{}", "").replace("\"created\":0", "\"created\":1.5"));
    expect_payload_error(&valid("{}", "").replace("\"created\":0", "\"created\":1e3"));
    expect_payload_error(
        &valid("{}", "").replace("\"created\":0", "\"created\":9223372036854775808"),
    );
}

#[test]
fn index_must_fit_32_bits() {
    expect_payload_error(&valid("{}", "").replace("\"index\":0", "\"index\":2147483648"));
    assert!(push_one(&valid("{}", "").replace("\"index\":0", "\"index\":2147483647")).is_ok());
}

#[test]
fn unknown_fields_are_ignored() {
    let payload = "{\"id\":\"1\",\"object\":\"x\",\"created\":0,\"model\":\"m\",\"extra\":{\"deep\":[1,2.5,true,null,\"s\"]},\"choices\":[{\"delta\":{\"content\":\"ok\",\"role\":\"assistant\"},\"index\":0,\"logprobs\":null}]}";
    assert_eq!(push_one(payload).unwrap(), vec!["ok"]);
}

#[test]
fn string_escapes_are_decoded() {
    let payload = valid("{\"content\":\"a\\n\\t\\\"b\\\\c\\u0041\"}", "");
    assert_eq!(push_one(&payload).unwrap(), vec!["a\n\t\"b\\cA"]);
}

#[test]
fn surrogate_pair_escape_is_decoded() {
    let payload = valid("{\"content\":\"\\ud83d\\ude00\"}", "");
    assert_eq!(push_one(&payload).unwrap(), vec!["\u{1f600}"]);
}

#[test]
fn lone_surrogate_is_rejected() {
    expect_payload_error(&valid("{\"content\":\"\\ud83d\"}", ""));
}

#[test]
fn unescaped_control_character_is_rejected() {
    expect_payload_error(&valid("{\"content\":\"a\u{1}b\"}", ""));
}

#[test]
fn trailing_garbage_is_rejected() {
    expect_payload_error(&format!("{} junk", valid("{}", "")));
}

#[test]
fn only_first_choice_content_is_emitted() {
    let payload = "{\"id\":\"1\",\"object\":\"x\",\"created\":0,\"model\":\"m\",\"choices\":[{\"delta\":{\"content\":\"first\"},\"index\":0},{\"delta\":{\"content\":\"second\"},\"index\":1}]}";
    assert_eq!(push_one(payload).unwrap(), vec!["first"]);
}

#[test]
fn non_ascii_content_passes_through() {
    let payload = valid("{\"content\":\"héllo \u{1f600}\"}", "");
    assert_eq!(push_one(&payload).unwrap(), vec!["héllo \u{1f600}"]);
}
