use rori_utils::data::{DecodeError, RoriData};

fn msg(author: &str, content: &str, client: &str, datatype: &str, secret: &str) -> RoriData {
    RoriData::new(
        String::from(author),
        String::from(content),
        String::from(client),
        String::from(datatype),
        String::from(secret),
    )
}

#[test]
fn encode_exact_text() {
    let m = msg("u", "hi", "c", "text", "sec");
    assert_eq!(
        m.to_string(),
        "{\n  \"author\":\"u\",\n  \"content\":\"hi\",\n  \"client\":\"c\",\n  \"datatype\":\"text\",\n  \"secret\":\"sec\"\n}"
    );
}

#[test]
fn round_trip_plain() {
    let m = msg("alice", "hello world", "irc", "text", "s3cret");
    let decoded = RoriData::from_json(m.to_string()).unwrap();
    assert_eq!(decoded, m);
}

#[test]
fn round_trip_empty_fields() {
    let m = msg("", "", "", "", "");
    let decoded = RoriData::from_json(m.to_string()).unwrap();
    assert_eq!(decoded, m);
}

#[test]
fn escaping_quotes_in_payload() {
    let m = msg("a", "say \"hi\" now", "c", "text", "s");
    let payload = m.to_string();
    assert!(payload.contains("say \\\"hi\\\" now"));
    let decoded = RoriData::from_json(payload).unwrap();
    assert_eq!(decoded.content, "say \"hi\" now");
    assert_eq!(decoded, m);
}

#[test]
fn decode_truncated_fails() {
    let payload = msg("u", "hi", "c", "text", "s").to_string();
    for n in 0..payload.len() {
        let cut: String = payload.chars().take(n).collect();
        assert_eq!(
            RoriData::from_json(cut),
            Err(DecodeError::MalformedInput),
            "prefix of length {} decoded",
            n
        );
    }
}

#[test]
fn decode_non_object_fails() {
    assert_eq!(
        RoriData::from_json(String::from("hello")),
        Err(DecodeError::MalformedInput)
    );
    assert_eq!(
        RoriData::from_json(String::new()),
        Err(DecodeError::MalformedInput)
    );
}

#[test]
fn decode_missing_field_fails() {
    let four_fields =
        "{\n  \"author\":\"u\",\n  \"content\":\"hi\",\n  \"client\":\"c\",\n  \"datatype\":\"text\"\n}";
    assert_eq!(
        RoriData::from_json(String::from(four_fields)),
        Err(DecodeError::MalformedInput)
    );
}

#[test]
fn decode_trailing_text_fails() {
    let mut payload = msg("u", "hi", "c", "text", "s").to_string();
    payload.push_str(" ");
    assert_eq!(
        RoriData::from_json(payload),
        Err(DecodeError::MalformedInput)
    );
}

#[test]
fn decode_wrong_field_order_fails() {
    let swapped =
        "{\n  \"content\":\"hi\",\n  \"author\":\"u\",\n  \"client\":\"c\",\n  \"datatype\":\"text\",\n  \"secret\":\"s\"\n}";
    assert_eq!(
        RoriData::from_json(String::from(swapped)),
        Err(DecodeError::MalformedInput)
    );
}

#[test]
fn new_keeps_fields_verbatim() {
    let m = msg("a\"b", "c", "d", "text", "e");
    assert_eq!(m.author, "a\"b");
}
