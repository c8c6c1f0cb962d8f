use example_chat::message::ChatMessage;
use example_chat::message::MessageError;
use example_chat::message::ReceivedMessage;
use example_chat::message::MAX_MESSAGE_SIZE;

#[test]
fn parse_rejects_empty_input() {
    let r = ReceivedMessage::try_new("");
    assert!(matches!(r, Err(MessageError::EmptyBody)));
}

#[test]
fn parse_rejects_whitespace_only_input() {
    let r = ReceivedMessage::try_new("  \t\r\n   ");
    assert!(matches!(r, Err(MessageError::EmptyBody)));
}

#[test]
fn parse_rejects_malformed_json() {
    let r = ReceivedMessage::try_new("{\"username\": oops");
    assert!(matches!(r, Err(MessageError::EmptyBody)));
    let r2 = ReceivedMessage::try_new("not json at all");
    assert!(matches!(r2, Err(MessageError::EmptyBody)));
}

#[test]
fn parse_extracts_username_and_content() {
    let r = ReceivedMessage::try_new("  {\"username\":\"x\",\"content\":\"hello\"}  ").unwrap();
    assert_eq!(r.username, "x");
    assert_eq!(r.content, "hello");
}

#[test]
fn parse_defaults_missing_fields_to_empty() {
    let r = ReceivedMessage::try_new("{\"content\":\"hi\"}").unwrap();
    assert_eq!(r.username, "");
    assert_eq!(r.content, "hi");
    let r2 = ReceivedMessage::try_new("{\"username\":\"y\"}").unwrap();
    assert_eq!(r2.username, "y");
    assert_eq!(r2.content, "");
}

#[test]
fn parse_non_string_fields_default_to_empty() {
    let r = ReceivedMessage::try_new("{\"username\":7,\"content\":[1]}").unwrap();
    assert_eq!(r.username, "");
    assert_eq!(r.content, "");
}

#[test]
fn to_json_renders_all_fields() {
    let m = ChatMessage::from_parts(
        "id1".to_string(),
        "alice".to_string(),
        "hi".to_string(),
        "2020-01-01T00:00:00.000Z".to_string(),
    )
    .unwrap();
    assert_eq!(
        m.to_json(),
        "{\"id\":\"id1\",\"username\":\"alice\",\"body\":\"hi\",\"sent_at\":\"2020-01-01T00:00:00.000Z\"}"
    );
}

#[test]
fn to_json_escapes_quotes_backslashes_and_controls() {
    let m = ChatMessage::from_parts(
        "i".to_string(),
        "u".to_string(),
        "a\"b\\c\nd\te\u{1}f".to_string(),
        "t".to_string(),
    )
    .unwrap();
    assert_eq!(
        m.to_json(),
        "{\"id\":\"i\",\"username\":\"u\",\"body\":\"a\\\"b\\\\c\\nd\\te\\u0001f\",\"sent_at\":\"t\"}"
    );
}

#[test]
fn size_cap_boundary_is_exact() {
    // Fixed framing is 46 bytes; one-byte id, username and timestamp leave
    // 975 bytes for the body.
    let body_ok = "x".repeat(975);
    let ok = ChatMessage::from_parts(
        "i".to_string(),
        "u".to_string(),
        body_ok,
        "t".to_string(),
    );
    let m = ok.unwrap();
    assert_eq!(m.to_json().len(), MAX_MESSAGE_SIZE);

    let body_big = "x".repeat(976);
    let too_big = ChatMessage::from_parts(
        "i".to_string(),
        "u".to_string(),
        body_big,
        "t".to_string(),
    );
    assert!(matches!(too_big, Err(MessageError::MessageTooLarge)));
}

#[test]
fn escapes_count_toward_the_cap() {
    // Each quote in the body costs two serialized bytes.
    let body = "\"".repeat(490);
    let r = ChatMessage::from_parts("i".to_string(), "u".to_string(), body, "t".to_string());
    assert!(matches!(r, Err(MessageError::MessageTooLarge)));
}

#[test]
fn assert_size_accepts_small_messages() {
    let m = ChatMessage::from_parts(
        "i".to_string(),
        "u".to_string(),
        "hello".to_string(),
        "t".to_string(),
    )
    .unwrap();
    assert!(m.assert_size().is_ok());
    assert!(m.to_json().len() <= MAX_MESSAGE_SIZE);
}

#[test]
fn try_new_assigns_fresh_id_and_timestamp() {
    let a = ChatMessage::try_new("alice".to_string(), "hello".to_string()).unwrap();
    let b = ChatMessage::try_new("alice".to_string(), "hello".to_string()).unwrap();
    assert_eq!(a.username, "alice");
    assert_eq!(a.body, "hello");
    assert_eq!(a.id.len(), 36);
    assert_eq!(b.id.len(), 36);
    assert_ne!(a.id, b.id);
    assert!(a.sent_at.len() <= 27);
    assert!(a.to_json().len() <= MAX_MESSAGE_SIZE);
}

#[test]
fn try_new_rejects_oversized_content() {
    let body = "x".repeat(1200);
    let r = ChatMessage::try_new("alice".to_string(), body);
    assert!(matches!(r, Err(MessageError::MessageTooLarge)));
}

#[test]
fn to_chat_message_uses_server_identity() {
    let rm = ReceivedMessage::try_new("{\"username\":\"impostor\",\"content\":\"hi\"}").unwrap();
    let m = rm.to_chat_message("user_abc123".to_string()).unwrap();
    assert_eq!(m.username, "user_abc123");
    assert_eq!(m.body, "hi");
}
