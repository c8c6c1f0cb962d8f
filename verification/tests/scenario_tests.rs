use example_chat::fingerprinter::username_from_fingerprint;
use example_chat::message::ChatMessage;
use example_chat::state::AppState;

fn stored(id: &str, user: &str, body: &str, at: &str) -> ChatMessage {
    ChatMessage::from_parts(
        id.to_string(),
        user.to_string(),
        body.to_string(),
        at.to_string(),
    )
    .unwrap()
}

#[test]
fn connect_replays_history_then_welcomes() {
    let mut state = AppState::new(100);
    let fingerprint = "198.51.100.7Mozilla/5.0".to_string();
    let history = vec![
        stored("h1", "user_aaaaaa", "first stored", "t1"),
        stored("h2", "user_bbbbbb", "second stored", "t2"),
    ];
    let (identity, frames, _handle) = state.connect(&fingerprint, &history);
    assert_eq!(identity, username_from_fingerprint(&fingerprint));
    assert_eq!(frames.len(), 3);
    assert!(frames[0].contains("\"id\":\"h1\""));
    assert!(frames[1].contains("\"id\":\"h2\""));
    assert!(frames[2].contains(&format!("\"username\":\"{}\"", identity)));
    assert!(frames[2].contains("Welcome to the chat!"));
}

#[test]
fn identity_is_cached_across_connections() {
    let mut state = AppState::new(100);
    let fingerprint = "203.0.113.9agent".to_string();
    let (first, _, _) = state.connect(&fingerprint, &Vec::new());
    let (second, _, _) = state.connect(&fingerprint, &Vec::new());
    assert_eq!(first, second);
}

#[test]
fn accepted_message_reaches_every_subscriber_including_sender() {
    let mut state = AppState::new(100);
    let fp_sender = "192.0.2.1sender-agent".to_string();
    let fp_other = "192.0.2.2other-agent".to_string();
    let (identity, _, sender_sub) = state.connect(&fp_sender, &Vec::new());
    let (_, _, other_sub) = state.connect(&fp_other, &Vec::new());

    let raw = "{\"username\":\"x\",\"content\":\"hello\"}".to_string();
    let accepted = state.inbound_step(&identity, &raw, 1_000).unwrap();
    assert_eq!(accepted.username, identity);
    assert_eq!(accepted.body, "hello");
    assert_eq!(accepted.id.len(), 36);

    for sub in [sender_sub, other_sub] {
        let got = state.hub.recv(sub).unwrap();
        assert_eq!(got.id, accepted.id);
        assert_eq!(got.username, identity);
        assert_eq!(got.body, "hello");
        assert!(state.hub.recv(sub).is_none());
    }
}

#[test]
fn oversized_content_is_dropped_silently() {
    let mut state = AppState::new(100);
    let fp = "192.0.2.3big-agent".to_string();
    let (identity, _, sub) = state.connect(&fp, &Vec::new());

    let big = "x".repeat(1200);
    let raw = format!("{{\"username\":\"x\",\"content\":\"{}\"}}", big);
    let r = state.inbound_step(&identity, &raw, 1_000);
    assert!(r.is_none());
    assert!(state.hub.recv(sub).is_none());
}

#[test]
fn second_message_within_the_interval_is_dropped() {
    let mut state = AppState::new(100);
    let fp = "192.0.2.4fast-agent".to_string();
    let (identity, _, sub) = state.connect(&fp, &Vec::new());

    let raw1 = "{\"username\":\"x\",\"content\":\"one\"}".to_string();
    let raw2 = "{\"username\":\"x\",\"content\":\"two\"}".to_string();
    assert!(state.inbound_step(&identity, &raw1, 1_000).is_some());
    assert!(state.inbound_step(&identity, &raw2, 1_100).is_none());

    let got = state.hub.recv(sub).unwrap();
    assert_eq!(got.body, "one");
    assert!(state.hub.recv(sub).is_none());

    // Spaced out far enough, the next message goes through.
    assert!(state.inbound_step(&identity, &raw2, 1_300).is_some());
    assert_eq!(state.hub.recv(sub).unwrap().body, "two");
}

#[test]
fn unparseable_payload_neither_publishes_nor_throttles() {
    let mut state = AppState::new(100);
    let fp = "192.0.2.5noise-agent".to_string();
    let (identity, _, sub) = state.connect(&fp, &Vec::new());

    assert!(state.inbound_step(&identity, &"   ".to_string(), 1_000).is_none());
    assert!(state.inbound_step(&identity, &"{broken".to_string(), 1_001).is_none());
    // The failed attempts did not consume the rate-limit window.
    let raw = "{\"username\":\"x\",\"content\":\"ok\"}".to_string();
    assert!(state.inbound_step(&identity, &raw, 1_002).is_some());
    assert_eq!(state.hub.recv(sub).unwrap().body, "ok");
}
