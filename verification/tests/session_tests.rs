use example_chat::message::ChatMessage;
use example_chat::session::greeting_frames;
use example_chat::session::Session;
use example_chat::session::SessionPhase;

#[test]
fn lifecycle_runs_connecting_to_closed() {
    let mut s = Session::new();
    assert_eq!(s.phase, SessionPhase::Connecting);
    s.handshake_complete();
    assert_eq!(s.phase, SessionPhase::Upgraded);
    s.activate();
    assert_eq!(s.phase, SessionPhase::Active);
    assert!(!s.is_closed());
    s.inbound_ended();
    assert_eq!(s.phase, SessionPhase::Closing);
    assert!(!s.is_closed());
    s.outbound_ended();
    assert_eq!(s.phase, SessionPhase::Closed);
    assert!(s.is_closed());
}

#[test]
fn either_loop_may_end_first() {
    let mut s = Session::new();
    s.handshake_complete();
    s.activate();
    s.outbound_ended();
    assert_eq!(s.phase, SessionPhase::Closing);
    s.inbound_ended();
    assert_eq!(s.phase, SessionPhase::Closed);
}

#[test]
fn greeting_is_history_in_order_then_welcome() {
    let h1 = ChatMessage::from_parts(
        "h1".to_string(),
        "user_aaaaaa".to_string(),
        "older".to_string(),
        "t1".to_string(),
    )
    .unwrap();
    let h2 = ChatMessage::from_parts(
        "h2".to_string(),
        "user_bbbbbb".to_string(),
        "newer".to_string(),
        "t2".to_string(),
    )
    .unwrap();
    let frames = greeting_frames(&vec![h1, h2], &"user_cccccc".to_string());
    assert_eq!(frames.len(), 3);
    assert!(frames[0].contains("\"id\":\"h1\""));
    assert!(frames[0].contains("\"body\":\"older\""));
    assert!(frames[1].contains("\"id\":\"h2\""));
    assert!(frames[1].contains("\"body\":\"newer\""));
    assert!(frames[2].contains("\"username\":\"user_cccccc\""));
    assert!(frames[2].contains("\"body\":\"Welcome to the chat!\""));
}

#[test]
fn greeting_with_empty_history_is_just_the_welcome() {
    let frames = greeting_frames(&Vec::new(), &"user_dddddd".to_string());
    assert_eq!(frames.len(), 1);
    assert!(frames[0].contains("Welcome to the chat!"));
}
