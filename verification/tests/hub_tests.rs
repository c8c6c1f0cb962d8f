use example_chat::hub::Hub;
use example_chat::message::ChatMessage;

fn msg(id: &str, body: &str) -> ChatMessage {
    ChatMessage::from_parts(
        id.to_string(),
        "user_000000".to_string(),
        body.to_string(),
        "t".to_string(),
    )
    .unwrap()
}

#[test]
fn every_subscriber_receives_in_publish_order() {
    let mut hub = Hub::new(100);
    let s1 = hub.subscribe();
    let s2 = hub.subscribe();
    let s3 = hub.subscribe();
    hub.publish(&msg("m1", "first"));
    hub.publish(&msg("m2", "second"));
    for s in [s1, s2, s3] {
        let a = hub.recv(s).unwrap();
        let b = hub.recv(s).unwrap();
        assert_eq!(a.id, "m1");
        assert_eq!(b.id, "m2");
        assert!(hub.recv(s).is_none());
    }
}

#[test]
fn subscription_sees_only_later_messages() {
    let mut hub = Hub::new(100);
    let early = hub.subscribe();
    hub.publish(&msg("m1", "before"));
    let late = hub.subscribe();
    hub.publish(&msg("m2", "after"));
    assert_eq!(hub.recv(early).unwrap().id, "m1");
    assert_eq!(hub.recv(early).unwrap().id, "m2");
    assert_eq!(hub.recv(late).unwrap().id, "m2");
    assert!(hub.recv(late).is_none());
}

#[test]
fn lagging_subscriber_drops_oldest_and_blocks_nobody() {
    let mut hub = Hub::new(2);
    let lagging = hub.subscribe();
    let healthy = hub.subscribe();
    hub.publish(&msg("m1", "a"));
    hub.publish(&msg("m2", "b"));
    // The healthy subscriber drains; the lagging one does not.
    assert_eq!(hub.recv(healthy).unwrap().id, "m1");
    assert_eq!(hub.recv(healthy).unwrap().id, "m2");
    // The lagging buffer is full; this publish must still reach everyone.
    hub.publish(&msg("m3", "c"));
    assert_eq!(hub.recv(healthy).unwrap().id, "m3");
    // The lagging subscriber lost its oldest message, nothing else.
    assert_eq!(hub.recv(lagging).unwrap().id, "m2");
    assert_eq!(hub.recv(lagging).unwrap().id, "m3");
    assert!(hub.recv(lagging).is_none());
}

#[test]
fn publish_with_no_subscribers_is_a_no_op() {
    let mut hub = Hub::new(100);
    hub.publish(&msg("m1", "nobody listens"));
    let s = hub.subscribe();
    assert!(hub.recv(s).is_none());
}

#[test]
fn unsubscribe_releases_the_handle() {
    let mut hub = Hub::new(100);
    let s1 = hub.subscribe();
    let s2 = hub.subscribe();
    hub.publish(&msg("m1", "a"));
    hub.unsubscribe(s1);
    hub.publish(&msg("m2", "b"));
    assert_eq!(hub.recv(s2).unwrap().id, "m1");
    assert_eq!(hub.recv(s2).unwrap().id, "m2");
}
