//! The fan-out registry: subscription, broadcast targeting, failure
//! pruning, liveness pruning and count replies.

use message_board::messages::FullMessage;
use message_board::registry::Registry;
use message_board::user::User;
use message_board::wire::WsPayload;

fn user(id: u128, admin: bool) -> User {
    User { id, code: String::from("c"), admin, banned: false }
}

fn msg(author: u128, content: &str, published: bool) -> FullMessage {
    FullMessage {
        id: 1000 + author,
        content: String::from(content),
        author,
        published,
        score_milli: 0,
        created_at_ms: 42,
    }
}

#[test]
fn broadcast_excludes_author() {
    let mut reg = Registry::new();
    reg.subscribe(1, user(11, false));
    reg.subscribe(2, user(22, false));
    reg.subscribe(3, user(33, true));
    // Three connections, the author owning one: exactly two attempts.
    let deliveries = reg.build_broadcast(&msg(22, "hi", true), false);
    let ids: Vec<u64> = deliveries.iter().map(|d| d.0).collect();
    assert_eq!(ids, vec![1, 3]);
}

#[test]
fn update_broadcast_skips_admins() {
    let mut reg = Registry::new();
    reg.subscribe(1, user(11, false));
    reg.subscribe(2, user(22, false));
    reg.subscribe(3, user(33, true));
    let deliveries = reg.build_broadcast(&msg(22, "hi", false), true);
    let ids: Vec<u64> = deliveries.iter().map(|d| d.0).collect();
    assert_eq!(ids, vec![1]);
}

#[test]
fn failed_connection_not_attempted_again() {
    let mut reg = Registry::new();
    reg.subscribe(1, user(11, false));
    reg.subscribe(2, user(22, false));
    reg.subscribe(3, user(33, false));
    let first = reg.build_broadcast(&msg(11, "one", true), false);
    assert_eq!(first.len(), 2);
    // The send on connection 2 failed once: it is pruned, and the next
    // broadcast no longer attempts it.
    reg.apply_send_failures(&vec![2u64]);
    assert_eq!(reg.count(), 2);
    let second = reg.build_broadcast(&msg(11, "two", true), false);
    let ids: Vec<u64> = second.iter().map(|d| d.0).collect();
    assert_eq!(ids, vec![3]);
}

#[test]
fn failure_prunes_only_that_connection() {
    // One owner, two live connections: a failure on one leaves the
    // other registered and still targeted.
    let mut reg = Registry::new();
    reg.subscribe(1, user(22, false));
    reg.subscribe(2, user(22, false));
    reg.subscribe(3, user(33, false));
    reg.apply_send_failures(&vec![1u64]);
    assert_eq!(reg.count(), 2);
    let deliveries = reg.build_broadcast(&msg(33, "hi", true), false);
    let ids: Vec<u64> = deliveries.iter().map(|d| d.0).collect();
    assert_eq!(ids, vec![2]);
}

#[test]
fn hidden_message_reaches_admins_only() {
    // A freshly hidden message is fanned out, but only admins may see
    // it: the normal recipient is not even a target.
    let mut reg = Registry::new();
    reg.subscribe(1, user(11, false));
    reg.subscribe(2, user(33, true));
    let deliveries = reg.build_broadcast(&msg(99, "hidden words", false), false);
    assert_eq!(deliveries.len(), 1);
    assert_eq!(deliveries[0].0, 2);
    assert!(matches!(deliveries[0].1, WsPayload::Text(_)));
}

#[test]
fn payload_kind_matches_recipient() {
    let mut reg = Registry::new();
    reg.subscribe(1, user(11, false));
    reg.subscribe(2, user(33, true));
    let deliveries = reg.build_broadcast(&msg(99, "hi", true), false);
    assert_eq!(deliveries.len(), 2);
    assert!(matches!(deliveries[0].1, WsPayload::Binary(_)));
    assert!(matches!(deliveries[1].1, WsPayload::Text(_)));
}

#[test]
fn count_reply_finds_first_connection() {
    let mut reg = Registry::new();
    reg.subscribe(1, user(11, false));
    reg.subscribe(2, user(22, true));
    reg.subscribe(3, user(22, true));
    let (conn, payload) = reg.count_reply(22).expect("user 22 is connected");
    assert_eq!(conn, 2);
    assert_eq!(payload, "{\"count\":3}");
    assert!(reg.count_reply(44).is_none());
}

#[test]
fn prune_notifies_admins_only_on_change() {
    let mut reg = Registry::new();
    reg.subscribe(1, user(11, false));
    reg.subscribe(2, user(22, true));
    reg.subscribe(3, user(33, false));
    // Nothing dead: nothing pruned, nobody notified.
    assert!(reg.apply_prune(&vec![9u64]).is_none());
    assert_eq!(reg.count(), 3);
    // Connection 3 found dead: pruned, and the admin connection is
    // told the new count.
    let (admins, payload) = reg.apply_prune(&vec![3u64]).expect("the count changed");
    assert_eq!(admins, vec![2u64]);
    assert_eq!(payload, "{\"count\":2}");
    assert_eq!(reg.count(), 2);
}
