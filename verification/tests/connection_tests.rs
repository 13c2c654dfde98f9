//! Tests for serial assignment, reply matching and URI resolution.

use libvirt_rpc::connection::{
    resolve_uri, session_socket_path, ConnectionCore, Error, ReplyAction, SocketTarget,
};
use libvirt_rpc::packet::{MessageType, Packet, Status};

fn reply(serial: i32, status: Status, payload: &[u8]) -> Packet {
    Packet {
        program: 0x20008086,
        version: 1,
        procedure: 0,
        msg_type: MessageType::Reply,
        serial,
        status,
        payload: payload.to_vec(),
    }
}

#[test]
fn test_serials_start_at_one_and_grow() {
    let mut core = ConnectionCore::new();
    assert_eq!(core.next_serial(), 1);
    assert_eq!(core.next_serial(), 2);
    assert_eq!(core.next_serial(), 3);
}

#[test]
fn test_concurrent_dispatch_reversed_replies() {
    // Two calls in quick succession get distinct serials; replies
    // arriving in reversed order still reach their own callers.
    let mut core = ConnectionCore::new();
    let s1 = core.next_serial();
    core.register(s1, 101);
    let s2 = core.next_serial();
    core.register(s2, 102);
    assert_ne!(s1, s2);

    let a2 = core.handle_packet(reply(s2, Status::Okay, b"second"));
    assert_eq!(a2, ReplyAction::DeliverOk(102, b"second".to_vec()));
    let a1 = core.handle_packet(reply(s1, Status::Okay, b"first"));
    assert_eq!(a1, ReplyAction::DeliverOk(101, b"first".to_vec()));
}

#[test]
fn test_error_reply_delivered_as_error() {
    let mut core = ConnectionCore::new();
    let s = core.next_serial();
    core.register(s, 7);
    let action = core.handle_packet(reply(s, Status::Error, b"boom"));
    assert_eq!(action, ReplyAction::DeliverErr(7, b"boom".to_vec()));
}

#[test]
fn test_unknown_serial_ignored() {
    let mut core = ConnectionCore::new();
    let s = core.next_serial();
    core.register(s, 7);
    let action = core.handle_packet(reply(s + 1, Status::Okay, b"stray"));
    assert_eq!(action, ReplyAction::Ignore);
    // The registered call is still outstanding.
    assert!(core.has_pending(s));
}

#[test]
fn test_events_and_streams_ignored() {
    let mut core = ConnectionCore::new();
    let s = core.next_serial();
    core.register(s, 7);
    let mut event = reply(s, Status::Okay, b"");
    event.msg_type = MessageType::Message;
    assert_eq!(core.handle_packet(event), ReplyAction::Ignore);
    assert!(core.has_pending(s));
}

#[test]
fn test_abandoned_waiter_taken_cleanly() {
    let mut core = ConnectionCore::new();
    let s = core.next_serial();
    core.register(s, 7);
    assert_eq!(core.take(s), Some(7));
    assert_eq!(core.take(s), None);
}

#[test]
fn test_drain_fans_out_every_waiter() {
    let mut core = ConnectionCore::new();
    let s1 = core.next_serial();
    core.register(s1, 11);
    let s2 = core.next_serial();
    core.register(s2, 12);
    let waiters = core.drain();
    assert_eq!(waiters, vec![11, 12]);
    assert!(!core.has_pending(s1));
    assert!(!core.has_pending(s2));
}

#[test]
fn test_resolve_uri_targets() {
    assert_eq!(
        resolve_uri("qemu:///system").unwrap(),
        SocketTarget::System
    );
    assert_eq!(
        resolve_uri("qemu:///session").unwrap(),
        SocketTarget::Session
    );
    assert_eq!(
        resolve_uri("/var/run/libvirt/libvirt-sock").unwrap(),
        SocketTarget::Path(b"/var/run/libvirt/libvirt-sock".to_vec())
    );
    assert_eq!(
        resolve_uri("unix:///tmp/custom.sock").unwrap(),
        SocketTarget::Path(b"/tmp/custom.sock".to_vec())
    );
}

#[test]
fn test_resolve_uri_matches_scheme_not_substring() {
    // A URI of another scheme is refused even when qemu-like text
    // occurs inside it.
    assert!(matches!(
        resolve_uri("test://x///system"),
        Err(Error::UnsupportedUri(_))
    ));
    assert!(matches!(
        resolve_uri("qemu:///system/extra"),
        Err(Error::UnsupportedUri(_))
    ));
}

#[test]
fn test_resolve_uri_rejects_unknown_scheme() {
    match resolve_uri("ssh://host/system") {
        Err(Error::UnsupportedUri(u)) => assert_eq!(u, "ssh://host/system"),
        other => panic!("expected UnsupportedUri, got {:?}", other),
    }
}

#[test]
fn test_session_socket_path_join() {
    assert_eq!(
        session_socket_path("/run/user/1000"),
        "/run/user/1000/libvirt/libvirt-sock"
    );
}
