use athas_core::correlate::{Dispatch, PendingTable};
use athas_core::handshake::{
    handshake_step, is_ready, HandshakeEvent, HandshakePhase,
};

#[test]
fn ids_grow_and_never_repeat() {
    let mut t = PendingTable::new();
    let a = t.allocate();
    let b = t.allocate();
    let c = t.allocate();
    assert_eq!((a, b, c), (1, 2, 3));
    assert_eq!(t.pending, vec![1, 2, 3]);
}

#[test]
fn completing_removes_exactly_the_waiting_id() {
    let mut t = PendingTable::new();
    t.allocate();
    t.allocate();
    t.allocate();
    assert!(t.complete(2));
    assert_eq!(t.pending, vec![1, 3]);
    assert!(!t.complete(2));
    assert_eq!(t.pending, vec![1, 3]);
    assert!(!t.complete(99));
}

#[test]
fn failing_all_drains_in_order() {
    let mut t = PendingTable::new();
    t.allocate();
    t.allocate();
    t.allocate();
    t.complete(2);
    let drained = t.fail_all();
    assert_eq!(drained, vec![1, 3]);
    assert!(t.pending.is_empty());
    // ids keep growing after a drain; nothing is reused
    assert_eq!(t.allocate(), 4);
}

#[test]
fn incoming_messages_are_routed_by_id() {
    let mut t = PendingTable::new();
    let id = t.allocate();
    assert!(matches!(t.dispatch_incoming(None), Dispatch::Notify));
    assert_eq!(t.pending, vec![id]);
    assert!(matches!(t.dispatch_incoming(Some(77)), Dispatch::Unmatched));
    assert_eq!(t.pending, vec![id]);
    assert!(matches!(t.dispatch_incoming(Some(id)), Dispatch::Resolve));
    assert!(t.pending.is_empty());
}

use HandshakeEvent::{InitializeErr, InitializeOk, ProcessExited, SendInitialize};
use HandshakePhase::{Failed, InitializeSent, Ready, Uninitialized};

#[test]
fn handshake_reaches_ready_only_through_success() {
    let sent = handshake_step(Uninitialized, SendInitialize);
    assert_eq!(sent, InitializeSent);
    assert_eq!(handshake_step(sent, InitializeOk), Ready);
    assert_eq!(handshake_step(sent, InitializeErr), Failed);
    // a dead process fails the instance from any phase
    assert_eq!(handshake_step(Uninitialized, ProcessExited), Failed);
    assert_eq!(handshake_step(InitializeSent, ProcessExited), Failed);
    assert_eq!(handshake_step(Ready, ProcessExited), Failed);
    // nothing brings a failed instance back
    assert_eq!(handshake_step(Failed, InitializeOk), Failed);
    assert_eq!(handshake_step(Failed, SendInitialize), Failed);
    // events that make no sense change nothing
    assert_eq!(handshake_step(Uninitialized, InitializeOk), Uninitialized);
    assert_eq!(handshake_step(Ready, InitializeOk), Ready);
    assert!(is_ready(Ready));
    assert!(!is_ready(InitializeSent));
}
