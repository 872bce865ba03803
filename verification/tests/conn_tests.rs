use relay::conn::{Connection, ConnectionSet, Role};
use relay::multiplex::ReadinessReport;

#[test]
fn new_set_holds_only_listener() {
    let s = ConnectionSet::new(3);
    assert_eq!(s.len(), 1);
    assert_eq!(s.client_count(), 0);
    let l = s.listener();
    assert_eq!(l.fd, 3);
    assert_eq!(l.role, Role::Listener);
    assert!(s.contains_fd(3));
    assert!(!s.contains_fd(4));
}

#[test]
fn add_appends_clients_in_order() {
    let mut s = ConnectionSet::new(3);
    assert!(s.add(4));
    assert!(s.add(5));
    assert_eq!(s.len(), 3);
    assert_eq!(s.client_count(), 2);
    let snap = s.iterate();
    assert_eq!(snap[0], Connection { fd: 3, role: Role::Listener });
    assert_eq!(snap[1], Connection { fd: 4, role: Role::Client });
    assert_eq!(snap[2], Connection { fd: 5, role: Role::Client });
}

#[test]
fn add_refuses_live_descriptor() {
    let mut s = ConnectionSet::new(3);
    assert!(s.add(4));
    assert!(!s.add(4));
    assert!(!s.add(3));
    assert_eq!(s.len(), 2);
}

#[test]
fn remove_drops_one_client_and_keeps_order() {
    let mut s = ConnectionSet::new(3);
    s.add(4);
    s.add(5);
    s.add(6);
    s.remove(5);
    assert_eq!(s.client_count(), 2);
    assert!(!s.contains_fd(5));
    let snap = s.iterate();
    assert_eq!(snap[0].fd, 3);
    assert_eq!(snap[1].fd, 4);
    assert_eq!(snap[2].fd, 6);
}

#[test]
fn remove_never_touches_listener() {
    let mut s = ConnectionSet::new(3);
    s.add(4);
    s.remove(3);
    assert!(s.contains_fd(3));
    assert_eq!(s.listener().fd, 3);
    assert_eq!(s.len(), 2);
}

#[test]
fn remove_absent_is_idempotent_no_op() {
    let mut s = ConnectionSet::new(3);
    s.add(4);
    s.add(5);
    let before = s.iterate();
    s.remove(9);
    s.remove(9);
    let after = s.iterate();
    assert_eq!(before, after);
    s.remove(4);
    let once = s.iterate();
    s.remove(4);
    let twice = s.iterate();
    assert_eq!(once, twice);
    assert_eq!(s.client_count(), 1);
}

#[test]
fn iterate_is_a_snapshot() {
    let mut s = ConnectionSet::new(3);
    s.add(4);
    let snap = s.iterate();
    s.add(5);
    assert_eq!(snap.len(), 2);
    assert_eq!(s.len(), 3);
}

#[test]
fn contains_conn_checks_identity() {
    let mut s = ConnectionSet::new(3);
    s.add(4);
    assert!(s.contains_conn(Connection { fd: 4, role: Role::Client }));
    assert!(!s.contains_conn(Connection { fd: 4, role: Role::Listener }));
    assert!(s.contains_conn(Connection { fd: 3, role: Role::Listener }));
    assert!(!s.contains_conn(Connection { fd: 9, role: Role::Client }));
}

#[test]
fn readiness_report_starts_all_unready() {
    let r = ReadinessReport::new(4);
    assert_eq!(r.len(), 4);
    for i in 0..4 {
        assert!(!r.is_ready(i));
    }
}

#[test]
fn readiness_report_marks_one_position() {
    let mut r = ReadinessReport::new(3);
    r.mark_ready(1);
    assert!(!r.is_ready(0));
    assert!(r.is_ready(1));
    assert!(!r.is_ready(2));
}
