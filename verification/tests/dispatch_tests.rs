use relay::conn::ConnectionSet;
use relay::dispatch::PassEvent;

fn target_fds(b: &relay::dispatch::Broadcast) -> Vec<i32> {
    b.targets.iter().map(|c| c.fd).collect()
}

#[test]
fn three_clients_relay_scenario() {
    // The chat-relay scenario, on the verified core: listener bootstrapped,
    // three clients connect, one speaks, one leaves, the first speaks again.
    let mut s = ConnectionSet::new(3);

    // Pass 1: the listener is ready three times over; c1=4, c2=5, c3=6 join.
    let joins = vec![
        PassEvent::Accepted(4),
        PassEvent::Accepted(5),
        PassEvent::Accepted(6),
    ];
    let bcasts = s.dispatch(&joins);
    assert!(bcasts.is_empty());
    assert_eq!(s.client_count(), 3);

    // Pass 2: c1 sends "hello\n"; exactly c2 and c3 receive exactly it.
    let talk = vec![PassEvent::ClientData(4, b"hello\n".to_vec())];
    let bcasts = s.dispatch(&talk);
    assert_eq!(bcasts.len(), 1);
    assert_eq!(bcasts[0].origin, 4);
    assert_eq!(target_fds(&bcasts[0]), vec![5, 6]);
    assert_eq!(bcasts[0].bytes, b"hello\n".to_vec());

    // Pass 3: c2 closes.
    let close = vec![PassEvent::ClientClosed(5)];
    let bcasts = s.dispatch(&close);
    assert!(bcasts.is_empty());
    assert_eq!(s.client_count(), 2);

    // Pass 4: c1 sends "bye\n"; only c3 receives it.
    let talk = vec![PassEvent::ClientData(4, b"bye\n".to_vec())];
    let bcasts = s.dispatch(&talk);
    assert_eq!(bcasts.len(), 1);
    assert_eq!(target_fds(&bcasts[0]), vec![6]);
    assert_eq!(bcasts[0].bytes, b"bye\n".to_vec());
}

#[test]
fn sender_never_receives_its_own_bytes() {
    let mut s = ConnectionSet::new(3);
    s.add(4);
    s.add(5);
    let talk = vec![PassEvent::ClientData(4, vec![1, 2, 3])];
    let bcasts = s.dispatch(&talk);
    assert_eq!(bcasts.len(), 1);
    assert!(!target_fds(&bcasts[0]).contains(&4));
    assert!(!target_fds(&bcasts[0]).contains(&3));
}

#[test]
fn fan_out_reaches_every_other_client() {
    let mut s = ConnectionSet::new(3);
    for fd in 4..9 {
        s.add(fd);
    }
    let talk = vec![PassEvent::ClientData(6, vec![42])];
    let bcasts = s.dispatch(&talk);
    assert_eq!(target_fds(&bcasts[0]), vec![4, 5, 7, 8]);
    assert_eq!(bcasts[0].bytes, vec![42]);
}

#[test]
fn client_accepted_mid_pass_misses_that_pass_only() {
    let mut s = ConnectionSet::new(3);
    s.add(4);
    s.add(5);

    // Accept of 7 and c1's message arrive in one readiness window: 7 is
    // added first in sweep order, yet the broadcast misses it.
    let pass = vec![
        PassEvent::Accepted(7),
        PassEvent::ClientData(4, b"hi\n".to_vec()),
    ];
    let bcasts = s.dispatch(&pass);
    assert_eq!(bcasts.len(), 1);
    assert_eq!(target_fds(&bcasts[0]), vec![5]);
    assert!(s.contains_fd(7));

    // The very next pass reaches 7 like any other client.
    let pass = vec![PassEvent::ClientData(4, b"again\n".to_vec())];
    let bcasts = s.dispatch(&pass);
    assert_eq!(target_fds(&bcasts[0]), vec![5, 7]);
}

#[test]
fn client_closed_mid_pass_gets_no_later_broadcast() {
    let mut s = ConnectionSet::new(3);
    s.add(4);
    s.add(5);
    s.add(6);
    let pass = vec![
        PassEvent::ClientClosed(5),
        PassEvent::ClientData(4, b"x".to_vec()),
    ];
    let bcasts = s.dispatch(&pass);
    assert_eq!(bcasts.len(), 1);
    assert_eq!(target_fds(&bcasts[0]), vec![6]);
    assert!(!s.contains_fd(5));
}

#[test]
fn failed_accept_changes_nothing() {
    let mut s = ConnectionSet::new(3);
    s.add(4);
    let pass = vec![PassEvent::AcceptFailed, PassEvent::ClientData(4, vec![9])];
    let bcasts = s.dispatch(&pass);
    assert_eq!(s.client_count(), 1);
    assert_eq!(bcasts.len(), 1);
    assert!(target_fds(&bcasts[0]).is_empty());
}

#[test]
fn lone_client_broadcast_reaches_nobody() {
    let mut s = ConnectionSet::new(3);
    s.add(4);
    let pass = vec![PassEvent::ClientData(4, b"alone\n".to_vec())];
    let bcasts = s.dispatch(&pass);
    assert_eq!(bcasts.len(), 1);
    assert!(bcasts[0].targets.is_empty());
    assert_eq!(bcasts[0].bytes, b"alone\n".to_vec());
}

#[test]
fn empty_pass_is_a_no_op() {
    let mut s = ConnectionSet::new(3);
    s.add(4);
    let bcasts = s.dispatch(&Vec::new());
    assert!(bcasts.is_empty());
    assert_eq!(s.len(), 2);
}

#[test]
fn two_senders_in_one_pass_keep_their_own_bytes() {
    let mut s = ConnectionSet::new(3);
    s.add(4);
    s.add(5);
    s.add(6);
    let pass = vec![
        PassEvent::ClientData(4, b"from four\n".to_vec()),
        PassEvent::ClientData(5, b"from five\n".to_vec()),
    ];
    let bcasts = s.dispatch(&pass);
    assert_eq!(bcasts.len(), 2);
    assert_eq!(bcasts[0].origin, 4);
    assert_eq!(target_fds(&bcasts[0]), vec![5, 6]);
    assert_eq!(bcasts[0].bytes, b"from four\n".to_vec());
    assert_eq!(bcasts[1].origin, 5);
    assert_eq!(target_fds(&bcasts[1]), vec![4, 6]);
    assert_eq!(bcasts[1].bytes, b"from five\n".to_vec());
}
