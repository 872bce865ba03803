//! The dispatch step of the relay loop.
//!
//! One loop iteration waits on the multiplexer, services every connection
//! reported ready — accepting on the listener, reading from clients — and
//! records one [`PassEvent`] per serviced connection. [`ConnectionSet::dispatch`]
//! then consumes those events in order: an accepted client joins the set, a
//! closed client leaves it, and received bytes become one [`Broadcast`] to
//! every other client that was live at the start of the pass and still is.
//! The blocking wait and the socket reads, writes and accepts are the
//! embedding program's; everything decided here is verified against the
//! event-by-event transition spelled out by [`pass_state`] and
//! [`pass_bcasts`].

use vstd::prelude::*;
use vstd::seq_lib::*;
use crate::conn::{
    Connection, ConnectionSet, Role, distinct_fds, drop_fd, has_fd, keep_other,
    lemma_drop_fd_absent, lemma_drop_fd_wf, lemma_filter_keeps_distinct, lemma_filter_member,
    lemma_push_client_wf, wf_conns,
};

verus! {

/// One observed outcome of servicing a ready connection during a sweep.
#[derive(Debug, Clone)]
pub enum PassEvent {
    /// An accept on the ready listener succeeded, yielding this client
    /// descriptor.
    Accepted(i32),
    /// An accept on the ready listener failed; the listener stays usable
    /// and the sweep continues.
    AcceptFailed,
    /// A read from this ready client returned these bytes (at least one).
    ClientData(i32, Vec<u8>),
    /// A read from this ready client returned zero bytes (orderly close)
    /// or an error; both mean the client leaves the set.
    ClientClosed(i32),
}

/// One broadcast action the embedding program still has to perform: send
/// `bytes` to each connection in `targets`, which never include the
/// listener or the originating client. A failed send to one target must
/// not stop delivery to the rest.
#[derive(Debug, Clone)]
pub struct Broadcast {
    pub origin: i32,
    pub targets: Vec<Connection>,
    pub bytes: Vec<u8>,
}

/// The mathematical image of one [`Broadcast`].
pub ghost struct BcastRec {
    pub origin: i32,
    pub targets: Seq<Connection>,
    pub bytes: Seq<u8>,
}

/// A broadcast action agrees with its mathematical image.
pub open spec fn bcast_matches(b: Broadcast, m: BcastRec) -> bool {
    b.origin == m.origin && b.targets@ == m.targets && b.bytes@ == m.bytes
}

/// Receives a broadcast from `sender`: a client other than the sender that
/// is still live.
pub open spec fn recip_pred(live: Seq<Connection>, sender: i32) -> spec_fn(Connection) -> bool {
    |c: Connection| c.role is Client && c.fd != sender && live.contains(c)
}

/// The recipients of a broadcast from `sender`: the members of the sweep
/// snapshot, in snapshot order, that are clients other than the sender and
/// are still live when the broadcast happens. Connections accepted after
/// the snapshot are not in it; connections removed since are no longer
/// live: neither receives anything.
pub open spec fn recipients_of(snap: Seq<Connection>, live: Seq<Connection>, sender: i32) -> Seq<
    Connection,
> {
    snap.filter(recip_pred(live, sender))
}

/// How one event changes the connection set.
pub open spec fn step_state(s: Seq<Connection>, ev: PassEvent) -> Seq<Connection> {
    match ev {
        PassEvent::Accepted(fd) => if has_fd(s, fd) {
            s
        } else {
            s.push((Connection { fd, role: Role::Client }))
        },
        PassEvent::AcceptFailed => s,
        PassEvent::ClientData(_, _) => s,
        PassEvent::ClientClosed(fd) => drop_fd(s, fd),
    }
}

/// The broadcasts one event gives rise to, given the current live set and
/// the sweep snapshot.
pub open spec fn step_bcasts(live: Seq<Connection>, snap: Seq<Connection>, ev: PassEvent) -> Seq<
    BcastRec,
> {
    match ev {
        PassEvent::ClientData(fd, m) => seq![
            (BcastRec { origin: fd, targets: recipients_of(snap, live, fd), bytes: m@ }),
        ],
        _ => Seq::empty(),
    }
}

/// The connection set after a whole pass, events applied in order.
pub open spec fn pass_state(s: Seq<Connection>, evs: Seq<PassEvent>) -> Seq<Connection>
    decreases evs.len(),
{
    if evs.len() == 0 {
        s
    } else {
        step_state(pass_state(s, evs.drop_last()), evs.last())
    }
}

/// All broadcasts of a whole pass, in order; each event's broadcasts see
/// the live set as the preceding events left it, and all of them share the
/// one snapshot taken when the pass began.
pub open spec fn pass_bcasts(
    s: Seq<Connection>,
    snap: Seq<Connection>,
    evs: Seq<PassEvent>,
) -> Seq<BcastRec>
    decreases evs.len(),
{
    if evs.len() == 0 {
        Seq::empty()
    } else {
        pass_bcasts(s, snap, evs.drop_last()) + step_bcasts(
            pass_state(s, evs.drop_last()),
            snap,
            evs.last(),
        )
    }
}

/// The event is an accept of descriptor `fd`.
pub open spec fn accepts_fd(ev: PassEvent, fd: i32) -> bool {
    ev matches PassEvent::Accepted(f) && f == fd
}

/// The event is a close of descriptor `fd`.
pub open spec fn closes_fd(ev: PassEvent, fd: i32) -> bool {
    ev matches PassEvent::ClientClosed(f) && f == fd
}

/// No broadcast in the sequence targets descriptor `fd`.
pub open spec fn never_targets(bs: Seq<BcastRec>, fd: i32) -> bool {
    forall|k: int, c: Connection|
        0 <= k < bs.len() && #[trigger] bs[k].targets.contains(c) ==> c.fd != fd
}

/// An exact copy of a byte buffer.
fn copy_bytes(v: &Vec<u8>) -> (r: Vec<u8>)
    ensures
        r@ == v@,
{
    let mut r: Vec<u8> = Vec::new();
    let mut i: usize = 0;
    while i < v.len()
        invariant
            i <= v@.len(),
            r@ =~= v@.take(i as int),
        decreases v@.len() - i,
    {
        r.push(v[i]);
        proof {
            assert(v@.take(i as int).push(v@[i as int]) =~= v@.take(i + 1));
        }
        i = i + 1;
    }
    proof {
        assert(v@.take(v@.len() as int) =~= v@);
    }
    r
}

impl ConnectionSet {
    /// The recipients of a broadcast from `sender`, computed against the
    /// sweep snapshot and the current live set.
    pub fn recipients(&self, snapshot: &Vec<Connection>, sender: i32) -> (r: Vec<Connection>)
        ensures
            r@ == recipients_of(snapshot@, self@, sender),
    {
        let mut out: Vec<Connection> = Vec::new();
        let mut i: usize = 0;
        while i < snapshot.len()
            invariant
                i <= snapshot@.len(),
                out@ == snapshot@.take(i as int).filter(recip_pred(self@, sender)),
            decreases snapshot@.len() - i,
        {
            let c = snapshot[i];
            proof {
                assert(snapshot@.take(i as int).push(c) =~= snapshot@.take(i + 1));
                snapshot@.take(i as int).lemma_filter_push(c, recip_pred(self@, sender));
            }
            if c.role == Role::Client && c.fd != sender && self.contains_conn(c) {
                out.push(c);
            }
            i = i + 1;
        }
        proof {
            assert(snapshot@.take(snapshot@.len() as int) =~= snapshot@);
        }
        out
    }

    /// One dispatch pass: consumes the events observed for one readiness
    /// report, in order, and returns the broadcasts still to be sent. The
    /// set afterwards is exactly [`pass_state`] of the events, and the
    /// broadcasts match [`pass_bcasts`] one for one, with the set as it
    /// stood on entry serving as the sweep snapshot.
    pub fn dispatch(&mut self, events: &Vec<PassEvent>) -> (bcasts: Vec<Broadcast>)
        ensures
            final(self)@ == pass_state(old(self)@, events@),
            bcasts@.len() == pass_bcasts(old(self)@, old(self)@, events@).len(),
            forall|k: int|
                0 <= k < bcasts@.len() ==> bcast_matches(
                    bcasts@[k],
                    pass_bcasts(old(self)@, old(self)@, events@)[k],
                ),
            old(self).wf() ==> final(self).wf(),
    {
        let ghost s0 = self@;
        let snapshot = self.iterate();
        let mut out: Vec<Broadcast> = Vec::new();
        let mut i: usize = 0;
        while i < events.len()
            invariant
                i <= events@.len(),
                snapshot@ == s0,
                self@ == pass_state(s0, events@.take(i as int)),
                out@.len() == pass_bcasts(s0, s0, events@.take(i as int)).len(),
                forall|k: int|
                    0 <= k < out@.len() ==> bcast_matches(
                        out@[k],
                        pass_bcasts(s0, s0, events@.take(i as int))[k],
                    ),
                wf_conns(s0) ==> self.wf(),
            decreases events@.len() - i,
        {
            proof {
                assert(events@.take(i + 1).drop_last() =~= events@.take(i as int));
                assert(events@.take(i + 1).last() == events@[i as int]);
                if wf_conns(s0) {
                    lemma_step_wf(self@, events@[i as int]);
                }
            }
            match &events[i] {
                PassEvent::Accepted(fd) => {
                    let _ = self.add(*fd);
                },
                PassEvent::AcceptFailed => {},
                PassEvent::ClientData(fd, m) => {
                    let targets = self.recipients(&snapshot, *fd);
                    let bytes = copy_bytes(m);
                    out.push(Broadcast { origin: *fd, targets, bytes });
                },
                PassEvent::ClientClosed(fd) => {
                    self.remove(*fd);
                },
            }
            i = i + 1;
        }
        proof {
            assert(events@.take(events@.len() as int) =~= events@);
        }
        out
    }
}

/// One event keeps the set well-formed and the listener at position zero.
pub proof fn lemma_step_wf(s: Seq<Connection>, ev: PassEvent)
    requires
        wf_conns(s),
    ensures
        wf_conns(step_state(s, ev)),
        step_state(s, ev)[0] == s[0],
{
    match ev {
        PassEvent::Accepted(fd) => {
            if !has_fd(s, fd) {
                lemma_push_client_wf(s, fd);
            }
        },
        PassEvent::ClientClosed(fd) => {
            lemma_drop_fd_wf(s, fd);
        },
        _ => {},
    }
}

/// Law: in every state a dispatch pass can reach, the listener is a member
/// of the connection set; no accept, read, or close path removes it.
pub proof fn lemma_listener_always_present(s: Seq<Connection>, evs: Seq<PassEvent>)
    requires
        wf_conns(s),
    ensures
        wf_conns(pass_state(s, evs)),
        pass_state(s, evs)[0] == s[0],
        pass_state(s, evs).contains(s[0]),
    decreases evs.len(),
{
    if evs.len() > 0 {
        lemma_listener_always_present(s, evs.drop_last());
        lemma_step_wf(pass_state(s, evs.drop_last()), evs.last());
    }
    assert(0 <= 0 < pass_state(s, evs).len() && pass_state(s, evs)[0] == s[0]);
}

/// A pass over concatenated event runs is the two runs one after the other.
pub proof fn lemma_pass_state_app(s: Seq<Connection>, a: Seq<PassEvent>, b: Seq<PassEvent>)
    ensures
        pass_state(s, a + b) == pass_state(pass_state(s, a), b),
    decreases b.len(),
{
    if b.len() == 0 {
        assert(a + b =~= a);
    } else {
        assert((a + b).drop_last() =~= a + b.drop_last());
        assert((a + b).last() == b.last());
        lemma_pass_state_app(s, a, b.drop_last());
    }
}

/// A descriptor absent from the set stays absent across events that never
/// accept it back.
pub proof fn lemma_absent_stays_absent(s: Seq<Connection>, evs: Seq<PassEvent>, fd: i32)
    requires
        !has_fd(s, fd),
        forall|m: int| 0 <= m < evs.len() ==> !accepts_fd(#[trigger] evs[m], fd),
    ensures
        !has_fd(pass_state(s, evs), fd),
    decreases evs.len(),
{
    if evs.len() > 0 {
        assert(forall|m: int| 0 <= m < evs.drop_last().len() ==> evs.drop_last()[m] == evs[m]);
        lemma_absent_stays_absent(s, evs.drop_last(), fd);
        let cur = pass_state(s, evs.drop_last());
        let nxt = step_state(cur, evs.last());
        assert(!accepts_fd(evs.last(), fd)) by {
            assert(evs[evs.len() - 1] == evs.last());
        }
        match evs.last() {
            PassEvent::ClientClosed(g) => {
                assert forall|i: int| 0 <= i < nxt.len() implies nxt[i].fd != fd by {
                    lemma_filter_member(cur, keep_other(g), i);
                    let j = choose|j: int| 0 <= j < cur.len() && cur[j] == nxt[i];
                }
            },
            _ => {},
        }
    }
}

/// A descriptor present in the set stays present across events that never
/// close it.
pub proof fn lemma_present_stays_present(s: Seq<Connection>, evs: Seq<PassEvent>, fd: i32)
    requires
        has_fd(s, fd),
        forall|m: int| 0 <= m < evs.len() ==> !closes_fd(#[trigger] evs[m], fd),
    ensures
        has_fd(pass_state(s, evs), fd),
    decreases evs.len(),
{
    if evs.len() > 0 {
        assert(forall|m: int| 0 <= m < evs.drop_last().len() ==> evs.drop_last()[m] == evs[m]);
        lemma_present_stays_present(s, evs.drop_last(), fd);
        let cur = pass_state(s, evs.drop_last());
        assert(!closes_fd(evs.last(), fd)) by {
            assert(evs[evs.len() - 1] == evs.last());
        }
        let i = choose|i: int| 0 <= i < cur.len() && cur[i].fd == fd;
        match evs.last() {
            PassEvent::Accepted(g) => {
                if !has_fd(cur, g) {
                    let nxt = step_state(cur, evs.last());
                    assert(nxt[i] == cur[i]);
                }
            },
            PassEvent::ClientClosed(g) => {
                assert(keep_other(g)(cur[i]));
                cur.lemma_filter_contains(keep_other(g), i);
                let nxt = drop_fd(cur, g);
                let j = choose|j: int| 0 <= j < nxt.len() && nxt[j] == cur[i];
            },
            _ => {},
        }
    }
}

/// Every broadcast target of a pass is a member of the sweep snapshot.
pub proof fn lemma_targets_in_snapshot(
    s: Seq<Connection>,
    snap: Seq<Connection>,
    evs: Seq<PassEvent>,
)
    ensures
        forall|k: int, c: Connection|
            0 <= k < pass_bcasts(s, snap, evs).len() && #[trigger] pass_bcasts(
                s,
                snap,
                evs,
            )[k].targets.contains(c) ==> snap.contains(c),
    decreases evs.len(),
{
    if evs.len() > 0 {
        lemma_targets_in_snapshot(s, snap, evs.drop_last());
        let pre = pass_bcasts(s, snap, evs.drop_last());
        let cur = pass_state(s, evs.drop_last());
        let stp = step_bcasts(cur, snap, evs.last());
        let bs = pass_bcasts(s, snap, evs);
        assert(bs == pre + stp);
        assert forall|k: int, c: Connection|
            0 <= k < bs.len() && #[trigger] bs[k].targets.contains(c) implies snap.contains(c) by {
            if k < pre.len() {
                assert(bs[k] == pre[k]);
                assert(pre[k].targets.contains(c));
            } else {
                match evs.last() {
                    PassEvent::ClientData(fd, _) => {
                        let r = recipients_of(snap, cur, fd);
                        assert(bs[k].targets == r);
                        let i = choose|i: int| 0 <= i < r.len() && r[i] == c;
                        lemma_filter_member(snap, recip_pred(cur, fd), i);
                    },
                    _ => {
                        assert(stp.len() == 0);
                    },
                }
            }
        }
    }
}

/// Law: a descriptor absent from the set when a pass begins — a client
/// removed in an earlier pass, say — is targeted by no broadcast of that
/// pass: every target comes from the sweep snapshot, which is the set at
/// the start of the pass.
pub proof fn lemma_absent_never_targeted(s: Seq<Connection>, evs: Seq<PassEvent>, fd: i32)
    requires
        !has_fd(s, fd),
    ensures
        never_targets(pass_bcasts(s, s, evs), fd),
{
    let bs = pass_bcasts(s, s, evs);
    lemma_targets_in_snapshot(s, s, evs);
    assert forall|k: int, c: Connection|
        0 <= k < bs.len() && #[trigger] bs[k].targets.contains(c) implies c.fd != fd by {
        assert(s.contains(c));
        let i = choose|i: int| 0 <= i < s.len() && s[i] == c;
    }
}

/// Law: no broadcast lists its originating connection among its
/// recipients — a sender never hears its own bytes back.
pub proof fn lemma_no_self_delivery(s: Seq<Connection>, snap: Seq<Connection>, evs: Seq<PassEvent>)
    ensures
        forall|k: int, c: Connection|
            0 <= k < pass_bcasts(s, snap, evs).len() && #[trigger] pass_bcasts(
                s,
                snap,
                evs,
            )[k].targets.contains(c) ==> c.fd != pass_bcasts(s, snap, evs)[k].origin,
    decreases evs.len(),
{
    if evs.len() > 0 {
        lemma_no_self_delivery(s, snap, evs.drop_last());
        let pre = pass_bcasts(s, snap, evs.drop_last());
        let cur = pass_state(s, evs.drop_last());
        let stp = step_bcasts(cur, snap, evs.last());
        let bs = pass_bcasts(s, snap, evs);
        assert(bs == pre + stp);
        assert forall|k: int, c: Connection|
            0 <= k < bs.len() && #[trigger] bs[k].targets.contains(c) implies c.fd != bs[k].origin by {
            if k < pre.len() {
                assert(bs[k] == pre[k]);
                assert(pre[k].targets.contains(c));
            } else {
                match evs.last() {
                    PassEvent::ClientData(fd, _) => {
                        let r = recipients_of(snap, cur, fd);
                        assert(bs[k].targets == r);
                        assert(bs[k].origin == fd);
                        let i = choose|i: int| 0 <= i < r.len() && r[i] == c;
                        lemma_filter_member(snap, recip_pred(cur, fd), i);
                    },
                    _ => {
                        assert(stp.len() == 0);
                    },
                }
            }
        }
    }
}

/// Law: a broadcast from `sender` reaches exactly the other live clients
/// of the snapshot — every snapshot client other than the sender that is
/// still live is a recipient, nothing else is, and no descriptor is
/// listed twice.
pub proof fn lemma_fan_out(snap: Seq<Connection>, live: Seq<Connection>, sender: i32)
    ensures
        forall|c: Connection|
            snap.contains(c) && c.role is Client && c.fd != sender && live.contains(c)
                ==> #[trigger] recipients_of(snap, live, sender).contains(c),
        forall|c: Connection|
            #[trigger] recipients_of(snap, live, sender).contains(c) ==> snap.contains(c)
                && c.role is Client && c.fd != sender && live.contains(c),
        distinct_fds(snap) ==> distinct_fds(recipients_of(snap, live, sender)),
{
    let pred = recip_pred(live, sender);
    let r = recipients_of(snap, live, sender);
    assert forall|c: Connection|
        snap.contains(c) && c.role is Client && c.fd != sender && live.contains(
            c,
        ) implies #[trigger] r.contains(c) by {
        let i = choose|i: int| 0 <= i < snap.len() && snap[i] == c;
        assert(pred(snap[i]));
        snap.lemma_filter_contains(pred, i);
    }
    assert forall|c: Connection| #[trigger] r.contains(c) implies snap.contains(c)
        && c.role is Client && c.fd != sender && live.contains(c) by {
        let i = choose|i: int| 0 <= i < r.len() && r[i] == c;
        lemma_filter_member(snap, pred, i);
    }
    if distinct_fds(snap) {
        lemma_filter_keeps_distinct(snap, pred);
    }
}

/// Law: once a client is removed by the close path, no later broadcast of
/// the same pass targets it, as long as its descriptor is not reissued by
/// a later accept in that pass.
pub proof fn lemma_removed_never_targeted(
    s: Seq<Connection>,
    evs: Seq<PassEvent>,
    fd: i32,
    j: int,
)
    requires
        wf_conns(s),
        s[0].fd != fd,
        0 <= j < evs.len(),
        evs[j] == PassEvent::ClientClosed(fd),
        forall|m: int| j < m < evs.len() ==> !accepts_fd(#[trigger] evs[m], fd),
    ensures
        forall|k: int|
            j < k < evs.len() ==> never_targets(
                step_bcasts(pass_state(s, evs.take(k)), s, #[trigger] evs[k]),
                fd,
            ),
{
    assert forall|k: int|
        j < k < evs.len() implies never_targets(
        step_bcasts(pass_state(s, evs.take(k)), s, evs[k]),
        fd,
    ) by {
        let mid = pass_state(s, evs.take(j));
        lemma_listener_always_present(s, evs.take(j));
        assert(pass_state(s, evs.take(j + 1)) == drop_fd(mid, fd)) by {
            assert(evs.take(j + 1).drop_last() =~= evs.take(j));
            assert(evs.take(j + 1).last() == evs[j]);
        }
        lemma_drop_fd_absent(mid, fd);
        let rest = evs.take(k).skip(j + 1);
        assert(evs.take(k) =~= evs.take(j + 1) + rest);
        lemma_pass_state_app(s, evs.take(j + 1), rest);
        assert(forall|m: int|
            0 <= m < rest.len() ==> !accepts_fd(#[trigger] rest[m], fd)) by {
            assert(forall|m: int| 0 <= m < rest.len() ==> rest[m] == evs[j + 1 + m]);
        }
        lemma_absent_stays_absent(pass_state(s, evs.take(j + 1)), rest, fd);
        let cur = pass_state(s, evs.take(k));
        match evs[k] {
            PassEvent::ClientData(g, _) => {
                let r = recipients_of(s, cur, g);
                let bs = step_bcasts(cur, s, evs[k]);
                assert forall|kk: int, c: Connection|
                    0 <= kk < bs.len() && #[trigger] bs[kk].targets.contains(c) implies c.fd != fd by {
                    let i = choose|i: int| 0 <= i < r.len() && r[i] == c;
                    lemma_filter_member(s, recip_pred(cur, g), i);
                    let w = choose|w: int| 0 <= w < cur.len() && cur[w] == c;
                }
            },
            _ => {},
        }
    }
}

/// Law: a client accepted during a pass receives no broadcast of that same
/// pass — the sweep snapshot predates it — and, provided no later event of
/// the pass closes it, it is a member of the set when the pass ends, so
/// the next pass reaches it like any other client (see [`lemma_fan_out`]).
pub proof fn lemma_accept_then_serve(s: Seq<Connection>, evs: Seq<PassEvent>, d_fd: i32, j: int)
    requires
        !has_fd(s, d_fd),
        0 <= j < evs.len(),
        evs[j] == PassEvent::Accepted(d_fd),
        forall|m: int| j < m < evs.len() ==> !closes_fd(#[trigger] evs[m], d_fd),
    ensures
        never_targets(pass_bcasts(s, s, evs), d_fd),
        has_fd(pass_state(s, evs), d_fd),
{
    lemma_absent_never_targeted(s, evs, d_fd);
    assert(has_fd(pass_state(s, evs.take(j + 1)), d_fd)) by {
        assert(evs.take(j + 1).drop_last() =~= evs.take(j));
        assert(evs.take(j + 1).last() == evs[j]);
        let mid = pass_state(s, evs.take(j));
        if !has_fd(mid, d_fd) {
            let nxt = mid.push((Connection { fd: d_fd, role: Role::Client }));
            assert(nxt[nxt.len() - 1].fd == d_fd);
        }
    }
    let rest = evs.skip(j + 1);
    assert(evs =~= evs.take(j + 1) + rest);
    lemma_pass_state_app(s, evs.take(j + 1), rest);
    assert(forall|m: int| 0 <= m < rest.len() ==> !closes_fd(#[trigger] rest[m], d_fd)) by {
        assert(forall|m: int| 0 <= m < rest.len() ==> rest[m] == evs[j + 1 + m]);
    }
    lemma_present_stays_present(pass_state(s, evs.take(j + 1)), rest, d_fd);
}

} // verus!
