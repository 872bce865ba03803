//! The connection set: the one listening connection plus the accepted
//! client connections, in a stable order.
//!
//! The set owns every live handle. Its shape is pinned by [`wf_conns`]: the
//! listener sits at position zero, every later member is a client, and no
//! two members share a descriptor. Membership changes only between two
//! multiplexer waits — adding a freshly accepted client at the end, or
//! removing a client whose peer closed. Removal is by descriptor and is a
//! no-op when the descriptor is absent, so detecting one closed peer twice
//! is harmless; the listener is never removed by any path.

use vstd::prelude::*;
use vstd::seq_lib::*;

verus! {

/// The part a connection plays: the one listening socket, or an accepted
/// client. Every connection is watched for readability only.
#[derive(Debug, Clone, Copy, PartialEq, Eq, Structural)]
pub enum Role {
    Listener,
    Client,
}

/// One socket endpoint under management: its descriptor and its role.
/// Liveness is membership: a connection exists exactly while it is a
/// member of a [`ConnectionSet`].
#[derive(Debug, Clone, Copy, PartialEq, Eq, Structural)]
pub struct Connection {
    pub fd: i32,
    pub role: Role,
}

/// Keeps a connection when removing descriptor `fd`: the listener always
/// stays, and so does every connection with another descriptor.
pub open spec fn keep_other(fd: i32) -> spec_fn(Connection) -> bool {
    |c: Connection| c.role is Listener || c.fd != fd
}

/// The connection sequence after removing the client with descriptor `fd`,
/// order preserved.
pub open spec fn drop_fd(s: Seq<Connection>, fd: i32) -> Seq<Connection> {
    s.filter(keep_other(fd))
}

/// Some member carries descriptor `fd`.
pub open spec fn has_fd(s: Seq<Connection>, fd: i32) -> bool {
    exists|i: int| 0 <= i < s.len() && s[i].fd == fd
}

/// Some client member carries descriptor `fd`.
pub open spec fn has_client_fd(s: Seq<Connection>, fd: i32) -> bool {
    exists|i: int| 0 <= i < s.len() && s[i].role is Client && s[i].fd == fd
}

/// No two members share a descriptor.
pub open spec fn distinct_fds(s: Seq<Connection>) -> bool {
    forall|i: int, j: int| 0 <= i < j < s.len() ==> s[i].fd != s[j].fd
}

/// Well-formedness of a connection sequence: the listener is present at
/// position zero, every other member is a client, and descriptors are
/// pairwise distinct.
pub open spec fn wf_conns(s: Seq<Connection>) -> bool {
    &&& s.len() >= 1
    &&& s[0].role is Listener
    &&& forall|i: int| 1 <= i < s.len() ==> s[i].role is Client
    &&& distinct_fds(s)
}

/// Filtering keeps the head element when the predicate holds of it.
pub proof fn lemma_filter_keeps_head(s: Seq<Connection>, pred: spec_fn(Connection) -> bool)
    requires
        s.len() > 0,
        pred(s[0]),
    ensures
        s.filter(pred).len() > 0,
        s.filter(pred)[0] == s[0],
    decreases s.len(),
{
    reveal(Seq::filter);
    if s.len() > 1 {
        assert(s.drop_last()[0] == s[0]);
        lemma_filter_keeps_head(s.drop_last(), pred);
    }
}

/// Filtering preserves pairwise-distinct descriptors.
pub proof fn lemma_filter_keeps_distinct(s: Seq<Connection>, pred: spec_fn(Connection) -> bool)
    requires
        distinct_fds(s),
    ensures
        distinct_fds(s.filter(pred)),
    decreases s.len(),
{
    reveal(Seq::filter);
    if s.len() > 0 {
        let dl = s.drop_last();
        assert(distinct_fds(dl)) by {
            assert(forall|i: int| 0 <= i < dl.len() ==> dl[i] == s[i]);
        }
        lemma_filter_keeps_distinct(dl, pred);
        if pred(s.last()) {
            let f = dl.filter(pred);
            assert forall|i: int| 0 <= i < f.len() implies f[i].fd != s.last().fd by {
                assert(f.contains(f[i]));
                dl.lemma_filter_contains_rev(pred, f[i]);
                let j = choose|j: int| 0 <= j < dl.len() && dl[j] == f[i];
                assert(s[j] == f[i]);
                assert(s[j].fd != s[s.len() - 1].fd);
            }
            assert(s.filter(pred) == f.push(s.last()));
            assert forall|i: int, j: int|
                0 <= i < j < f.push(s.last()).len() implies f.push(s.last())[i].fd != f.push(
                s.last(),
            )[j].fd by {
                if j < f.len() {
                    assert(f[i].fd != f[j].fd);
                }
            }
        }
    }
}

/// Every member of the filtered sequence is a member of the original.
pub proof fn lemma_filter_member(s: Seq<Connection>, pred: spec_fn(Connection) -> bool, i: int)
    requires
        0 <= i < s.filter(pred).len(),
    ensures
        pred(s.filter(pred)[i]),
        s.contains(s.filter(pred)[i]),
{
    s.lemma_filter_pred(pred, i);
    assert(s.filter(pred).contains(s.filter(pred)[i]));
    s.lemma_filter_contains_rev(pred, s.filter(pred)[i]);
}

/// Removing a descriptor preserves well-formedness and leaves the listener
/// in place at position zero.
pub proof fn lemma_drop_fd_wf(s: Seq<Connection>, fd: i32)
    requires
        wf_conns(s),
    ensures
        wf_conns(drop_fd(s, fd)),
        drop_fd(s, fd)[0] == s[0],
{
    let pred = keep_other(fd);
    let f = s.filter(pred);
    assert(pred(s[0]));
    lemma_filter_keeps_head(s, pred);
    lemma_filter_keeps_distinct(s, pred);
    assert forall|i: int| 1 <= i < f.len() implies f[i].role is Client by {
        lemma_filter_member(s, pred, i);
        let j = choose|j: int| 0 <= j < s.len() && s[j] == f[i];
        if j == 0 {
            assert(f[i].fd == f[0].fd);
            assert(false);
        }
    }
}

/// After removing a descriptor that is not the listener's, no member
/// carries it any more.
pub proof fn lemma_drop_fd_absent(s: Seq<Connection>, fd: i32)
    requires
        wf_conns(s),
        s[0].fd != fd,
    ensures
        !has_fd(drop_fd(s, fd), fd),
{
    let pred = keep_other(fd);
    let f = s.filter(pred);
    assert forall|i: int| 0 <= i < f.len() implies f[i].fd != fd by {
        lemma_filter_member(s, pred, i);
        if f[i].role is Listener {
            let j = choose|j: int| 0 <= j < s.len() && s[j] == f[i];
            if j != 0 {
                assert(s[j].role is Client);
                assert(false);
            }
        }
    }
}

/// Removing a descriptor that no client carries changes nothing.
pub proof fn lemma_drop_fd_noop(s: Seq<Connection>, fd: i32)
    requires
        !has_client_fd(s, fd),
    ensures
        drop_fd(s, fd) == s,
    decreases s.len(),
{
    reveal(Seq::filter);
    let pred = keep_other(fd);
    if s.len() > 0 {
        let dl = s.drop_last();
        assert(!has_client_fd(dl, fd)) by {
            assert(forall|i: int| 0 <= i < dl.len() ==> dl[i] == s[i]);
        }
        lemma_drop_fd_noop(dl, fd);
        assert(pred(s.last())) by {
            assert(s[s.len() - 1] == s.last());
        }
        assert(dl.push(s.last()) =~= s);
    }
}

/// Removal is idempotent: removing a descriptor from a sequence it has
/// already been removed from changes nothing.
pub proof fn lemma_remove_idempotent(s: Seq<Connection>, fd: i32)
    ensures
        drop_fd(drop_fd(s, fd), fd) == drop_fd(s, fd),
{
    let pred = keep_other(fd);
    let f = s.filter(pred);
    assert(!has_client_fd(f, fd)) by {
        assert forall|i: int| 0 <= i < f.len() implies !(f[i].role is Client && f[i].fd == fd) by {
            lemma_filter_member(s, pred, i);
        }
    }
    lemma_drop_fd_noop(f, fd);
}

/// Appending a fresh client keeps the sequence well-formed.
pub proof fn lemma_push_client_wf(s: Seq<Connection>, fd: i32)
    requires
        wf_conns(s),
        !has_fd(s, fd),
    ensures
        wf_conns(s.push((Connection { fd, role: Role::Client }))),
{
    let t = s.push((Connection { fd, role: Role::Client }));
    assert forall|i: int, j: int| 0 <= i < j < t.len() implies t[i].fd != t[j].fd by {
        if j < s.len() {
            assert(s[i].fd != s[j].fd);
        } else {
            assert(t[i] == s[i]);
        }
    }
}

/// The ordered collection of live connections.
pub struct ConnectionSet {
    conns: Vec<Connection>,
}

impl View for ConnectionSet {
    type V = Seq<Connection>;

    closed spec fn view(&self) -> Seq<Connection> {
        self.conns@
    }
}

impl ConnectionSet {
    /// The set's structural invariant; established by [`ConnectionSet::new`]
    /// and preserved by every mutation.
    pub open spec fn wf(self) -> bool {
        wf_conns(self@)
    }

    /// A set holding only the bootstrapped listener. The listener exists
    /// from the first moment on: a set without one cannot be built.
    pub fn new(listener_fd: i32) -> (s: ConnectionSet)
        ensures
            s@ == seq![(Connection { fd: listener_fd, role: Role::Listener })],
            s.wf(),
    {
        let mut conns: Vec<Connection> = Vec::new();
        conns.push(Connection { fd: listener_fd, role: Role::Listener });
        proof {
            assert(conns@ =~= seq![(Connection { fd: listener_fd, role: Role::Listener })]);
        }
        ConnectionSet { conns }
    }

    /// How many connections are live, the listener included.
    pub fn len(&self) -> (n: usize)
        ensures
            n == self@.len(),
    {
        self.conns.len()
    }

    /// How many client connections are live, the listener excluded.
    pub fn client_count(&self) -> (n: usize)
        requires
            self.wf(),
        ensures
            n == self@.len() - 1,
    {
        self.conns.len() - 1
    }

    /// The distinguished listener connection.
    pub fn listener(&self) -> (c: Connection)
        requires
            self.wf(),
        ensures
            c == self@[0],
            c.role is Listener,
    {
        self.conns[0]
    }

    /// Whether some live connection carries descriptor `fd`.
    pub fn contains_fd(&self, fd: i32) -> (r: bool)
        ensures
            r == has_fd(self@, fd),
    {
        let mut i: usize = 0;
        while i < self.conns.len()
            invariant
                i <= self@.len(),
                forall|j: int| 0 <= j < i ==> self@[j].fd != fd,
            decreases self@.len() - i,
        {
            if self.conns[i].fd == fd {
                proof {
                    assert(0 <= i < self@.len() && self@[i as int].fd == fd);
                }
                return true;
            }
            i = i + 1;
        }
        false
    }

    /// Whether this very connection is live.
    pub fn contains_conn(&self, c: Connection) -> (r: bool)
        ensures
            r == self@.contains(c),
    {
        let mut i: usize = 0;
        while i < self.conns.len()
            invariant
                i <= self@.len(),
                forall|j: int| 0 <= j < i ==> self@[j] != c,
            decreases self@.len() - i,
        {
            if self.conns[i].fd == c.fd && self.conns[i].role == c.role {
                proof {
                    assert(self@[i as int] == c);
                }
                return true;
            }
            i = i + 1;
        }
        false
    }

    /// Appends a freshly accepted client. The backing store grows as
    /// needed, so capacity is never an error path. A descriptor already
    /// live is refused unchanged, upholding the no-duplicate invariant;
    /// the operating system does not reissue a live descriptor, so a
    /// refusal signals a caller error.
    pub fn add(&mut self, fd: i32) -> (added: bool)
        ensures
            added == !has_fd(old(self)@, fd),
            added ==> final(self)@ == old(self)@.push((Connection { fd, role: Role::Client })),
            !added ==> final(self)@ == old(self)@,
            old(self).wf() ==> final(self).wf(),
    {
        if self.contains_fd(fd) {
            false
        } else {
            proof {
                if old(self).wf() {
                    lemma_push_client_wf(old(self)@, fd);
                }
            }
            self.conns.push(Connection { fd, role: Role::Client });
            true
        }
    }

    /// Removes the client with descriptor `fd`, if any; the listener and
    /// all other clients stay, in their old order. Removing an absent
    /// descriptor is a no-op.
    pub fn remove(&mut self, fd: i32)
        ensures
            final(self)@ == drop_fd(old(self)@, fd),
            old(self).wf() ==> final(self).wf() && final(self)@[0] == old(self)@[0],
    {
        let ghost s0 = self@;
        let mut out: Vec<Connection> = Vec::new();
        let mut i: usize = 0;
        while i < self.conns.len()
            invariant
                i <= s0.len(),
                self@ == s0,
                out@ == s0.take(i as int).filter(keep_other(fd)),
            decreases s0.len() - i,
        {
            let c = self.conns[i];
            proof {
                assert(s0.take(i + 1).drop_last() =~= s0.take(i as int));
                assert(s0.take(i as int).push(c) =~= s0.take(i + 1));
                s0.take(i as int).lemma_filter_push(c, keep_other(fd));
            }
            if c.role == Role::Listener || c.fd != fd {
                out.push(c);
            }
            i = i + 1;
        }
        proof {
            assert(s0.take(s0.len() as int) =~= s0);
            if old(self).wf() {
                lemma_drop_fd_wf(s0, fd);
            }
        }
        self.conns = out;
    }

    /// A snapshot of the live connections in stable order. The sweep over
    /// one readiness report walks this snapshot, so connections added
    /// during the sweep are not observed by it.
    pub fn iterate(&self) -> (snap: Vec<Connection>)
        ensures
            snap@ == self@,
    {
        let mut snap: Vec<Connection> = Vec::new();
        let mut i: usize = 0;
        while i < self.conns.len()
            invariant
                i <= self@.len(),
                snap@ =~= self@.take(i as int),
            decreases self@.len() - i,
        {
            snap.push(self.conns[i]);
            proof {
                assert(self@.take(i as int).push(self@[i as int]) =~= self@.take(i + 1));
            }
            i = i + 1;
        }
        proof {
            assert(self@.take(self@.len() as int) =~= self@);
        }
        snap
    }
}

} // verus!
