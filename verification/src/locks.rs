//! The in-memory lock that the connections to one database share: any number of readers, at
//! most one writer, and a writer that waits for the readers to leave before it writes.

use vstd::prelude::*;

verus! {

/// The five states of a connection's lock, weakest first.
#[derive(Clone, Copy, Debug, PartialEq, Eq, Structural)]
pub enum LockKind {
    /// No lock is held.
    Unlocked,
    /// The database may be read.
    Shared,
    /// The connection plans to write; readers may still come and go.
    Reserved,
    /// The connection waits for the readers to leave; no new reader is let in.
    Pending,
    /// The connection may write; nobody else holds any lock.
    Exclusive,
}

impl LockKind {
    /// The place of a state in the order Unlocked < Shared < Reserved < Pending < Exclusive.
    pub open spec fn rank(self) -> int {
        match self {
            LockKind::Unlocked => 0,
            LockKind::Shared => 1,
            LockKind::Reserved => 2,
            LockKind::Pending => 3,
            LockKind::Exclusive => 4,
        }
    }

    /// The rank as a number, for comparing two states.
    pub fn level(self) -> (r: u8)
        ensures
            r == self.rank(),
    {
        match self {
            LockKind::Unlocked => 0,
            LockKind::Shared => 1,
            LockKind::Reserved => 2,
            LockKind::Pending => 3,
            LockKind::Exclusive => 4,
        }
    }
}

/// What the connections of one database share: how many of them read, and whether one of them
/// writes. `writer` is `Some(false)` for a writer that has reserved the database and
/// `Some(true)` for one that waits for exclusive access or has it.
pub struct LockState {
    pub readers: nat,
    pub writer: Option<bool>,
}

/// Whether a connection in state `from` may ask for `to` without breaking the counters.
/// Only a request that is granted moves a counter: a reader that leaves must have been
/// counted, and a reader that enters must fit.
pub open spec fn may_transition(s: LockState, from: LockKind, to: LockKind) -> bool {
    &&& from == LockKind::Shared && (to == LockKind::Unlocked || ((to == LockKind::Reserved || to
        == LockKind::Exclusive) && s.writer is None)) ==> s.readers >= 1
    &&& to == LockKind::Shared && from != LockKind::Shared && !(s.writer == Some(true) && from
        == LockKind::Unlocked) ==> s.readers < usize::MAX
}

/// The shared state and the connection's state after a connection in state `from` has asked
/// for `to`.
pub open spec fn transition_spec(s: LockState, from: LockKind, to: LockKind) -> (
    LockState,
    LockKind,
) {
    if from == to {
        (s, from)
    } else {
        match to {
            LockKind::Unlocked => {
                if from == LockKind::Shared {
                    (LockState { readers: (s.readers - 1) as nat, writer: s.writer }, to)
                } else {
                    (LockState { readers: s.readers, writer: None }, to)
                }
            },
            LockKind::Shared => {
                if s.writer == Some(true) && from == LockKind::Unlocked {
                    (s, from)
                } else {
                    (
                        LockState {
                            readers: s.readers + 1,
                            writer: if from.rank() > 1 {
                                None
                            } else {
                                s.writer
                            },
                        },
                        to,
                    )
                }
            },
            LockKind::Reserved => {
                if s.writer is Some || from != LockKind::Shared {
                    (s, from)
                } else {
                    (LockState { readers: (s.readers - 1) as nat, writer: Some(false) }, to)
                }
            },
            LockKind::Pending => (s, from),
            LockKind::Exclusive => {
                if s.writer is Some && from.rank() < 2 {
                    (s, from)
                } else {
                    let readers = if from == LockKind::Shared {
                        (s.readers - 1) as nat
                    } else {
                        s.readers
                    };
                    (
                        LockState { readers, writer: Some(true) },
                        if readers > 0 {
                            LockKind::Pending
                        } else {
                            LockKind::Exclusive
                        },
                    )
                }
            },
        }
    }
}

/// The counters behind a [`VfsLock`].
pub struct InnerVfsLock {
    readers: usize,
    writer: Option<bool>,
}

impl View for InnerVfsLock {
    type V = LockState;

    closed spec fn view(&self) -> LockState {
        LockState { readers: self.readers as nat, writer: self.writer }
    }
}

impl InnerVfsLock {
    /// A lock that nobody holds.
    pub fn new() -> (r: InnerVfsLock)
        ensures
            r@ == (LockState { readers: 0, writer: None }),
    {
        InnerVfsLock { readers: 0, writer: None }
    }

    /// Moves a connection from `from` to `to` if the other connections allow it, and
    /// returns the state that the connection is in afterwards.
    pub fn transition(&mut self, from: LockKind, to: LockKind) -> (r: LockKind)
        requires
            may_transition(old(self)@, from, to),
        ensures
            (final(self)@, r) == transition_spec(old(self)@, from, to),
    {
        if from == to {
            return from;
        }
        match to {
            LockKind::Unlocked => {
                if from == LockKind::Shared {
                    self.readers -= 1;
                } else if from.level() > 1 {
                    self.writer = None;
                }
                LockKind::Unlocked
            },
            LockKind::Shared => {
                if self.writer == Some(true) && from.level() < 1 {
                    return from;
                }
                self.readers += 1;
                if from.level() > 1 {
                    self.writer = None
                }
                LockKind::Shared
            },
            LockKind::Reserved => {
                if self.writer.is_some() || from != LockKind::Shared {
                    return from;
                }
                self.readers -= 1;
                self.writer = Some(false);
                LockKind::Reserved
            },
            LockKind::Pending => from,
            LockKind::Exclusive => {
                if self.writer.is_some() && from.level() < 2 {
                    return from;
                }
                if from == LockKind::Shared {
                    self.readers -= 1;
                }
                self.writer = Some(true);
                if self.readers > 0 {
                    LockKind::Pending
                } else {
                    LockKind::Exclusive
                }
            },
        }
    }

    /// How many connections hold a shared lock.
    pub fn readers(&self) -> (r: usize)
        ensures
            r == self@.readers,
    {
        self.readers
    }

    /// Whether a connection has reserved the database, waits to write it or writes it.
    pub fn has_writer(&self) -> (r: bool)
        ensures
            r == self@.writer is Some,
    {
        self.writer.is_some()
    }
}

/// The lock of one database, shared by the connections opened on it.
pub struct VfsLock {
    inner: InnerVfsLock,
}

impl View for VfsLock {
    type V = LockState;

    closed spec fn view(&self) -> LockState {
        self.inner@
    }
}

impl VfsLock {
    /// A lock that nobody holds.
    pub fn new() -> (r: VfsLock)
        ensures
            r@ == (LockState { readers: 0, writer: None }),
    {
        VfsLock { inner: InnerVfsLock::new() }
    }

    /// The lock state of a new connection: it holds nothing yet.
    pub fn conn_lock(&self) -> (r: ConnLock)
        ensures
            r@ == LockKind::Unlocked,
    {
        ConnLock { state: LockKind::Unlocked }
    }

    /// How many connections hold a shared lock.
    pub fn readers(&self) -> (r: usize)
        ensures
            r == self@.readers,
    {
        self.inner.readers()
    }

    /// Whether a connection has reserved the database, waits to write it or writes it.
    pub fn has_writer(&self) -> (r: bool)
        ensures
            r == self@.writer is Some,
    {
        self.inner.has_writer()
    }
}

/// The lock state of one connection.
pub struct ConnLock {
    state: LockKind,
}

impl View for ConnLock {
    type V = LockKind;

    closed spec fn view(&self) -> LockKind {
        self.state
    }
}

impl ConnLock {
    /// Asks the database's lock for `to` and says whether the connection now holds exactly
    /// that. A connection that asked for exclusive access while others still read is left
    /// pending and is told `false`.
    pub fn acquire(&mut self, vfs_lock: &mut VfsLock, to: LockKind) -> (r: bool)
        requires
            may_transition(old(vfs_lock)@, old(self)@, to),
        ensures
            (final(vfs_lock)@, final(self)@) == transition_spec(old(vfs_lock)@, old(self)@, to),
            r == (final(self)@ == to),
    {
        self.state = vfs_lock.inner.transition(self.state, to);
        self.state == to
    }

    /// Gives up whatever the connection holds; a connection that goes away does this last.
    pub fn release(&mut self, vfs_lock: &mut VfsLock)
        requires
            may_transition(old(vfs_lock)@, old(self)@, LockKind::Unlocked),
        ensures
            (final(vfs_lock)@, final(self)@) == transition_spec(
                old(vfs_lock)@,
                old(self)@,
                LockKind::Unlocked,
            ),
            final(self)@ == LockKind::Unlocked,
    {
        self.state = vfs_lock.inner.transition(self.state, LockKind::Unlocked);
    }

    /// The state that the connection is in.
    pub fn state(&self) -> (r: LockKind)
        ensures
            r == self@,
    {
        self.state
    }

    /// Whether this connection holds at least a shared lock, or any connection is a writer.
    pub fn reserved(&self, vfs_lock: &VfsLock) -> (r: bool)
        ensures
            r == (self@.rank() >= 1 || vfs_lock@.writer is Some),
    {
        self.state.level() >= 1 || vfs_lock.inner.has_writer()
    }

    /// How many connections hold a shared lock on the database.
    pub fn readers(&self, vfs_lock: &VfsLock) -> (r: usize)
        ensures
            r == vfs_lock@.readers,
    {
        vfs_lock.inner.readers()
    }
}

/// How many of the connections `h` hold a shared lock.
pub open spec fn shared_count(h: Seq<LockKind>) -> nat
    decreases h.len(),
{
    if h.len() == 0 {
        0
    } else {
        shared_count(h.drop_last()) + if h.last() == LockKind::Shared {
            1nat
        } else {
            0nat
        }
    }
}

/// Whether no connection of `h` is beyond the shared state.
pub open spec fn no_writer(h: Seq<LockKind>) -> bool {
    forall|i: int| 0 <= i < h.len() ==> (#[trigger] h[i]).rank() < 2
}

/// Whether the shared state `s` is what the connection states `h` add up to: every reader is
/// counted, at most one connection is beyond shared, the writer mark says how far that one
/// has come, and a connection with exclusive access is alone.
pub open spec fn consistent(s: LockState, h: Seq<LockKind>) -> bool {
    &&& s.readers == shared_count(h)
    &&& (forall|i: int, j: int|
        0 <= i < j < h.len() ==> !((#[trigger] h[i]).rank() >= 2 && (#[trigger] h[j]).rank()
            >= 2))
    &&& (s.writer is None <==> no_writer(h))
    &&& (s.writer == Some(false) ==> (forall|i: int|
        0 <= i < h.len() && (#[trigger] h[i]).rank() >= 2 ==> h[i] == LockKind::Reserved))
    &&& (s.writer == Some(true) ==> (forall|i: int|
        0 <= i < h.len() && (#[trigger] h[i]).rank() >= 2 ==> h[i] != LockKind::Reserved))
    &&& (forall|i: int| 0 <= i < h.len() && (#[trigger] h[i]) == LockKind::Exclusive ==> s.readers == 0)
}

/// Replacing one connection's state changes the count of readers by what that connection
/// adds or takes away.
pub proof fn lemma_shared_count_update(h: Seq<LockKind>, i: int, k: LockKind)
    requires
        0 <= i < h.len(),
    ensures
        shared_count(h.update(i, k)) + (if h[i] == LockKind::Shared {
            1nat
        } else {
            0nat
        }) == shared_count(h) + (if k == LockKind::Shared {
            1nat
        } else {
            0nat
        }),
    decreases h.len(),
{
    if i == h.len() - 1 {
        assert(h.update(i, k).drop_last() =~= h.drop_last());
    } else {
        assert(h.update(i, k).drop_last() =~= h.drop_last().update(i, k));
        lemma_shared_count_update(h.drop_last(), i, k);
    }
}

/// A connection in the shared state is counted among the readers.
pub proof fn lemma_shared_is_counted(h: Seq<LockKind>, i: int)
    requires
        0 <= i < h.len(),
        h[i] == LockKind::Shared,
    ensures
        shared_count(h) >= 1,
    decreases h.len(),
{
    if i < h.len() - 1 {
        lemma_shared_is_counted(h.drop_last(), i);
    }
}

/// Where nobody reads, no connection is in the shared state.
pub proof fn lemma_no_readers_no_shared(h: Seq<LockKind>)
    requires
        shared_count(h) == 0,
    ensures
        forall|i: int| 0 <= i < h.len() ==> h[i] != LockKind::Shared,
{
    assert forall|i: int| 0 <= i < h.len() implies h[i] != LockKind::Shared by {
        if h[i] == LockKind::Shared {
            lemma_shared_is_counted(h, i);
        }
    }
}

/// Connections that hold nothing are consistent with a lock that nobody holds.
pub proof fn lemma_initially_consistent(h: Seq<LockKind>)
    requires
        forall|i: int| 0 <= i < h.len() ==> h[i] == LockKind::Unlocked,
    ensures
        consistent(LockState { readers: 0, writer: None }, h),
    decreases h.len(),
{
    if h.len() > 0 {
        lemma_initially_consistent(h.drop_last());
    }
}

/// In a consistent state every request of every connection is one that the counters can
/// take, as long as the count of readers fits the machine.
pub proof fn lemma_consistent_may_transition(
    s: LockState,
    h: Seq<LockKind>,
    i: int,
    to: LockKind,
)
    requires
        consistent(s, h),
        0 <= i < h.len(),
        s.readers < usize::MAX,
    ensures
        may_transition(s, h[i], to),
{
    if h[i] == LockKind::Shared {
        lemma_shared_is_counted(h, i);
    }
}

/// Whatever a connection asks for, the states stay consistent.
pub proof fn lemma_transition_keeps_consistent(
    s: LockState,
    h: Seq<LockKind>,
    i: int,
    to: LockKind,
)
    requires
        consistent(s, h),
        0 <= i < h.len(),
    ensures
        consistent(transition_spec(s, h[i], to).0, h.update(i, transition_spec(s, h[i], to).1)),
{
    let from = h[i];
    let (s2, k2) = transition_spec(s, from, to);
    let h2 = h.update(i, k2);
    lemma_shared_count_update(h, i, k2);
    if from == LockKind::Shared {
        lemma_shared_is_counted(h, i);
    }
    if k2 == from {
        assert(h2 =~= h);
        if from == LockKind::Pending {
            assert(h[i].rank() >= 2);
            assert(!no_writer(h));
            assert(s.writer != Some(false));
            assert(s.writer == Some(true));
        }
        assert(s2.readers == s.readers);
        assert(s2.writer == s.writer);
    } else {
        assert forall|a: int| 0 <= a < h.len() && a != i implies h2[a] == h[a] by {}
        assert(h2[i] == k2);
        assert(s2.readers == shared_count(h2));
        // Whoever else is beyond shared keeps this connection from getting there.
        assert forall|a: int| 0 <= a < h.len() && a != i && h[a].rank() >= 2 implies k2.rank()
            < 2 && s2.writer == s.writer by {
            assert(!no_writer(h));
            if from.rank() >= 2 {
                if a < i {
                    assert(!(h[a].rank() >= 2 && h[i].rank() >= 2));
                } else {
                    assert(!(h[i].rank() >= 2 && h[a].rank() >= 2));
                }
            }
        }
        assert forall|a: int, b: int| 0 <= a < b < h2.len() implies !(h2[a].rank() >= 2
            && h2[b].rank() >= 2) by {
            if a != i && b != i {
                assert(!(h[a].rank() >= 2 && h[b].rank() >= 2));
            }
        }
        if no_writer(h2) {
            assert(h2[i].rank() < 2);
            if s2.writer is Some {
                assert(s.writer is Some);
                let w = choose|w: int| 0 <= w < h.len() && h[w].rank() >= 2;
                assert(h2[w].rank() < 2);
            }
        } else {
            let w = choose|w: int| 0 <= w < h2.len() && h2[w].rank() >= 2;
            if w != i {
                assert(h[w].rank() >= 2);
                assert(!no_writer(h));
            }
            assert(s2.writer is Some);
        }
        assert(s2.writer is None <==> no_writer(h2));
        assert forall|a: int| 0 <= a < h2.len() && h2[a] == LockKind::Exclusive implies s2.readers
            == 0 by {
            if a != i {
                assert(h[a].rank() >= 2);
                assert(!no_writer(h));
                assert(s.writer == Some(true));
                assert(s.readers == 0);
                lemma_no_readers_no_shared(h);
                assert(from == LockKind::Unlocked);
            }
        }
    }
}

/// No two connections hold exclusive access at once, and while one holds it nobody reads.
pub proof fn lemma_exclusive_is_alone(s: LockState, h: Seq<LockKind>, i: int, j: int)
    requires
        consistent(s, h),
        0 <= i < h.len(),
        0 <= j < h.len(),
        i != j,
        h[i] == LockKind::Exclusive,
    ensures
        h[j] == LockKind::Unlocked,
{
    assert(h[i].rank() == 4);
    lemma_no_readers_no_shared(h);
    if i < j {
        assert(!(h[i].rank() >= 2 && h[j].rank() >= 2));
    } else {
        assert(!(h[j].rank() >= 2 && h[i].rank() >= 2));
    }
}

/// While a connection is pending or has exclusive access, a connection that holds nothing is
/// refused a shared lock, and nothing changes.
pub proof fn lemma_no_new_reader_while_pending(s: LockState, h: Seq<LockKind>, i: int, j: int)
    requires
        consistent(s, h),
        0 <= i < h.len(),
        0 <= j < h.len(),
        h[j].rank() >= 3,
        h[i] == LockKind::Unlocked,
    ensures
        transition_spec(s, h[i], LockKind::Shared) == (s, LockKind::Unlocked),
{
    assert(h[j].rank() >= 2);
    assert(!no_writer(h));
    assert(s.writer is Some);
    assert(s.writer != Some(false));
    assert(s.writer == Some(true));
}

/// A reader that lets go of its lock is taken off the count of readers, and the writer mark
/// stays as it was.
pub proof fn lemma_release_uncounts_reader(s: LockState)
    requires
        s.readers >= 1,
    ensures
        transition_spec(s, LockKind::Shared, LockKind::Unlocked) == (
            LockState { readers: (s.readers - 1) as nat, writer: s.writer },
            LockKind::Unlocked,
        ),
{
}

} // verus!
