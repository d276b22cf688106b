//! The write leases that the process holds, and when each is to be refreshed.

use crate::error::ErrorKind;
use crate::syncer::{first_named, lookup};
use vstd::prelude::*;

verus! {

/// A write lease: the store's permission to submit transactions for one database until a
/// time of expiry.
#[derive(Debug)]
pub struct Lease {
    /// The id that submissions and refreshes quote.
    pub id: String,
    /// When the lease ends, in nanoseconds since the epoch.
    pub expires_at: i128,
}

impl Lease {
    /// A copy of the lease.
    pub fn duplicate(&self) -> (r: Lease)
        ensures
            r.id@ == self.id@,
            r.expires_at == self.expires_at,
    {
        Lease { id: self.id.clone(), expires_at: self.expires_at }
    }
}

/// How long to sleep at the time `now` before a lease that ends at `expires_at` is
/// refreshed: until a third of the lease's `duration` is left, and not at all once that
/// point has passed.
pub open spec fn refresh_wait(expires_at: int, now: int, duration: nat) -> nat {
    if expires_at - now - duration / 3 > 0 {
        (expires_at - now - duration / 3) as nat
    } else {
        0
    }
}

/// The time from `now` to `expires_at`, and nothing once it has passed.
fn until(expires_at: i128, now: i128) -> (r: u128)
    ensures
        r == if expires_at > now {
            expires_at - now
        } else {
            0
        },
{
    if expires_at <= now {
        0
    } else if now >= 0 || expires_at < 0 {
        (expires_at - now) as u128
    } else {
        let below: u128 = (-(now + 1)) as u128;
        expires_at as u128 + below + 1
    }
}

/// The leases of a process, by database.
pub struct Leaser {
    leases: Vec<(String, Lease)>,
    duration: u128,
}

impl Leaser {
    /// Whether no database has two leases.
    pub closed spec fn wf(&self) -> bool {
        unique_names(self.leases@)
    }

    /// How long a lease is asked for, in nanoseconds.
    pub closed spec fn duration(&self) -> nat {
        self.duration as nat
    }

    /// The lease held for the database `db`, if any.
    pub closed spec fn lease(&self, db: Seq<char>) -> Option<Lease> {
        match first_named(self.leases@, db) {
            Some(i) => Some(self.leases@[i].1),
            None => None,
        }
    }

    /// A leaser that holds nothing and asks for leases of `duration` nanoseconds.
    pub fn new(duration: u128) -> (r: Leaser)
        ensures
            r.wf(),
            r.duration() == duration,
            forall|db: Seq<char>| r.lease(db) is None,
    {
        Leaser { leases: Vec::new(), duration }
    }

    /// How long a lease is asked for, in nanoseconds: what a request to acquire or to
    /// refresh names.
    pub fn lease_duration(&self) -> (r: u128)
        ensures
            r == self.duration(),
    {
        self.duration
    }

    /// Keeps the lease that the store has granted for `db`, in place of an older one.
    pub fn acquire_lease(&mut self, db: &str, lease: Lease)
        requires
            old(self).wf(),
        ensures
            final(self).wf(),
            final(self).duration() == old(self).duration(),
            final(self).lease(db@) == Some(lease),
            forall|other: Seq<char>|
                other != db@ ==> final(self).lease(other) == old(self).lease(other),
    {
        let name = db.to_owned();
        let ghost before = self.leases@;
        match lookup(&self.leases, &name) {
            Some(i) => {
                proof {
                    lemma_first_found(before, db@);
                }
                self.leases.set(i, (name, lease));
                proof {
                    let after = self.leases@;
                    assert forall|k: int| 0 <= k < before.len() implies (#[trigger] before[k]).0@
                        == (#[trigger] after[k]).0@ by {}
                    assert forall|other: Seq<char>| first_named(after, other) == first_named(
                        before,
                        other,
                    ) by {
                        lemma_same_names(before, after, other);
                    }
                    assert forall|other: Seq<char>| other != db@ implies self.lease(other)
                        == old(self).lease(other) by {
                        if first_named(before, other) is Some {
                            lemma_first_found(before, other);
                        }
                    }
                }
            },
            None => {
                self.leases.push((name, lease));
                proof {
                    let after = self.leases@;
                    assert(after.drop_last() =~= before);
                    assert forall|a: int, b: int| 0 <= a < b < after.len() implies (
                    #[trigger] after[a]).0@ != (#[trigger] after[b]).0@ by {
                        if b == after.len() - 1 {
                            lemma_absent(before, db@, a);
                        } else {
                            assert(before[a].0@ != before[b].0@);
                        }
                    }
                    assert(after.last().0@ == db@);
                    assert forall|other: Seq<char>| other != db@ implies self.lease(other)
                        == old(self).lease(other) by {
                        if first_named(before, other) is Some {
                            lemma_first_found(before, other);
                        }
                    }
                    if first_named(before, db@) is Some {
                        lemma_first_found(before, db@);
                    }
                }
            },
        }
    }

    /// Gives up the lease held for `db` and hands it out, so that the store can be told.
    pub fn release_lease(&mut self, db: &str) -> (r: Option<Lease>)
        requires
            old(self).wf(),
        ensures
            final(self).wf(),
            final(self).duration() == old(self).duration(),
            r == old(self).lease(db@),
            final(self).lease(db@) is None,
            forall|other: Seq<char>|
                other != db@ ==> final(self).lease(other) == old(self).lease(other),
    {
        let name = db.to_owned();
        let ghost before = self.leases@;
        match lookup(&self.leases, &name) {
            Some(i) => {
                let entry = self.leases.remove(i);
                proof {
                    let after = self.leases@;
                    lemma_first_found(before, db@);
                    assert(after == before.remove(i as int));
                    assert forall|k: int| 0 <= k < after.len() implies #[trigger] after[k]
                        == before[if k < i { k } else { k + 1 }] by {}
                    assert forall|a: int, b: int| 0 <= a < b < after.len() implies (
                    #[trigger] after[a]).0@ != (#[trigger] after[b]).0@ by {
                        let a0 = if a < i { a } else { a + 1 };
                        let b0 = if b < i { b } else { b + 1 };
                        assert(before[a0].0@ != before[b0].0@);
                    }
                    assert forall|other: Seq<char>| #[trigger] first_named(after, other) == (
                    match first_named(before, other) {
                        Some(k0) => if k0 == i {
                            None
                        } else if k0 < i {
                            Some(k0)
                        } else {
                            Some(k0 - 1)
                        },
                        None => None,
                    }) by {
                        if first_named(before, other) is Some {
                            lemma_first_found(before, other);
                            let k0 = first_named(before, other)->0;
                            if k0 != i {
                                let k = if k0 < i { k0 } else { k0 - 1 };
                                assert(after[k] == before[k0]);
                                lemma_unique_found(after, k);
                            } else if first_named(after, other) is Some {
                                lemma_first_found(after, other);
                                let k = first_named(after, other)->0;
                                let k1 = if k < i { k } else { k + 1 };
                                assert(after[k] == before[k1]);
                                lemma_unique_found(before, k1);
                            }
                        } else if first_named(after, other) is Some {
                            lemma_first_found(after, other);
                            let k = first_named(after, other)->0;
                            let k1 = if k < i { k } else { k + 1 };
                            assert(after[k] == before[k1]);
                            lemma_absent(before, other, k1);
                        }
                    }
                    assert forall|other: Seq<char>| other != db@ implies self.lease(other)
                        == old(self).lease(other) by {
                        let x = first_named(after, other);
                        if first_named(before, other) is Some {
                            lemma_first_found(before, other);
                        }
                    }
                    let y = first_named(after, db@);
                }
                Some(entry.1)
            },
            None => None,
        }
    }

    /// The id of the lease held for `db`: what a submission quotes. Without a lease the
    /// database must not be written.
    pub fn get_lease(&self, db: &str) -> (r: Result<String, ErrorKind>)
        requires
            self.wf(),
        ensures
            match self.lease(db@) {
                Some(lease) => r matches Ok(id) && id@ == lease.id@,
                None => r == Err::<String, ErrorKind>(ErrorKind::PermissionDenied),
            },
    {
        let name = db.to_owned();
        match lookup(&self.leases, &name) {
            Some(i) => Ok(self.leases[i].1.id.clone()),
            None => Err(ErrorKind::PermissionDenied),
        }
    }

    /// The lease to refresh next at the time `now`: one of those that end first, the name
    /// of its database, and how long to sleep before the refresh. `None` where no lease is
    /// held: there is nothing to do until one is acquired.
    pub fn next_refresh(&self, now: i128) -> (r: Option<(String, Lease, u128)>)
        requires
            self.wf(),
        ensures
            r is None <==> (forall|db: Seq<char>| self.lease(db) is None),
            r matches Some(next) ==> {
                &&& self.lease(next.0@) matches Some(held)
                &&& held.id@ == next.1.id@
                &&& held.expires_at == next.1.expires_at
                &&& forall|db: Seq<char>|
                    (#[trigger] self.lease(db)) matches Some(other) ==> next.1.expires_at
                        <= other.expires_at
                &&& next.2 == refresh_wait(next.1.expires_at as int, now as int, self.duration())
            },
    {
        if self.leases.len() == 0 {
            return None;
        }
        proof {
            lemma_unique_found(self.leases@, 0);
            assert(self.lease(self.leases@[0].0@) is Some);
        }
        let mut first: usize = 0;
        let mut i: usize = 1;
        while i < self.leases.len()
            invariant
                1 <= i <= self.leases@.len(),
                first < i,
                forall|k: int|
                    0 <= k < i ==> self.leases@[first as int].1.expires_at <= (
                    #[trigger] self.leases@[k]).1.expires_at,
            decreases self.leases@.len() - i,
        {
            if self.leases[i].1.expires_at < self.leases[first].1.expires_at {
                first = i;
            }
            i += 1;
        }
        let db = self.leases[first].0.clone();
        let lease = self.leases[first].1.duplicate();
        let left = until(lease.expires_at, now);
        let wait = left.saturating_sub(self.duration / 3);
        proof {
            lemma_unique_found(self.leases@, first as int);
            assert forall|name: Seq<char>| (#[trigger] self.lease(name)) is Some implies
                lease.expires_at <= self.lease(name)->0.expires_at by {
                lemma_first_found(self.leases@, name);
            }
        }
        Some((db, lease, wait))
    }

    /// Takes in the outcome of refreshing the lease with the id `id` of the database `db`.
    /// A new lease takes the place of whatever is held for `db` by now, unless nothing is.
    /// After a failure the lease that could not be refreshed is given up, and one that was
    /// acquired meanwhile, under another id, stays.
    pub fn refreshed(&mut self, db: &str, id: &str, outcome: Option<Lease>)
        requires
            old(self).wf(),
        ensures
            final(self).wf(),
            final(self).duration() == old(self).duration(),
            forall|other: Seq<char>|
                other != db@ ==> final(self).lease(other) == old(self).lease(other),
            final(self).lease(db@) == match (old(self).lease(db@), outcome) {
                (None, _) => None,
                (Some(_), Some(lease)) => Some(lease),
                (Some(held), None) => if held.id@ == id@ {
                    None
                } else {
                    Some(held)
                },
            },
    {
        let name = db.to_owned();
        let held = lookup(&self.leases, &name);
        match (held, outcome) {
            (None, _) => {},
            (Some(_), Some(lease)) => {
                self.acquire_lease(db, lease);
            },
            (Some(i), None) => {
                let same = self.leases[i].1.id == id.to_owned();
                if same {
                    let _ = self.release_lease(db);
                }
            },
        }
    }
}

/// The keeper of leases of a build that cannot hold any: one that runs on a single thread
/// and has nothing to refresh leases with. It refuses every request, so such a build does
/// not write.
pub struct Unleased;

impl Unleased {
    /// Refuses to acquire a lease for `db`.
    pub fn acquire_lease(&self, db: &str) -> (r: Result<(), ErrorKind>)
        ensures
            r == Err::<(), ErrorKind>(ErrorKind::Unsupported),
    {
        Err(ErrorKind::Unsupported)
    }

    /// Refuses to release a lease for `db`.
    pub fn release_lease(&self, db: &str) -> (r: Result<(), ErrorKind>)
        ensures
            r == Err::<(), ErrorKind>(ErrorKind::Unsupported),
    {
        Err(ErrorKind::Unsupported)
    }

    /// Has no lease for `db`, nor for any database.
    pub fn get_lease(&self, db: &str) -> (r: Result<String, ErrorKind>)
        ensures
            r == Err::<String, ErrorKind>(ErrorKind::Unsupported),
    {
        Err(ErrorKind::Unsupported)
    }
}

/// Whether no two entries go by one name.
pub open spec fn unique_names<T>(entries: Seq<(String, T)>) -> bool {
    forall|i: int, j: int|
        0 <= i < j < entries.len() ==> (#[trigger] entries[i]).0@ != (#[trigger] entries[j]).0@
}

/// Where a name is not found, no entry goes by it.
pub proof fn lemma_absent<T>(entries: Seq<(String, T)>, name: Seq<char>, at: int)
    requires
        0 <= at < entries.len(),
        first_named(entries, name) is None,
    ensures
        entries[at].0@ != name,
    decreases entries.len(),
{
    if at < entries.len() - 1 {
        lemma_absent(entries.drop_last(), name, at);
        assert(entries.drop_last()[at] == entries[at]);
    }
}

/// What is found by a name goes by that name, and nothing before it does.
pub proof fn lemma_first_found<T>(entries: Seq<(String, T)>, name: Seq<char>)
    requires
        first_named(entries, name) is Some,
    ensures
        0 <= first_named(entries, name)->0 < entries.len(),
        entries[first_named(entries, name)->0].0@ == name,
        forall|k: int| 0 <= k < first_named(entries, name)->0 ==> (#[trigger] entries[k]).0@ != name,
    decreases entries.len(),
{
    if entries.len() > 0 {
        let shorter = entries.drop_last();
        if first_named(shorter, name) is Some {
            lemma_first_found(shorter, name);
            let at = first_named(shorter, name)->0;
            assert(shorter[at] == entries[at]);
            assert forall|k: int| 0 <= k < at implies (#[trigger] entries[k]).0@ != name by {
                assert(shorter[k] == entries[k]);
            }
        } else {
            assert forall|k: int| 0 <= k < entries.len() - 1 implies (#[trigger] entries[k]).0@
                != name by {
                lemma_absent(shorter, name, k);
                assert(shorter[k] == entries[k]);
            }
        }
    }
}

/// Among entries with unique names, each entry is the one found by its name.
pub proof fn lemma_unique_found<T>(entries: Seq<(String, T)>, at: int)
    requires
        unique_names(entries),
        0 <= at < entries.len(),
    ensures
        first_named(entries, entries[at].0@) == Some(at),
{
    let name = entries[at].0@;
    if first_named(entries, name) is None {
        lemma_absent(entries, name, at);
    } else {
        lemma_first_found(entries, name);
        let k = first_named(entries, name)->0;
        if k < at {
            assert(entries[k].0@ != entries[at].0@);
        } else if k > at {
            assert(entries[at].0@ != entries[k].0@);
        }
    }
}

/// Two lists with the same names at the same places find every name at the same place.
pub proof fn lemma_same_names<T>(a: Seq<(String, T)>, b: Seq<(String, T)>, name: Seq<char>)
    requires
        a.len() == b.len(),
        forall|k: int| 0 <= k < a.len() ==> (#[trigger] a[k]).0@ == (#[trigger] b[k]).0@,
    ensures
        first_named(a, name) == first_named(b, name),
    decreases a.len(),
{
    if a.len() > 0 {
        assert forall|k: int| 0 <= k < a.len() - 1 implies (#[trigger] a.drop_last()[k]).0@ == (
        #[trigger] b.drop_last()[k]).0@ by {
            assert(a.drop_last()[k] == a[k]);
            assert(b.drop_last()[k] == b[k]);
            assert(a[k].0@ == b[k].0@);
        }
        lemma_same_names(a.drop_last(), b.drop_last(), name);
        assert(a.last().0@ == a[a.len() - 1].0@);
        assert(a[a.len() - 1].0@ == b[a.len() - 1].0@);
    }
}

} // verus!
