//! What the process knows of each open database's state at the remote store: the latest
//! position, the pages that became stale since the database last looked, and when to ask
//! again.

use crate::interner::{
    id_of, interned, interner_get, interner_get_or_intern, interner_len, interner_new,
    interner_resolve, lemma_id_of, lemma_id_of_push, Interner, MAX_NAMES,
};
use crate::lfsc;
use crate::page_set::PageSet;
use crate::types::{txid_of, PageNum, Pos};
use vstd::prelude::*;

verus! {

/// What a change set invalidates.
pub enum ChangeSet {
    /// Every cached page may be stale.
    All,
    /// The pages of the set are stale.
    Pages(Set<u32>),
}

/// The pages of a database that became stale.
#[derive(Debug)]
pub enum Changes {
    /// Every cached page may be stale.
    All,
    /// The pages of the set are stale.
    Pages(PageSet),
}

impl View for Changes {
    type V = ChangeSet;

    open spec fn view(&self) -> ChangeSet {
        match self {
            Changes::All => ChangeSet::All,
            Changes::Pages(pages) => ChangeSet::Pages(pages@.to_set()),
        }
    }
}

/// The view of a change set that may be absent.
pub open spec fn changes_view(c: Option<Changes>) -> Option<ChangeSet> {
    match c {
        Some(c) => Some(c@),
        None => None,
    }
}

/// Two change sets taken together: nothing adds nothing, "all" swallows everything, and two
/// sets of pages unite.
pub open spec fn merge_spec(c1: Option<ChangeSet>, c2: Option<ChangeSet>) -> Option<ChangeSet> {
    match (c1, c2) {
        (_, None) => c1,
        (None, _) => c2,
        (Some(ChangeSet::All), _) => Some(ChangeSet::All),
        (_, Some(ChangeSet::All)) => Some(ChangeSet::All),
        (Some(ChangeSet::Pages(left)), Some(ChangeSet::Pages(right))) => Some(
            ChangeSet::Pages(left.union(right)),
        ),
    }
}

/// Takes two change sets together.
pub fn merge_changes(c1: Option<Changes>, c2: Option<Changes>) -> (r: Option<Changes>)
    ensures
        changes_view(r) == merge_spec(changes_view(c1), changes_view(c2)),
{
    match (c1, c2) {
        (c1, None) => c1,
        (None, c2) => c2,
        (Some(Changes::All), _) => Some(Changes::All),
        (_, Some(Changes::All)) => Some(Changes::All),
        (Some(Changes::Pages(left)), Some(Changes::Pages(right))) => {
            let p = left.union(&right);
            proof {
                assert(p@.to_set() =~= left@.to_set().union(right@.to_set()));
            }
            Some(Changes::Pages(p))
        },
    }
}

/// Merging is associative: it does not matter how a run of change sets is grouped.
pub proof fn lemma_merge_associative(
    a: Option<ChangeSet>,
    b: Option<ChangeSet>,
    c: Option<ChangeSet>,
)
    ensures
        merge_spec(merge_spec(a, b), c) == merge_spec(a, merge_spec(b, c)),
{
    match (a, b, c) {
        (Some(ChangeSet::Pages(x)), Some(ChangeSet::Pages(y)), Some(ChangeSet::Pages(z))) => {
            assert(x.union(y).union(z) =~= x.union(y.union(z)));
        },
        _ => {},
    }
}

/// Merging is commutative: it does not matter which change set came first.
pub proof fn lemma_merge_commutative(a: Option<ChangeSet>, b: Option<ChangeSet>)
    ensures
        merge_spec(a, b) == merge_spec(b, a),
{
    match (a, b) {
        (Some(ChangeSet::Pages(x)), Some(ChangeSet::Pages(y))) => {
            assert(x.union(y) =~= y.union(x));
        },
        _ => {},
    }
}

impl Changes {
    /// What a report of the remote store invalidates, if anything.
    pub fn from_remote(c: lfsc::Changes) -> (r: Option<Changes>)
        ensures
            changes_view(r) == c.change_set(),
    {
        match c {
            lfsc::Changes::All(_) => Some(Changes::All),
            lfsc::Changes::Pages(_, None) => None,
            lfsc::Changes::Pages(_, Some(pages)) => Some(Changes::Pages(page_set_of(&pages))),
        }
    }
}

/// What is known of one open database.
pub struct DbState {
    /// The latest position known.
    pub position: Option<Pos>,
    /// The pages that became stale since the database last took its changes.
    pub changes: Option<ChangeSet>,
    /// How many connections are open on the database.
    pub conns: nat,
    /// When the position was last brought up to date, in nanoseconds since the epoch.
    pub last_sync: nat,
    /// How long a position may be used before the store is asked again, in nanoseconds.
    pub period: nat,
}

impl DbState {
    /// Whether the position is older than the period allows at the time `now`: more time
    /// than the period has passed since the last sync.
    pub open spec fn needs_sync(self, now: nat) -> bool {
        now > self.last_sync + self.period
    }

    /// The state after the store has answered a request for this database alone with
    /// `report`: an answer that is not behind what is known moves the position, adds its
    /// changes and resets the clock; an older one is ignored.
    pub open spec fn synced_one(self, report: lfsc::Changes, now: nat) -> DbState {
        if txid_of(report.position()) >= txid_of(self.position) {
            DbState {
                position: report.position(),
                changes: merge_spec(report.change_set(), self.changes),
                last_sync: now,
                ..self
            }
        } else {
            self
        }
    }

    /// The state after a request for many databases has been answered. `sent` is the
    /// position that the request named for this database, if it named one, and `report` is
    /// the store's answer for it, if it gave one. A sync only moves a position forward: an
    /// answer that is behind what is known, or no answer, leaves the position and the changes
    /// as they are. Otherwise the position becomes the reported one, and the answer's changes
    /// count if the position that was sent is still the one known: where it is not, a local
    /// commit has come in between. The clock is reset in every case.
    pub open spec fn synced(
        self,
        sent: Option<Option<Pos>>,
        report: Option<lfsc::Changes>,
        now: nat,
    ) -> DbState {
        if report is Some && txid_of(report->0.position()) >= txid_of(self.position) {
            DbState {
                position: report->0.position(),
                changes: merge_spec(
                    if sent == Some(self.position) {
                        report->0.change_set()
                    } else {
                        None
                    },
                    self.changes,
                ),
                last_sync: now,
                ..self
            }
        } else {
            DbState { last_sync: now, ..self }
        }
    }

    /// The time up to which the position may be used, as far as the clock goes.
    pub open spec fn deadline(self) -> nat {
        if self.last_sync + self.period > u128::MAX {
            u128::MAX as nat
        } else {
            self.last_sync + self.period
        }
    }

    /// The state after a local commit has reached `pos`: unless the store is known to be
    /// ahead, the position is `pos`, nothing is stale and the clock is reset.
    pub open spec fn committed(self, pos: Pos, now: nat) -> DbState {
        if txid_of(self.position) > pos.txid@ {
            self
        } else {
            DbState { position: Some(pos), changes: None, last_sync: now, ..self }
        }
    }
}

/// No sync moves a position back: neither the answer to a request for one database, nor
/// the answer to a request for many, nor a local commit.
pub proof fn lemma_position_never_goes_back(
    d: DbState,
    sent: Option<Option<Pos>>,
    report: Option<lfsc::Changes>,
    one: lfsc::Changes,
    pos: Pos,
    now: nat,
)
    ensures
        txid_of(d.synced(sent, report, now).position) >= txid_of(d.position),
        txid_of(d.synced_one(one, now).position) >= txid_of(d.position),
        txid_of(d.committed(pos, now).position) >= txid_of(d.position),
        report is None ==> d.synced(sent, report, now).position == d.position,
{
}

/// What the syncer keeps for one open database.
pub struct Db {
    position: Option<Pos>,
    changes: Option<Changes>,
    conns: u32,
    last_sync: u128,
    period: u128,
}

impl View for Db {
    type V = DbState;

    closed spec fn view(&self) -> DbState {
        DbState {
            position: self.position,
            changes: changes_view(self.changes),
            conns: self.conns as nat,
            last_sync: self.last_sync as nat,
            period: self.period as nat,
        }
    }
}

impl Db {
    /// A copy of the record.
    fn duplicate(&self) -> (r: Db)
        ensures
            r@ == self@,
            r.conns == self.conns,
            r.last_sync == self.last_sync,
            r.period == self.period,
            r.position == self.position,
    {
        let changes = match &self.changes {
            None => None,
            Some(Changes::All) => Some(Changes::All),
            Some(Changes::Pages(p)) => Some(Changes::Pages(p.clone())),
        };
        Db {
            position: self.position,
            changes,
            conns: self.conns,
            last_sync: self.last_sync,
            period: self.period,
        }
    }

    /// The period, unless it is zero.
    pub fn sync_period(&self) -> (r: Option<u128>)
        ensures
            r == if self@.period == 0 {
                None
            } else {
                Some(self@.period as u128)
            },
    {
        if self.period == 0 {
            return None;
        }
        Some(self.period)
    }

    /// The time up to which the position may be used, unless no clock reaches it.
    pub fn next_sync(&self) -> (r: Option<u128>)
        ensures
            r == if self@.last_sync + self@.period > u128::MAX {
                None
            } else {
                Some((self@.last_sync + self@.period) as u128)
            },
    {
        self.last_sync.checked_add(self.period)
    }

    /// Whether the store is to be asked at the time `now`.
    pub fn needs_sync(&self, now: u128) -> (r: bool)
        ensures
            r == self@.needs_sync(now as nat),
    {
        match self.next_sync() {
            Some(ns) => now > ns,
            None => false,
        }
    }
}

/// The records of the open databases of a process.
pub struct Syncer {
    period: u128,
    interner: Interner,
    dbs: Vec<Option<Db>>,
}

impl Syncer {
    /// Whether the records are in order: no name has two ids and every record belongs to a
    /// name.
    pub closed spec fn wf(&self) -> bool {
        &&& interned(self.interner).no_duplicates()
        &&& interned(self.interner).len() <= MAX_NAMES
        &&& self.dbs@.len() <= interned(self.interner).len()
        &&& forall|k: int|
            0 <= k < self.dbs@.len() ==> (#[trigger] self.dbs@[k] matches Some(d) ==> d.conns >= 1)
    }

    /// The sync period that a database is opened with, in nanoseconds.
    pub closed spec fn default_period(&self) -> nat {
        self.period as nat
    }

    /// The names that have been opened so far; a database keeps its place in this sequence
    /// as its id.
    pub closed spec fn names(&self) -> Seq<Seq<char>> {
        interned(self.interner)
    }

    /// The record with the id `id`, if a database with that id is open.
    pub closed spec fn slot(&self, id: int) -> Option<DbState> {
        if 0 <= id < self.dbs@.len() && self.dbs@[id] is Some {
            Some(self.dbs@[id]->0@)
        } else {
            None
        }
    }

    /// What is known of the database `name`, if it is open.
    pub open spec fn db(&self, name: Seq<char>) -> Option<DbState> {
        match id_of(self.names(), name) {
            Some(id) => self.slot(id),
            None => None,
        }
    }

    /// Whether another name can be taken in.
    pub closed spec fn has_room(&self) -> bool {
        interned(self.interner).len() < MAX_NAMES
    }

    /// A syncer without open databases. A database that is opened is synced every `period`
    /// nanoseconds.
    pub fn new(period: u128) -> (r: Syncer)
        ensures
            r.wf(),
            r.has_room(),
            r.default_period() == period,
            r.names().len() == 0,
            forall|name: Seq<char>| r.db(name) is None,
    {
        Syncer { period, interner: interner_new(), dbs: Vec::new() }
    }

    /// Whether another name can be taken in.
    pub fn room(&self) -> (r: bool)
        ensures
            r == self.has_room(),
    {
        interner_len(&self.interner) < MAX_NAMES
    }

    /// The id of the open database `db`.
    fn find(&self, db: &str) -> (r: Option<usize>)
        requires
            self.wf(),
        ensures
            match r {
                Some(id) => id_of(self.names(), db@) == Some(id as int) && self.slot(id as int)
                    is Some && id < self.dbs@.len(),
                None => self.db(db@) is None,
            },
    {
        match interner_get(&self.interner, db) {
            Some(id) => {
                proof {
                    lemma_id_of(interned(self.interner), id as int);
                }
                if id < self.dbs.len() && self.dbs[id].is_some() {
                    Some(id)
                } else {
                    None
                }
            },
            None => None,
        }
    }

    /// Whether the database `db` is open.
    pub fn tracks(&self, db: &str) -> (r: bool)
        requires
            self.wf(),
        ensures
            r == self.db(db@) is Some,
    {
        self.find(db).is_some()
    }

    /// Puts `record` in the place of the database with the id `id`.
    fn store(&mut self, id: usize, record: Db)
        requires
            old(self).wf(),
            id < old(self).dbs@.len(),
            record@.conns >= 1,
        ensures
            final(self).wf(),
            final(self).names() == old(self).names(),
            final(self).has_room() == old(self).has_room(),
            final(self).default_period() == old(self).default_period(),
            final(self).dbs@.len() == old(self).dbs@.len(),
            final(self).slot(id as int) == Some(record@),
            forall|other: int| other != id ==> final(self).slot(other) == old(self).slot(other),
    {
        self.dbs.set(id, Some(record));
    }

    /// Counts a connection that was opened on `db`. The first one sets up the record, with
    /// the position `pos` that the connection starts from and the clock at `now`.
    pub fn open_conn(&mut self, db: &str, pos: Option<Pos>, now: u128)
        requires
            old(self).wf(),
            old(self).has_room(),
            old(self).db(db@) matches Some(d) ==> d.conns < u32::MAX,
        ensures
            final(self).wf(),
            final(self).default_period() == old(self).default_period(),
            final(self).db(db@) == Some(
                match old(self).db(db@) {
                    Some(d) => DbState { conns: d.conns + 1, ..d },
                    None => DbState {
                        position: pos,
                        changes: None,
                        conns: 1,
                        last_sync: now as nat,
                        period: old(self).default_period(),
                    },
                },
            ),
            forall|other: Seq<char>|
                other != db@ ==> final(self).db(other) == old(self).db(other),
    {
        let ghost names0 = interned(self.interner);
        let id = interner_get_or_intern(&mut self.interner, db);
        let ghost names1 = interned(self.interner);
        proof {
            lemma_id_of(names1, id as int);
            assert forall|other: Seq<char>| other != db@ implies id_of(names1, other) == id_of(
                names0,
                other,
            ) by {
                if !names0.contains(db@) {
                    lemma_id_of_push(names0, db@, other);
                }
            }
            if names0.contains(db@) {
                lemma_id_of(names0, names0.index_of(db@));
            }
        }
        while self.dbs.len() <= id
            invariant
                interned(self.interner) == names1,
                id < names1.len(),
                self.dbs@.len() <= names1.len(),
                old(self).dbs@.len() <= self.dbs@.len(),
                self.period == old(self).period,
                forall|k: int|
                    0 <= k < self.dbs@.len() ==> (#[trigger] self.dbs@[k] matches Some(d)
                        ==> d.conns >= 1),
                forall|k: int| 0 <= k < old(self).dbs@.len() ==> self.dbs@[k] == old(self).dbs@[k],
                forall|k: int| old(self).dbs@.len() <= k < self.dbs@.len() ==> self.dbs@[k] is None,
            decreases names1.len() - self.dbs@.len(),
        {
            self.dbs.push(None);
        }
        let record = match &self.dbs[id] {
            Some(d) => {
                let mut d = d.duplicate();
                d.conns = d.conns + 1;
                d
            },
            None => Db { position: pos, changes: None, conns: 1, last_sync: now, period: self.period },
        };
        let ghost mid = *self;
        assert(forall|k: int| mid.slot(k) == old(self).slot(k));
        self.store(id, record);
    }

    /// Uncounts a connection that was closed on the open database `db`. The record goes
    /// with the last connection.
    pub fn close_conn(&mut self, db: &str)
        requires
            old(self).wf(),
            old(self).db(db@) is Some,
        ensures
            final(self).wf(),
            final(self).names() == old(self).names(),
            final(self).has_room() == old(self).has_room(),
            final(self).default_period() == old(self).default_period(),
            final(self).db(db@) == (if old(self).db(db@)->0.conns == 1 {
                None
            } else {
                Some(DbState { conns: (old(self).db(db@)->0.conns - 1) as nat, ..old(self).db(db@)->0 })
            }),
            forall|other: Seq<char>|
                other != db@ ==> final(self).db(other) == old(self).db(other),
    {
        let id = self.find(db).unwrap();
        let mut d = self.dbs[id].as_ref().unwrap().duplicate();
        proof {
            assert forall|other: Seq<char>| other != db@ implies id_of(self.names(), other)
                != Some(id as int) by {
                if id_of(self.names(), other) == Some(id as int) {
                    assert(self.names()[id as int] == other);
                }
            }
        }
        d.conns = d.conns - 1;
        if d.conns == 0 {
            self.dbs.set(id, None);
        } else {
            self.store(id, d);
        }
    }

    /// Whether the open database `db`, which is at `pos`, should look at the store before it
    /// reads at the time `now`: the position known is another one, or more time than the
    /// period has passed since the last sync.
    pub fn needs_sync(&self, db: &str, pos: Option<Pos>, now: u128) -> (r: bool)
        requires
            self.wf(),
            self.db(db@) is Some,
        ensures
            r == (self.db(db@)->0.position != pos || self.db(db@)->0.needs_sync(now as nat)),
    {
        let id = self.find(db).unwrap();
        let d = self.dbs[id].as_ref().unwrap();
        if !same_position(&d.position, &pos) {
            return true;
        }
        d.needs_sync(now)
    }

    /// Hands out the position known of the open database `db` and the changes gathered for
    /// it, which are then forgotten. While the period has run out at the time `now` there is
    /// nothing to hand out: the caller wakes the periodic sync and asks again after it.
    pub fn get_changes(&mut self, db: &str, now: u128) -> (r: Option<(Option<Pos>, Option<Changes>)>)
        requires
            old(self).wf(),
            old(self).db(db@) is Some,
        ensures
            final(self).wf(),
            final(self).names() == old(self).names(),
            final(self).has_room() == old(self).has_room(),
            final(self).default_period() == old(self).default_period(),
            forall|other: Seq<char>|
                other != db@ ==> final(self).db(other) == old(self).db(other),
            old(self).db(db@)->0.needs_sync(now as nat) ==> r is None && final(self).db(db@)
                == old(self).db(db@),
            !old(self).db(db@)->0.needs_sync(now as nat) ==> {
                &&& r matches Some(got)
                &&& got.0 == old(self).db(db@)->0.position
                &&& changes_view(got.1) == old(self).db(db@)->0.changes
                &&& final(self).db(db@) == Some(DbState { changes: None, ..old(self).db(db@)->0 })
            },
    {
        let id = self.find(db).unwrap();
        let d = self.dbs[id].as_ref().unwrap().duplicate();
        if d.needs_sync(now) {
            return None;
        }
        proof {
            self.lemma_only_name(id as int);
        }
        let Db { position, changes, conns, last_sync, period } = d;
        self.store(id, Db { position, changes: None, conns, last_sync, period });
        Some((position, changes))
    }

    /// Gives back changes that were handed out and could not be applied: they are merged
    /// with what has been gathered for the open database `db` since.
    pub fn put_changes(&mut self, db: &str, prev_changes: Changes)
        requires
            old(self).wf(),
            old(self).db(db@) is Some,
        ensures
            final(self).wf(),
            final(self).names() == old(self).names(),
            final(self).has_room() == old(self).has_room(),
            final(self).default_period() == old(self).default_period(),
            forall|other: Seq<char>|
                other != db@ ==> final(self).db(other) == old(self).db(other),
            final(self).db(db@) == Some(
                DbState {
                    changes: merge_spec(Some(prev_changes@), old(self).db(db@)->0.changes),
                    ..old(self).db(db@)->0
                },
            ),
    {
        let id = self.find(db).unwrap();
        let d = self.dbs[id].as_ref().unwrap().duplicate();
        proof {
            self.lemma_only_name(id as int);
        }
        let Db { position, changes, conns, last_sync, period } = d;
        let changes = merge_changes(Some(prev_changes), changes);
        self.store(id, Db { position, changes, conns, last_sync, period });
    }

    /// Records that a local commit has brought the open database `db` to `pos` at the time
    /// `now`. Without a position there is nothing to record, and a position behind the one
    /// that the store is known to have reached is ignored.
    pub fn set_pos(&mut self, db: &str, pos: Option<Pos>, now: u128)
        requires
            old(self).wf(),
            old(self).db(db@) is Some,
        ensures
            final(self).wf(),
            final(self).names() == old(self).names(),
            final(self).has_room() == old(self).has_room(),
            final(self).default_period() == old(self).default_period(),
            forall|other: Seq<char>|
                other != db@ ==> final(self).db(other) == old(self).db(other),
            final(self).db(db@) == Some(
                match pos {
                    Some(p) => old(self).db(db@)->0.committed(p, now as nat),
                    None => old(self).db(db@)->0,
                },
            ),
    {
        let pos = match pos {
            Some(pos) => pos,
            None => return ,
        };
        let id = self.find(db).unwrap();
        let d = self.dbs[id].as_ref().unwrap().duplicate();
        proof {
            self.lemma_only_name(id as int);
        }
        let behind = match d.position {
            Some(rp) => rp.txid.into_inner() > pos.txid.into_inner(),
            None => false,
        };
        if behind {
            return ;
        }
        let Db { position: _, changes: _, conns, last_sync: _, period } = d;
        self.store(id, Db { position: Some(pos), changes: None, conns, last_sync: now, period });
    }

    /// The position known of the open database `db`: what a request for its changes names.
    pub fn position(&self, db: &str) -> (r: Option<Pos>)
        requires
            self.wf(),
            self.db(db@) is Some,
        ensures
            r == self.db(db@)->0.position,
    {
        let id = self.find(db).unwrap();
        self.dbs[id].as_ref().unwrap().position
    }

    /// Takes in the store's answer `report` to a request for the changes of `db` alone, which
    /// came at the time `now`. A database that has been closed meanwhile has no record to
    /// take it.
    pub fn sync_one(&mut self, db: &str, report: lfsc::Changes, now: u128)
        requires
            old(self).wf(),
        ensures
            final(self).wf(),
            final(self).names() == old(self).names(),
            final(self).has_room() == old(self).has_room(),
            final(self).default_period() == old(self).default_period(),
            forall|other: Seq<char>|
                other != db@ ==> final(self).db(other) == old(self).db(other),
            final(self).db(db@) == match old(self).db(db@) {
                Some(d) => Some(d.synced_one(report, now as nat)),
                None => None,
            },
    {
        let id = match self.find(db) {
            Some(id) => id,
            None => return ,
        };
        let d = self.dbs[id].as_ref().unwrap().duplicate();
        proof {
            self.lemma_only_name(id as int);
        }
        let local_txid = match d.position {
            Some(p) => p.txid.into_inner(),
            None => 0,
        };
        let remote_txid = match report.pos() {
            Some(p) => p.txid.into_inner(),
            None => 0,
        };
        if remote_txid >= local_txid {
            let Db { position: _, changes, conns, last_sync: _, period } = d;
            let position = report.pos();
            let changes = merge_changes(Changes::from_remote(report), changes);
            self.store(id, Db { position, changes, conns, last_sync: now, period });
        }
    }

    /// The sync period of the open database `db`, in nanoseconds.
    pub fn sync_period(&self, db: &str) -> (r: u128)
        requires
            self.wf(),
            self.db(db@) is Some,
        ensures
            r == self.db(db@)->0.period,
    {
        let id = self.find(db).unwrap();
        self.dbs[id].as_ref().unwrap().period
    }

    /// Sets the sync period of the open database `db`, in nanoseconds.
    pub fn set_sync_period(&mut self, db: &str, period: u128)
        requires
            old(self).wf(),
            old(self).db(db@) is Some,
        ensures
            final(self).wf(),
            final(self).names() == old(self).names(),
            final(self).has_room() == old(self).has_room(),
            final(self).default_period() == old(self).default_period(),
            forall|other: Seq<char>|
                other != db@ ==> final(self).db(other) == old(self).db(other),
            final(self).db(db@) == Some(DbState { period: period as nat, ..old(self).db(db@)->0 }),
    {
        let id = self.find(db).unwrap();
        let d = self.dbs[id].as_ref().unwrap().duplicate();
        proof {
            self.lemma_only_name(id as int);
        }
        let Db { position, changes, conns, last_sync, period: _ } = d;
        self.store(id, Db { position, changes, conns, last_sync, period });
    }

    /// The ids of the open databases whose period has run out at the time `now`, in
    /// ascending order.
    pub fn due(&self, now: u128) -> (r: Vec<usize>)
        requires
            self.wf(),
        ensures
            forall|i: int, j: int| 0 <= i < j < r@.len() ==> r@[i] < r@[j],
            forall|id: int|
                r@.contains(id as usize) && 0 <= id <= usize::MAX <==> self.due_at(id, now as nat),
    {
        let mut r: Vec<usize> = Vec::new();
        let mut k: usize = 0;
        while k < self.dbs.len()
            invariant
                k <= self.dbs@.len(),
                forall|i: int, j: int| 0 <= i < j < r@.len() ==> r@[i] < r@[j],
                forall|i: int| 0 <= i < r@.len() ==> r@[i] < k,
                forall|id: int|
                    r@.contains(id as usize) && 0 <= id <= usize::MAX <==> (0 <= id < k
                        && self.due_at(id, now as nat)),
            decreases self.dbs@.len() - k,
        {
            let ghost before = r@;
            let hit = match &self.dbs[k] {
                Some(d) => d.needs_sync(now),
                None => false,
            };
            if hit {
                r.push(k);
            }
            proof {
                assert forall|id: int|
                    r@.contains(id as usize) && 0 <= id <= usize::MAX <==> (0 <= id < k + 1
                        && self.due_at(id, now as nat)) by {
                    if r@.contains(id as usize) && 0 <= id <= usize::MAX {
                        let i = choose|i: int| 0 <= i < r@.len() && r@[i] == id as usize;
                        if i < before.len() {
                            assert(before[i] == id as usize);
                            assert(before.contains(id as usize));
                        }
                    }
                    if 0 <= id < k && before.contains(id as usize) {
                        let i = choose|i: int| 0 <= i < before.len() && before[i] == id as usize;
                        assert(r@[i] == id as usize);
                    }
                    if hit && id == k {
                        assert(r@[r@.len() - 1] == k);
                    }
                }
            }
            k += 1;
        }
        r
    }

    /// The name and the position known of each open database among `ids`, in the order of
    /// `ids`: what a request for the changes of many databases names.
    pub fn positions(&self, ids: &Vec<usize>) -> (r: Vec<(String, Option<Pos>)>)
        requires
            self.wf(),
        ensures
            named_positions(r@) == self.positions_of(ids@),
    {
        let mut r: Vec<(String, Option<Pos>)> = Vec::new();
        let mut i: usize = 0;
        while i < ids.len()
            invariant
                i <= ids@.len(),
                self.wf(),
                named_positions(r@) == self.positions_of(ids@.subrange(0, i as int)),
            decreases ids@.len() - i,
        {
            let id = ids[i];
            proof {
                assert(ids@.subrange(0, i + 1).drop_last() =~= ids@.subrange(0, i as int));
                assert(ids@.subrange(0, i + 1).last() == id);
            }
            if id < self.dbs.len() {
                match &self.dbs[id] {
                    Some(d) => {
                        let name = interner_resolve(&self.interner, id).unwrap();
                        let ghost before = r@;
                        r.push((name, d.position));
                        proof {
                            assert(r@.drop_last() =~= before);
                            assert(named_positions(r@) =~= named_positions(before).push(
                                (name@, d.position),
                            ));
                        }
                    },
                    None => {},
                }
            }
            i += 1;
        }
        proof {
            assert(ids@.subrange(0, i as int) =~= ids@);
        }
        r
    }

    /// Whether a database with the id `id` is open and its period has run out at `now`.
    pub open spec fn due_at(&self, id: int, now: nat) -> bool {
        self.slot(id) is Some && self.slot(id)->0.needs_sync(now)
    }

    /// The names and positions of the open databases among `ids`.
    pub open spec fn positions_of(&self, ids: Seq<usize>) -> Seq<(Seq<char>, Option<Pos>)>
        decreases ids.len(),
    {
        if ids.len() == 0 {
            Seq::empty()
        } else {
            let rest = self.positions_of(ids.drop_last());
            match self.slot(ids.last() as int) {
                Some(d) => rest.push((self.names()[ids.last() as int], d.position)),
                None => rest,
            }
        }
    }

    /// How long the periodic sync may sleep at the time `now`, in nanoseconds: until the
    /// first position of an open database has been used for as long as its period allows.
    /// `None` where no database is open: the sync then sleeps until it is woken.
    pub fn next_wait(&self, now: u128) -> (r: Option<u128>)
        requires
            self.wf(),
        ensures
            r is None <==> (forall|id: int| self.slot(id) is None),
            r is Some ==> exists|a: int|
                {
                    &&& #[trigger] self.slot(a) is Some
                    &&& forall|id: int|
                        (#[trigger] self.slot(id)) is Some ==> self.slot(a)->0.deadline()
                            <= self.slot(id)->0.deadline()
                    &&& r->0 == less(self.slot(a)->0.deadline(), now as nat)
                },
    {
        let mut first: Option<u128> = None;
        let ghost mut a: int = 0;
        let mut k: usize = 0;
        while k < self.dbs.len()
            invariant
                k <= self.dbs@.len(),
                first is None <==> (forall|id: int| 0 <= id < k ==> self.slot(id) is None),
                first is Some ==> 0 <= a < k && self.slot(a) is Some && self.slot(a)->0.deadline()
                    == first->0,
                forall|id: int|
                    0 <= id < k && (#[trigger] self.slot(id)) is Some ==> first is Some && first->0
                        <= self.slot(id)->0.deadline(),
            decreases self.dbs@.len() - k,
        {
            match &self.dbs[k] {
                Some(d) => {
                    let deadline = d.last_sync.saturating_add(d.period);
                    let earlier = match first {
                        Some(t) => deadline < t,
                        None => true,
                    };
                    if earlier {
                        first = Some(deadline);
                        proof {
                            a = k as int;
                        }
                    }
                },
                None => {},
            }
            k += 1;
        }
        match first {
            Some(t) => {
                proof {
                    assert(self.slot(a) is Some);
                }
                Some(t.saturating_sub(now))
            },
            None => None,
        }
    }

    /// How many connections are open on the open database `db`.
    pub fn connections(&self, db: &str) -> (r: u32)
        requires
            self.wf(),
            self.db(db@) is Some,
        ensures
            r == self.db(db@)->0.conns,
    {
        let id = self.find(db).unwrap();
        self.dbs[id].as_ref().unwrap().conns
    }

    /// Takes in the store's answer to a request for the changes of many databases, which
    /// came at the time `now`. `sent` holds the names and positions that the request named
    /// and `reports` the names and change sets of the answer; of two entries with one name
    /// the first counts. Every open database has its clock reset, also those that the request
    /// did not name or the answer left out, and no position goes back.
    pub fn sync(
        &mut self,
        sent: &Vec<(String, Option<Pos>)>,
        reports: &Vec<(String, lfsc::Changes)>,
        now: u128,
    )
        requires
            old(self).wf(),
        ensures
            final(self).wf(),
            final(self).names() == old(self).names(),
            final(self).has_room() == old(self).has_room(),
            final(self).default_period() == old(self).default_period(),
            forall|name: Seq<char>|
                final(self).db(name) == match #[trigger] old(self).db(name) {
                    Some(d) => Some(
                        d.synced(
                            named(sent@, name),
                            named(reports@, name),
                            now as nat,
                        ),
                    ),
                    None => None,
                },
    {
        let mut k: usize = 0;
        while k < self.dbs.len()
            invariant
                k <= self.dbs@.len(),
                self.wf(),
                self.names() == old(self).names(),
                self.default_period() == old(self).default_period(),
                self.dbs@.len() == old(self).dbs@.len(),
                forall|id: int| k <= id ==> self.slot(id) == old(self).slot(id),
                forall|id: int|
                    0 <= id < k ==> self.slot(id) == match #[trigger] old(self).slot(id) {
                        Some(d) => Some(
                            d.synced(
                                named(sent@, old(self).names()[id]),
                                named(reports@, old(self).names()[id]),
                                now as nat,
                            ),
                        ),
                        None => None,
                    },
            decreases self.dbs@.len() - k,
        {
            if self.dbs[k].is_some() {
                let d = self.dbs[k].as_ref().unwrap().duplicate();
                let name = interner_resolve(&self.interner, k).unwrap();
                let report = lookup(reports, &name);
                let was_sent = lookup(sent, &name);
                let unchanged = match was_sent {
                    Some(i) => same_position(&sent[i].1, &d.position),
                    None => false,
                };
                let local_txid = match d.position {
                    Some(p) => p.txid.into_inner(),
                    None => 0,
                };
                let taken = match report {
                    Some(i) => {
                        let remote_txid = match reports[i].1.pos() {
                            Some(p) => p.txid.into_inner(),
                            None => 0,
                        };
                        remote_txid >= local_txid
                    },
                    None => false,
                };
                let (new_pos, reported) = match report {
                    Some(i) => if taken {
                        (reports[i].1.pos(), remote_changes(&reports[i].1))
                    } else {
                        (d.position, None)
                    },
                    None => (d.position, None),
                };
                let ghost was = d@;
                let ghost want = was.synced(
                    named(sent@, name@),
                    named(reports@, name@),
                    now as nat,
                );
                proof {
                    assert(old(self).slot(k as int) == Some(was));
                    assert(name@ == old(self).names()[k as int]);
                    assert(unchanged == (named(sent@, name@) == Some(was.position)));
                    assert(new_pos == want.position);
                }
                let Db { position: _, changes, conns, last_sync: _, period } = d;
                let changes = merge_changes(
                    if unchanged && taken {
                        reported
                    } else {
                        None
                    },
                    changes,
                );
                let record = Db { position: new_pos, changes, conns, last_sync: now, period };
                proof {
                    assert(record@.changes == want.changes);
                    assert(record@ == want);
                }
                self.store(k, record);
            }
            k += 1;
        }
        proof {
            assert forall|name: Seq<char>|
                final(self).db(name) == match #[trigger] old(self).db(name) {
                    Some(d) => Some(
                        d.synced(named(sent@, name), named(reports@, name), now as nat),
                    ),
                    None => None,
                } by {
                match id_of(old(self).names(), name) {
                    Some(id) => {
                        assert(old(self).names()[id] == name);
                    },
                    None => {},
                }
            }
        }
    }

    /// The id `id` belongs to one name only.
    proof fn lemma_only_name(&self, id: int)
        requires
            self.wf(),
            0 <= id < self.names().len(),
        ensures
            id_of(self.names(), self.names()[id]) == Some(id),
            forall|other: Seq<char>|
                other != self.names()[id] ==> id_of(self.names(), other) != Some(id),
    {
        lemma_id_of(self.names(), id);
        assert forall|other: Seq<char>| other != self.names()[id] implies id_of(
            self.names(),
            other,
        ) != Some(id) by {
            if id_of(self.names(), other) == Some(id) {
                assert(self.names()[id] == other);
            }
        }
    }

} // impl Syncer

/// `a` less `b`, and nothing where `b` is the greater.
pub open spec fn less(a: nat, b: nat) -> nat {
    if a >= b {
        (a - b) as nat
    } else {
        0
    }
}

/// The names and positions of a request, with the names as plain text.
pub open spec fn named_positions(entries: Seq<(String, Option<Pos>)>) -> Seq<
    (Seq<char>, Option<Pos>),
> {
    Seq::new(entries.len(), |i: int| (entries[i].0@, entries[i].1))
}

/// The place of the first entry of `entries` that goes by `name`.
pub open spec fn first_named<T>(entries: Seq<(String, T)>, name: Seq<char>) -> Option<int>
    decreases entries.len(),
{
    if entries.len() == 0 {
        None
    } else {
        match first_named(entries.drop_last(), name) {
            Some(i) => Some(i),
            None => if entries.last().0@ == name {
                Some(entries.len() - 1)
            } else {
                None
            },
        }
    }
}

/// What the first entry of `entries` that goes by `name` holds.
pub open spec fn named<T>(entries: Seq<(String, T)>, name: Seq<char>) -> Option<T> {
    match first_named(entries, name) {
        Some(i) => Some(entries[i].1),
        None => None,
    }
}

/// Finds the first entry of `entries` that goes by `name`.
pub fn lookup<T>(entries: &Vec<(String, T)>, name: &String) -> (r: Option<usize>)
    ensures
        match first_named(entries@, name@) {
            Some(i) => r == Some(i as usize) && 0 <= i < entries@.len() && i <= usize::MAX,
            None => r is None,
        },
{
    let mut i: usize = 0;
    while i < entries.len()
        invariant
            i <= entries@.len(),
            first_named(entries@.subrange(0, i as int), name@) is None,
        decreases entries@.len() - i,
    {
        proof {
            assert(entries@.subrange(0, i + 1).drop_last() =~= entries@.subrange(0, i as int));
        }
        if entries[i].0 == *name {
            proof {
                lemma_first_named_prefix(entries@, name@, i as int);
            }
            return Some(i);
        }
        i += 1;
    }
    proof {
        assert(entries@.subrange(0, i as int) =~= entries@);
    }
    None
}

/// The first entry by a name among the first entries is the first among all.
pub proof fn lemma_first_named_prefix<T>(entries: Seq<(String, T)>, name: Seq<char>, i: int)
    requires
        0 <= i < entries.len(),
        first_named(entries.subrange(0, i + 1), name) == Some(i),
    ensures
        first_named(entries, name) == Some(i),
    decreases entries.len(),
{
    if i + 1 < entries.len() {
        assert(entries.drop_last().subrange(0, i + 1) =~= entries.subrange(0, i + 1));
        lemma_first_named_prefix(entries.drop_last(), name, i);
    } else {
        assert(entries.subrange(0, i + 1) =~= entries);
    }
}

/// What a report invalidates, without taking the report apart.
fn remote_changes(c: &lfsc::Changes) -> (r: Option<Changes>)
    ensures
        changes_view(r) == c.change_set(),
{
    match c {
        lfsc::Changes::All(_) => Some(Changes::All),
        lfsc::Changes::Pages(_, None) => None,
        lfsc::Changes::Pages(_, Some(pages)) => Some(Changes::Pages(page_set_of(pages))),
    }
}

/// The set of the page numbers of `pages`.
pub fn page_set_of(pages: &Vec<PageNum>) -> (set: PageSet)
    ensures
        set@.to_set() == lfsc::page_numbers(pages@),
{
    let mut set = PageSet::new();
    let mut i: usize = 0;
    while i < pages.len()
        invariant
            i <= pages@.len(),
            forall|n: u32|
                set@.contains(n) <==> lfsc::page_numbers(pages@.subrange(0, i as int)).contains(n),
        decreases pages@.len() - i,
    {
        let ghost before = set@;
        set.insert(pages[i]);
        proof {
            let s0 = pages@.subrange(0, i as int);
            let s1 = pages@.subrange(0, i + 1);
            assert forall|n: u32| set@.contains(n) <==> lfsc::page_numbers(s1).contains(n) by {
                if lfsc::page_numbers(s1).contains(n) {
                    let k = choose|k: int| 0 <= k < s1.len() && (#[trigger] s1[k])@ == n;
                    if k < i {
                        assert(s0[k]@ == n);
                    }
                }
                if before.contains(n) {
                    let k = choose|k: int| 0 <= k < s0.len() && (#[trigger] s0[k])@ == n;
                    assert(s1[k]@ == n);
                }
                assert(s1[i as int]@ == pages@[i as int]@);
            }
        }
        i += 1;
    }
    proof {
        assert(pages@.subrange(0, i as int) =~= pages@);
        assert(set@.to_set() =~= lfsc::page_numbers(pages@));
    }
    set
}

/// Whether two positions are the same, or both are none.
pub fn same_position(a: &Option<Pos>, b: &Option<Pos>) -> (r: bool)
    ensures
        r == (*a == *b),
{
    match (a, b) {
        (Some(x), Some(y)) => x.txid == y.txid && x.post_apply_checksum == y.post_apply_checksum,
        (None, None) => true,
        _ => false,
    }
}

} // verus!
