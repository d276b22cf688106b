//! What the engine's file operations come to: which kind of file a name stands for, who may
//! open a database, how many pages a query may fetch, and when a journal ends a
//! transaction.

use crate::database::{journal_magic, Database, DatabaseState, MAX_MAX_PREFETCH_PAGES};
use crate::error::ErrorKind;
use crate::locks::{may_transition, transition_spec, ConnLock, LockKind};
use crate::pager::{page_fetch, PageSource};
use crate::text::{
    ends_with, short_hex_text, starts_with, str_starts_with, strip_suffix, to_short_hex,
    trim_end_matches, without_suffixes,
};
use crate::pager::Pager;
use crate::syncer::{DbState, Syncer};
use crate::text::{number, parse_number, str_eq, decimal_text, to_decimal};
use crate::types::Pos;
use vstd::prelude::*;
use vstd::string::{StrSliceExecFns, StringExecFns, StringSliceAdditionalSpecFns};

verus! {

/// How many pages a query may fetch from the remote store unless it is told otherwise.
pub const DEFAULT_MAX_REQS_PER_QUERY: usize = 64;

/// The most pages that a query can be allowed to fetch from the remote store.
pub const MAX_MAX_REQS_PER_QUERY: usize = 1024;

/// The length of the header of a rollback journal.
pub const JOURNAL_HDR_SIZE: usize = 28;

/// The kinds of file that the engine opens.
#[derive(Clone, Copy, Debug, PartialEq, Eq, Structural)]
pub enum OpenKind {
    MainDb,
    MainJournal,
    TempDb,
    TempJournal,
    TransientDb,
    SubJournal,
    SuperJournal,
    Wal,
}

/// What the engine wants to do with a file that it opens.
#[derive(Clone, Copy, Debug, PartialEq, Eq, Structural)]
pub enum OpenAccess {
    /// Read it.
    Read,
    /// Read and write it.
    Write,
    /// Read and write it, and create it if it does not exist.
    Create,
    /// Create it, and fail if it exists.
    CreateNew,
}

/// The database that the file name `db` belongs to, and the kind of file that the name
/// stands for: the journal of a database, its write-ahead log, a temporary database, or a
/// database.
pub open spec fn name_kind(db: Seq<char>) -> (Seq<char>, OpenKind) {
    if ends_with(db, "-journal"@) {
        (db.subrange(0, db.len() - "-journal"@.len()), OpenKind::MainJournal)
    } else if ends_with(db, "-wal"@) {
        (
            without_suffixes(db.subrange(0, db.len() - "-wal"@.len()), "-wal"@),
            OpenKind::Wal,
        )
    } else if starts_with(db, "sfvetil-"@) {
        (db, OpenKind::TempDb)
    } else {
        (db, OpenKind::MainDb)
    }
}

/// The database that the file name `db` belongs to, and the kind of file that the name
/// stands for.
pub fn database_name_kind<'a>(db: &'a str) -> (r: (&'a str, OpenKind))
    ensures
        r.0@ == name_kind(db@).0,
        r.1 == name_kind(db@).1,
{
    proof {
        reveal_strlit("-wal");
    }
    match strip_suffix(db, "-journal") {
        Some(name) => return (name, OpenKind::MainJournal),
        None => {},
    }
    match strip_suffix(db, "-wal") {
        Some(name) => return (trim_end_matches(name, "-wal"), OpenKind::Wal),
        None => {},
    }
    if str_starts_with(db, "sfvetil-") {
        (db, OpenKind::TempDb)
    } else {
        (db, OpenKind::MainDb)
    }
}

/// Whether the engine may open the file `db` as a file of the kind `kind`, and if so,
/// which database it belongs to and what it is opened as. Only databases, temporary
/// databases and their journals are opened, and the name must stand for the kind, except
/// that a temporary database goes by any name and a temporary journal goes with any kind.
pub open spec fn open_target(db: Seq<char>, kind: OpenKind) -> Option<(Seq<char>, OpenKind)> {
    let supported = kind == OpenKind::MainDb || kind == OpenKind::TempDb || kind
        == OpenKind::MainJournal || kind == OpenKind::TempJournal;
    let named = name_kind(db).1;
    if !supported {
        None
    } else if named != kind && (kind != OpenKind::TempJournal && named != OpenKind::TempDb) {
        None
    } else if named == OpenKind::MainDb || named == OpenKind::TempDb || named
        == OpenKind::MainJournal {
        Some(name_kind(db))
    } else {
        None
    }
}

/// Decides whether the engine may open the file `db` as a file of the kind `kind`.
pub fn open(db: &str, kind: OpenKind) -> (r: Result<(&str, OpenKind), ErrorKind>)
    ensures
        match open_target(db@, kind) {
            Some(t) => r matches Ok(got) && got.0@ == t.0 && got.1 == t.1,
            None => r matches Err(e) && e == ErrorKind::InvalidInput,
        },
{
    let supported = kind == OpenKind::MainDb || kind == OpenKind::TempDb || kind
        == OpenKind::MainJournal || kind == OpenKind::TempJournal;
    if !supported {
        return Err(ErrorKind::InvalidInput);
    }
    let (dbname, named) = database_name_kind(db);
    if named != kind && (kind != OpenKind::TempJournal && named != OpenKind::TempDb) {
        return Err(ErrorKind::InvalidInput);
    }
    match named {
        OpenKind::MainDb | OpenKind::TempDb | OpenKind::MainJournal => Ok((dbname, named)),
        _ => Err(ErrorKind::InvalidInput),
    }
}

/// The name of the `counter`-th temporary database of the process `pid`.
pub fn temporary_name(pid: u32, counter: u64) -> (r: String)
    ensures
        r@ == "sfvetil-"@ + short_hex_text(pid as nat) + "_"@ + short_hex_text(counter as nat)
            + ".db"@,
{
    let mut r = String::from_str("sfvetil-");
    r.append(to_short_hex(pid as u64).as_str());
    r.append("_");
    r.append(to_short_hex(counter).as_str());
    r.append(".db");
    r
}

/// Where a database that is to be opened was found.
pub enum Found {
    /// Among the databases that the process has open.
    Open,
    /// On the local disk, where an earlier process has left its position.
    OnDisk,
    /// At the remote store, with the position that the store reports, if it reports one.
    Remote(Option<Pos>),
    /// Nowhere.
    Nowhere,
}

/// What opening a database comes to, given where it was found and what the engine wants to
/// do with it. A database that exists cannot be created anew. A database that does not
/// exist is created at the remote store's side of things if the engine asks for that, and
/// is not found otherwise.
pub open spec fn opened(found: Found, access: OpenAccess) -> Result<Option<Option<Pos>>, ErrorKind> {
    match found {
        Found::Open | Found::OnDisk => if access == OpenAccess::CreateNew {
            Err(ErrorKind::AlreadyExists)
        } else {
            Ok(None)
        },
        Found::Remote(pos) => if access == OpenAccess::CreateNew {
            Err(ErrorKind::AlreadyExists)
        } else {
            Ok(Some(pos))
        },
        Found::Nowhere => if access == OpenAccess::Read || access == OpenAccess::Write {
            Err(ErrorKind::NotFound)
        } else {
            Ok(Some(None))
        },
    }
}

/// Decides what opening a database comes to: a failure, the database as it is open or on
/// disk (`None`), or a new record of the database at the position given.
pub fn get_database(found: Found, access: OpenAccess) -> (r: Result<Option<Option<Pos>>, ErrorKind>)
    ensures
        r == opened(found, access),
{
    match found {
        Found::Open | Found::OnDisk => if access == OpenAccess::CreateNew {
            Err(ErrorKind::AlreadyExists)
        } else {
            Ok(None)
        },
        Found::Remote(pos) => if access == OpenAccess::CreateNew {
            Err(ErrorKind::AlreadyExists)
        } else {
            Ok(Some(pos))
        },
        Found::Nowhere => if access == OpenAccess::Read || access == OpenAccess::Write {
            Err(ErrorKind::NotFound)
        } else {
            Ok(Some(None))
        },
    }
}

/// Whether the database `db` may be opened for `access`: a database in write-ahead-log
/// mode or one that vacuums itself is opened for reading only.
pub fn check_access(db: &Database, access: OpenAccess) -> (r: Result<(), ErrorKind>)
    ensures
        r is Err <==> access != OpenAccess::Read && (db@.wal || db@.auto_vacuum),
        r matches Err(e) ==> e == ErrorKind::Unsupported,
{
    if access != OpenAccess::Read && (db.is_wal() || db.is_auto_vacuum()) {
        return Err(ErrorKind::Unsupported);
    }
    Ok(())
}

/// Whether a write of `buf` at `offset` into a journal ends the transaction: it is a
/// write of exactly 28 zeros at the start.
pub open spec fn invalidates_journal(buf: Seq<u8>, offset: u64) -> bool {
    offset == 0 && buf.len() == JOURNAL_HDR_SIZE && forall|i: int| 0 <= i < buf.len() ==> buf[i] == 0
}

/// Whether a write of `buf` at `offset` into a journal ends the transaction.
pub fn journal_write_commits(buf: &[u8], offset: u64) -> (r: bool)
    ensures
        r == invalidates_journal(buf@, offset),
{
    if offset != 0 || buf.len() != JOURNAL_HDR_SIZE {
        return false;
    }
    let mut i: usize = 0;
    while i < buf.len()
        invariant
            i <= buf@.len(),
            forall|k: int| 0 <= k < i ==> buf@[k] == 0,
        decreases buf@.len() - i,
    {
        if buf[i] != 0 {
            return false;
        }
        i += 1;
    }
    true
}

/// Whether a write of `buf` at `offset` into a journal is a header that tells the page
/// size.
pub fn journal_write_tells_page_size(buf: &[u8], offset: u64) -> (r: bool)
    ensures
        r == (offset == 0 && buf@.len() >= JOURNAL_HDR_SIZE),
{
    offset == 0 && buf.len() >= JOURNAL_HDR_SIZE
}

/// Takes in a write of `buf` at `offset` into the journal of `db`, before it reaches the
/// journal file, and says whether the write ends the transaction. A write of exactly 28
/// zeros at the start always does, whatever the database knows. Any other journal header
/// tells the page size where the database does not know it yet; one that names none is
/// refused.
pub fn journal_write(db: &mut Database, buf: &[u8], offset: u64) -> (r: Result<bool, ErrorKind>)
    ensures
        final(db).name_spec() == old(db).name_spec(),
        final(db).lock_state() == old(db).lock_state(),
        old(db).wf() ==> final(db).wf(),
        final(db)@ == (DatabaseState { page_size: final(db)@.page_size, ..old(db)@ }),
        invalidates_journal(buf@, offset) ==> r == Ok::<bool, ErrorKind>(true) && final(db)@ == old(
            db,
        )@,
        !invalidates_journal(buf@, offset) && !tells_page_size(*old(db), buf@, offset) ==> r
            == Ok::<bool, ErrorKind>(false) && final(db)@ == old(db)@,
        !invalidates_journal(buf@, offset) && tells_page_size(*old(db), buf@, offset) ==> (
        if crate::types::is_page_size(crate::sqlite::be32(buf@, 24) as u32) {
            r == Ok::<bool, ErrorKind>(false) && final(db)@.page_size == Some(
                crate::sqlite::be32(buf@, 24) as u32,
            )
        } else {
            r == Err::<bool, ErrorKind>(ErrorKind::InvalidData) && final(db)@ == old(db)@
        }),
{
    if journal_write_commits(buf, offset) {
        return Ok(true);
    }
    if journal_write_tells_page_size(buf, offset) && db.page_size().is_err() {
        match Database::parse_page_size_journal(buf) {
            Ok(s) => db.learn_page_size(s),
            Err(e) => return Err(e),
        }
    }
    Ok(false)
}

/// Whether a write of `buf` at `offset` into the journal of `db` is a header from which the
/// database learns its page size: it does not know one yet.
pub open spec fn tells_page_size(db: Database, buf: Seq<u8>, offset: u64) -> bool {
    offset == 0 && buf.len() >= JOURNAL_HDR_SIZE && db@.page_size is None
}

/// What the engine's request to delete the file `db` comes to.
#[derive(Debug, PartialEq, Eq)]
pub enum Deletion<'a> {
    /// Nothing: databases stay.
    Nothing,
    /// The journal of the database named is deleted, which ends the transaction.
    Journal(&'a str),
}

/// Decides what the engine's request to delete the file `db` comes to.
pub fn delete<'a>(db: &'a str) -> (r: Deletion<'a>)
    ensures
        match name_kind(db@).1 {
            OpenKind::MainJournal => r matches Deletion::Journal(name) && name@ == name_kind(db@).0,
            _ => r is Nothing,
        },
{
    let (name, kind) = database_name_kind(db);
    match kind {
        OpenKind::MainJournal => Deletion::Journal(name),
        _ => Deletion::Nothing,
    }
}

/// Where to look for the file `db` when the engine asks whether it exists.
#[derive(Debug, PartialEq, Eq)]
pub enum Existence<'a> {
    /// Among the databases that are open or that the remote store knows.
    Database(&'a str),
    /// Beside the database named, where its journal is kept.
    Journal(&'a str),
    /// Nowhere: the file does not exist.
    Nowhere,
}

/// Decides where to look for the file `db` when the engine asks whether it exists.
pub fn file_exists<'a>(db: &'a str) -> (r: Existence<'a>)
    ensures
        match name_kind(db@).1 {
            OpenKind::MainDb => r matches Existence::Database(name) && name@ == name_kind(db@).0,
            OpenKind::MainJournal => r matches Existence::Journal(name) && name@ == name_kind(
                db@,
            ).0,
            _ => r is Nowhere,
        },
{
    let (name, kind) = database_name_kind(db);
    match kind {
        OpenKind::MainDb => Existence::Database(name),
        OpenKind::MainJournal => Existence::Journal(name),
        _ => Existence::Nowhere,
    }
}

/// A write that starts with the journal magic does not end the transaction: only zeros
/// do, and the magic has none.
pub proof fn lemma_magic_keeps_journal(buf: Seq<u8>, offset: u64)
    requires
        buf.len() >= 8,
        buf.subrange(0, 8) == journal_magic(),
    ensures
        !invalidates_journal(buf, offset),
{
    assert(buf.subrange(0, 8)[0] == buf[0]);
    assert(journal_magic()[0] == 0xd9u8);
}

/// One connection to a database: its lock state and the pages that the query at hand has
/// fetched from the remote store.
pub struct LiteDatabaseHandle {
    lock: ConnLock,
    name: String,
    cur_pages_per_query: usize,
    max_pages_per_query: usize,
}

impl LiteDatabaseHandle {
    /// The state of the connection's lock.
    pub closed spec fn lock_spec(&self) -> LockKind {
        self.lock@
    }

    /// The name of the database.
    pub closed spec fn name_spec(&self) -> Seq<char> {
        self.name@
    }

    /// How many pages the query at hand has fetched from the remote store.
    pub closed spec fn fetched(&self) -> nat {
        self.cur_pages_per_query as nat
    }

    /// How many pages a query may fetch from the remote store; zero stands for any number.
    pub closed spec fn budget(&self) -> nat {
        self.max_pages_per_query as nat
    }

    /// Whether the query at hand has used up its budget.
    pub open spec fn exhausted(&self) -> bool {
        self.budget() > 0 && self.fetched() >= self.budget()
    }

    /// A connection to `db` that holds no lock and has fetched nothing.
    pub fn new(db: &Database) -> (r: LiteDatabaseHandle)
        ensures
            r.lock_spec() == LockKind::Unlocked,
            r.name_spec() == db.name_spec(),
            r.fetched() == 0,
            r.budget() == DEFAULT_MAX_REQS_PER_QUERY,
    {
        LiteDatabaseHandle {
            lock: db.conn_lock(),
            name: db.name().to_owned(),
            cur_pages_per_query: 0,
            max_pages_per_query: DEFAULT_MAX_REQS_PER_QUERY,
        }
    }

    /// The name of the database.
    pub fn handle_name(&self) -> (r: &str)
        ensures
            r@ == self.name_spec(),
    {
        self.name.as_str()
    }

    /// The state of the connection's lock.
    pub fn current_lock(&self) -> (r: LockKind)
        ensures
            r == self.lock_spec(),
    {
        self.lock.state()
    }

    /// Whether this connection holds at least a shared lock, or any connection to `db` is
    /// a writer.
    pub fn reserved(&self, db: &Database) -> (r: bool)
        ensures
            r == (self.lock_spec().rank() >= 1 || db.lock_state().writer is Some),
    {
        db.reserved(&self.lock)
    }

    /// Whether the next read must stay off the remote store: the query has fetched as many
    /// pages from there as it may.
    pub fn local_only(&self) -> (r: bool)
        ensures
            r == self.exhausted(),
    {
        self.max_pages_per_query > 0 && self.cur_pages_per_query >= self.max_pages_per_query
    }

    /// Takes note of where a read got its page from: a page from the remote store counts
    /// against the query's budget.
    pub fn read_exact_at(&mut self, source: PageSource)
        ensures
            final(self).lock_spec() == old(self).lock_spec(),
            final(self).name_spec() == old(self).name_spec(),
            final(self).budget() == old(self).budget(),
            final(self).fetched() == if source == PageSource::Remote && old(self).fetched()
                < usize::MAX {
                old(self).fetched() + 1
            } else {
                old(self).fetched()
            },
    {
        match source {
            PageSource::Remote => {
                if self.cur_pages_per_query < usize::MAX {
                    self.cur_pages_per_query += 1;
                }
            },
            PageSource::Local => {},
        }
    }

    /// Whether the database should look at the remote store before the connection takes
    /// the lock `lock`: a connection that holds nothing is about to read, and the syncer
    /// says that the position is stale.
    pub fn wants_sync(&self, lock: LockKind, needs_sync: bool) -> (r: bool)
        ensures
            r == (self.lock_spec() == LockKind::Unlocked && lock == LockKind::Shared && needs_sync),
    {
        self.lock.state() == LockKind::Unlocked && lock == LockKind::Shared && needs_sync
    }

    /// Asks the lock of `db` for `lock`, and says whether the connection now holds exactly
    /// that. A connection that lets go of everything starts a new query: its budget is whole
    /// again.
    pub fn lock(&mut self, db: &mut Database, lock: LockKind) -> (r: bool)
        requires
            may_transition(old(db).lock_state(), old(self).lock_spec(), lock),
        ensures
            (final(db).lock_state(), final(self).lock_spec()) == transition_spec(
                old(db).lock_state(),
                old(self).lock_spec(),
                lock,
            ),
            r == (final(self).lock_spec() == lock),
            final(db)@ == old(db)@,
            final(db).name_spec() == old(db).name_spec(),
            old(db).wf() ==> final(db).wf(),
            final(self).name_spec() == old(self).name_spec(),
            final(self).budget() == old(self).budget(),
            final(self).fetched() == if lock == LockKind::Unlocked {
                0
            } else {
                old(self).fetched()
            },
    {
        if lock == LockKind::Unlocked {
            self.cur_pages_per_query = 0;
        }
        db.acquire(&mut self.lock, lock)
    }

    /// Makes one attempt to take the lock of `db` for this connection alone, and says
    /// whether the connection has it. A connection that holds nothing tries to become a
    /// reader and then the one writer, and lets go again where another connection is the
    /// writer. The writer then waits for the readers to leave: the caller repeats the attempt
    /// until it succeeds or time runs out.
    pub fn acquire_exclusive(&mut self, db: &mut Database) -> (r: Result<bool, ErrorKind>)
        requires
            old(self).lock_spec() == LockKind::Unlocked ==> may_transition(
                old(db).lock_state(),
                LockKind::Unlocked,
                LockKind::Shared,
            ),
        ensures
            final(db)@ == old(db)@,
            final(db).name_spec() == old(db).name_spec(),
            old(db).wf() ==> final(db).wf(),
            final(self).name_spec() == old(self).name_spec(),
            final(self).budget() == old(self).budget(),
            final(self).fetched() == old(self).fetched(),
            (final(db).lock_state(), final(self).lock_spec(), r) == exclusive_attempt(
                old(db).lock_state(),
                old(self).lock_spec(),
            ),
    {
        let state = self.lock.state();
        if state == LockKind::Exclusive || state == LockKind::Shared {
            return Err(ErrorKind::Other);
        }
        if state == LockKind::Unlocked {
            if !db.acquire(&mut self.lock, LockKind::Shared) {
                return Ok(false);
            }
            if !db.acquire(&mut self.lock, LockKind::Reserved) {
                db.acquire(&mut self.lock, LockKind::Unlocked);
                return Ok(false);
            }
        }
        Ok(db.acquire(&mut self.lock, LockKind::Exclusive))
    }

    /// Lets go of the lock that [`LiteDatabaseHandle::acquire_exclusive`] has taken.
    pub fn release_exclusive(&mut self, db: &mut Database)
        requires
            may_transition(old(db).lock_state(), old(self).lock_spec(), LockKind::Unlocked),
        ensures
            (final(db).lock_state(), final(self).lock_spec()) == transition_spec(
                old(db).lock_state(),
                old(self).lock_spec(),
                LockKind::Unlocked,
            ),
            final(db)@ == old(db)@,
            final(db).name_spec() == old(db).name_spec(),
            old(db).wf() ==> final(db).wf(),
            final(self).name_spec() == old(self).name_spec(),
            final(self).budget() == old(self).budget(),
            final(self).fetched() == old(self).fetched(),
    {
        db.acquire(&mut self.lock, LockKind::Unlocked);
    }
}

/// What one attempt to take a lock for one connection alone comes to: the lock's state,
/// the connection's state, and whether the connection has the lock to itself. A connection
/// that reads or has the lock already is refused the attempt.
pub open spec fn exclusive_attempt(s: crate::locks::LockState, conn: LockKind) -> (
    crate::locks::LockState,
    LockKind,
    Result<bool, ErrorKind>,
) {
    if conn == LockKind::Exclusive || conn == LockKind::Shared {
        (s, conn, Err(ErrorKind::Other))
    } else if conn == LockKind::Unlocked {
        let (s1, c1) = transition_spec(s, conn, LockKind::Shared);
        if c1 != LockKind::Shared {
            (s1, c1, Ok(false))
        } else {
            let (s2, c2) = transition_spec(s1, c1, LockKind::Reserved);
            if c2 != LockKind::Reserved {
                let (s3, c3) = transition_spec(s2, c2, LockKind::Unlocked);
                (s3, c3, Ok(false))
            } else {
                let (s3, c3) = transition_spec(s2, c2, LockKind::Exclusive);
                (s3, c3, Ok(c3 == LockKind::Exclusive))
            }
        }
    } else {
        let (s1, c1) = transition_spec(s, conn, LockKind::Exclusive);
        (s1, c1, Ok(c1 == LockKind::Exclusive))
    }
}

/// Once a query has fetched as many pages from the remote store as it may, a read that
/// misses the cache would block, whatever the database's position; and a connection that
/// lets go of its lock may fetch again.
pub proof fn lemma_budget(handle: LiteDatabaseHandle, pos: Option<Pos>)
    requires
        handle.exhausted(),
    ensures
        page_fetch(Err(ErrorKind::NotFound), handle.exhausted(), pos) == Err::<
            Option<Pos>,
            ErrorKind,
        >(ErrorKind::WouldBlock),
{
}

/// The number of bytes that the `bytesize` crate reads `text` as, if it reads it.
pub uninterp spec fn bytesize_value(text: Seq<char>) -> Option<u64>;

/// How the `humantime` crate writes a duration of `secs` seconds and `nanos` nanoseconds.
pub uninterp spec fn humantime_text(secs: u64, nanos: u32) -> Seq<char>;

/// The duration that the `humantime` crate reads `text` as, if it reads it: seconds, and
/// nanoseconds below a second.
pub uninterp spec fn humantime_value(text: Seq<char>) -> Option<(u64, u32)>;

/// `text` as the standard library puts it in upper case.
pub uninterp spec fn uppercase(text: Seq<char>) -> Seq<char>;

/// `ByteSize::to_string_as` with binary units: writes a number of bytes. Below 1024 the
/// text is the number and ` B`. From there on the crate picks the unit by a logarithm in
/// floating point, whose last digit the machine decides, so nothing is said of the text.
#[verifier::external_body]
pub(crate) fn bytesize_to_string(bytes: u64) -> (r: String)
    ensures
        bytes < 1024 ==> r@ == decimal_text(bytes as nat) + " B"@,
{
    bytesize::ByteSize::b(bytes).to_string_as(true)
}

/// `ByteSize::from_str`: reads a number of bytes with or without a unit.
#[verifier::external_body]
pub(crate) fn bytesize_parse(text: &str) -> (r: Option<u64>)
    ensures
        r == bytesize_value(text@),
{
    text.parse::<bytesize::ByteSize>().ok().map(|b| b.as_u64())
}

/// `humantime::format_duration`: writes a duration in words.
#[verifier::external_body]
pub(crate) fn humantime_format(secs: u64, nanos: u32) -> (r: String)
    requires
        nanos < 1_000_000_000,
    ensures
        r@ == humantime_text(secs, nanos),
{
    humantime::format_duration(std::time::Duration::new(secs, nanos)).to_string()
}

/// `humantime::parse_duration`: reads a duration in words. The crate adds up the spans of
/// the text and panics where the seconds run over at the last carry; with eleven digits in
/// all the sum stays far below that, so the caller hands on no text with more.
#[verifier::external_body]
pub(crate) fn humantime_parse(text: &str) -> (r: Option<(u64, u32)>)
    requires
        digit_count(text.spec_bytes()) <= MAX_DURATION_DIGITS,
    ensures
        r == humantime_value(text@),
        r is Some ==> (r->0).1 < 1_000_000_000,
{
    humantime::parse_duration(text).ok().map(|d| (d.as_secs(), d.subsec_nanos()))
}

/// `str::to_uppercase`: a string in upper case.
#[verifier::external_body]
pub(crate) fn to_uppercase(text: &str) -> (r: String)
    ensures
        r@ == uppercase(text@),
{
    text.to_uppercase()
}

/// What a pragma asks for.
#[derive(Clone, Copy, Debug, PartialEq, Eq, Structural)]
pub enum Pragma {
    /// Nothing that the library knows: the engine deals with it.
    Unknown,
    /// Write-ahead-log mode, which is refused.
    Refused,
    /// A setting with a value that cannot be read or is too large.
    Invalid,
    GetMinAvailableSpace,
    SetMinAvailableSpace(u64),
    GetMaxCachedPages,
    SetMaxCachedPages(usize),
    GetMaxReqsPerQuery,
    SetMaxReqsPerQuery(usize),
    GetCacheSyncPeriod,
    /// The sync period in nanoseconds.
    SetCacheSyncPeriod(u128),
    GetMaxPrefetchPages,
    SetMaxPrefetchPages(usize),
    AcquireLease,
    ReleaseLease,
    CacheDb,
}

/// The number that `text` spells, if it is at most `max`; a setting that is.
pub open spec fn count_setting(text: Seq<char>, max: int) -> Option<int> {
    number(text, 10, if max < usize::MAX {
        max
    } else {
        usize::MAX as int
    })
}

/// The most digits that a duration in words may hold.
pub const MAX_DURATION_DIGITS: usize = 11;

/// How many of the bytes `bytes` are decimal digits.
pub open spec fn digit_count(bytes: Seq<u8>) -> nat
    decreases bytes.len(),
{
    if bytes.len() == 0 {
        0
    } else {
        digit_count(bytes.drop_last()) + if 48 <= bytes.last() <= 57 {
            1nat
        } else {
            0nat
        }
    }
}

/// Whether `text` holds more digits than a duration in words may.
fn too_many_digits(text: &str) -> (r: bool)
    ensures
        r == (digit_count(text.spec_bytes()) > MAX_DURATION_DIGITS),
{
    let bytes = text.as_bytes();
    let mut count: usize = 0;
    let mut i: usize = 0;
    while i < bytes.len()
        invariant
            i <= bytes@.len(),
            count == digit_count(bytes@.take(i as int)),
            count <= MAX_DURATION_DIGITS,
            bytes@ == text.spec_bytes(),
        decreases bytes@.len() - i,
    {
        proof {
            assert(bytes@.take(i + 1).drop_last() =~= bytes@.take(i as int));
            assert(bytes@.take(i + 1).last() == bytes@[i as int]);
        }
        if 48 <= bytes[i] && bytes[i] <= 57 {
            if count == MAX_DURATION_DIGITS {
                proof {
                    lemma_digit_count_grows(bytes@, i + 1);
                }
                return true;
            }
            count += 1;
        }
        i += 1;
    }
    proof {
        assert(bytes@.take(i as int) =~= bytes@);
    }
    false
}

/// The first bytes of a text hold no more digits than the text.
pub proof fn lemma_digit_count_grows(bytes: Seq<u8>, k: int)
    requires
        0 <= k <= bytes.len(),
    ensures
        digit_count(bytes.take(k)) <= digit_count(bytes),
    decreases bytes.len() - k,
{
    if k < bytes.len() {
        assert(bytes.take(k + 1).drop_last() =~= bytes.take(k));
        lemma_digit_count_grows(bytes, k + 1);
    } else {
        assert(bytes.take(k) =~= bytes);
    }
}

/// The sync period that `text` spells, in nanoseconds: a number of seconds where the text
/// ends with a digit, and a duration in words otherwise. Words with more than eleven
/// digits in all spell none.
pub open spec fn period_setting(text: Seq<char>) -> Option<int> {
    if text.len() > 0 && 48 <= text.last() as int <= 57 {
        match number(text, 10, u64::MAX as int) {
            Some(secs) => Some(secs * 1_000_000_000),
            None => None,
        }
    } else if digit_count(vstd::utf8::encode_utf8(text)) > MAX_DURATION_DIGITS {
        None
    } else {
        match humantime_value(text) {
            Some(d) => Some(d.0 * 1_000_000_000 + d.1),
            None => None,
        }
    }
}

/// What the pragma `pragma` with the value `val` asks for.
pub open spec fn pragma_of(pragma: Seq<char>, val: Option<Seq<char>>) -> Pragma {
    if pragma == "journal_mode"@ {
        if val is Some && uppercase(val->0) == "WAL"@ {
            Pragma::Refused
        } else {
            Pragma::Unknown
        }
    } else if pragma == "litevfs_min_available_space"@ {
        match val {
            None => Pragma::GetMinAvailableSpace,
            Some(v) => match bytesize_value(v) {
                Some(n) => Pragma::SetMinAvailableSpace(n),
                None => Pragma::Invalid,
            },
        }
    } else if pragma == "litevfs_max_cached_pages"@ {
        match val {
            None => Pragma::GetMaxCachedPages,
            Some(v) => match count_setting(v, usize::MAX as int) {
                Some(n) => Pragma::SetMaxCachedPages(n as usize),
                None => Pragma::Invalid,
            },
        }
    } else if pragma == "litevfs_max_reqs_per_query"@ {
        match val {
            None => Pragma::GetMaxReqsPerQuery,
            Some(v) => match count_setting(v, MAX_MAX_REQS_PER_QUERY as int) {
                Some(n) => Pragma::SetMaxReqsPerQuery(n as usize),
                None => Pragma::Invalid,
            },
        }
    } else if pragma == "litevfs_cache_sync_period"@ {
        match val {
            None => Pragma::GetCacheSyncPeriod,
            Some(v) => match period_setting(v) {
                Some(n) => Pragma::SetCacheSyncPeriod(n as u128),
                None => Pragma::Invalid,
            },
        }
    } else if pragma == "litevfs_max_prefetch_pages"@ {
        match val {
            None => Pragma::GetMaxPrefetchPages,
            Some(v) => match count_setting(v, MAX_MAX_PREFETCH_PAGES as int) {
                Some(n) => Pragma::SetMaxPrefetchPages(n as usize),
                None => Pragma::Invalid,
            },
        }
    } else if pragma == "litevfs_acquire_lease"@ && val is None {
        Pragma::AcquireLease
    } else if pragma == "litevfs_release_lease"@ && val is None {
        Pragma::ReleaseLease
    } else if pragma == "litevfs_cache_db"@ && val is None {
        Pragma::CacheDb
    } else {
        Pragma::Unknown
    }
}

/// Reads a setting that is a number of at most `max`.
fn parse_count(text: &str, max: usize) -> (r: Option<usize>)
    ensures
        match count_setting(text@, max as int) {
            Some(n) => r == Some(n as usize) && 0 <= n <= max,
            None => r is None,
        },
{
    match parse_number(text, false) {
        Some(n) => if n <= max as u64 {
            Some(n as usize)
        } else {
            None
        },
        None => None,
    }
}

/// Reads a sync period.
fn parse_period(text: &str) -> (r: Option<u128>)
    ensures
        match period_setting(text@) {
            Some(n) => r == Some(n as u128) && 0 <= n <= u128::MAX,
            None => r is None,
        },
{
    let len = text.unicode_len();
    let digit = if len > 0 {
        let code = text.get_char(len - 1) as u32;
        48 <= code && code <= 57
    } else {
        false
    };
    if digit {
        match parse_number(text, false) {
            Some(secs) => Some(secs as u128 * 1_000_000_000),
            None => None,
        }
    } else if too_many_digits(text) {
        None
    } else {
        match humantime_parse(text) {
            Some((secs, nanos)) => Some(secs as u128 * 1_000_000_000 + nanos as u128),
            None => None,
        }
    }
}

/// Reads what the pragma `pragma` with the value `val` asks for.
pub fn parse_pragma(pragma: &str, val: Option<&str>) -> (r: Pragma)
    ensures
        r == pragma_of(
            pragma@,
            match val {
                Some(v) => Some(v@),
                None => None,
            },
        ),
{
    if str_eq(pragma, "journal_mode") {
        match val {
            Some(v) => {
                if str_eq(to_uppercase(v).as_str(), "WAL") {
                    return Pragma::Refused;
                }
            },
            None => {},
        }
        Pragma::Unknown
    } else if str_eq(pragma, "litevfs_min_available_space") {
        match val {
            None => Pragma::GetMinAvailableSpace,
            Some(v) => match bytesize_parse(v) {
                Some(n) => Pragma::SetMinAvailableSpace(n),
                None => Pragma::Invalid,
            },
        }
    } else if str_eq(pragma, "litevfs_max_cached_pages") {
        match val {
            None => Pragma::GetMaxCachedPages,
            Some(v) => match parse_count(v, usize::MAX) {
                Some(n) => Pragma::SetMaxCachedPages(n),
                None => Pragma::Invalid,
            },
        }
    } else if str_eq(pragma, "litevfs_max_reqs_per_query") {
        match val {
            None => Pragma::GetMaxReqsPerQuery,
            Some(v) => match parse_count(v, MAX_MAX_REQS_PER_QUERY) {
                Some(n) => Pragma::SetMaxReqsPerQuery(n),
                None => Pragma::Invalid,
            },
        }
    } else if str_eq(pragma, "litevfs_cache_sync_period") {
        match val {
            None => Pragma::GetCacheSyncPeriod,
            Some(v) => match parse_period(v) {
                Some(n) => Pragma::SetCacheSyncPeriod(n),
                None => Pragma::Invalid,
            },
        }
    } else if str_eq(pragma, "litevfs_max_prefetch_pages") {
        match val {
            None => Pragma::GetMaxPrefetchPages,
            Some(v) => match parse_count(v, MAX_MAX_PREFETCH_PAGES) {
                Some(n) => Pragma::SetMaxPrefetchPages(n),
                None => Pragma::Invalid,
            },
        }
    } else if str_eq(pragma, "litevfs_acquire_lease") && val.is_none() {
        Pragma::AcquireLease
    } else if str_eq(pragma, "litevfs_release_lease") && val.is_none() {
        Pragma::ReleaseLease
    } else if str_eq(pragma, "litevfs_cache_db") && val.is_none() {
        Pragma::CacheDb
    } else {
        Pragma::Unknown
    }
}

/// What a pragma comes to.
#[derive(Debug)]
pub enum PragmaOutcome {
    /// The library does not know the pragma.
    Unknown,
    /// The pragma is refused.
    Failed(ErrorKind),
    /// The pragma has asked for a setting, which is this.
    Value(String),
    /// The pragma has changed a setting.
    Done,
    /// The caller is to acquire a write lease for the database and bring it up to date.
    AcquireLease,
    /// The caller is to release the write lease of the database.
    ReleaseLease,
    /// The caller is to bring the whole database into the cache.
    CacheDb,
}

impl LiteDatabaseHandle {
    /// Sets how many pages a query may fetch from the remote store.
    fn set_budget(&mut self, budget: usize)
        ensures
            final(self).budget() == budget,
            final(self).fetched() == old(self).fetched(),
            final(self).lock_spec() == old(self).lock_spec(),
            final(self).name_spec() == old(self).name_spec(),
    {
        self.max_pages_per_query = budget;
    }

    /// Answers the pragma `pragma` with the value `val` on this connection to `db`: reads it
    /// and carries it out, as far as it is a setting of the pager, the syncer, the database or
    /// the connection.
    pub fn pragma(
        &mut self,
        pager: &mut Pager,
        syncer: &mut Syncer,
        db: &mut Database,
        pragma: &str,
        val: Option<&str>,
    ) -> (r: PragmaOutcome)
        requires
            old(syncer).wf(),
            old(syncer).db(old(self).name_spec()) is Some,
            old(db).wf(),
        ensures
            final(self).lock_spec() == old(self).lock_spec(),
            final(self).name_spec() == old(self).name_spec(),
            final(self).fetched() == old(self).fetched(),
            final(syncer).wf(),
            final(syncer).names() == old(syncer).names(),
            final(db).name_spec() == old(db).name_spec(),
            final(db).lock_state() == old(db).lock_state(),
            final(db).wf(),
            old(pager).wf() ==> final(pager).wf(),
            final(pager).names() == old(pager).names(),
            final(pager).keys() == old(pager).keys(),
            final(pager).count() == old(pager).count(),
            final(pager).has_room() == old(pager).has_room(),
            final(syncer).has_room() == old(syncer).has_room(),
            carried_out(
                pragma_of(
                    pragma@,
                    match val {
                        Some(v) => Some(v@),
                        None => None,
                    },
                ),
                Settings {
                    min_space: old(pager).min_space(),
                    max_pages: old(pager).max_pages(),
                    budget: old(self).budget(),
                    period: old(syncer).db(old(self).name_spec())->0.period,
                    prefetch_limit: old(db)@.prefetch_limit,
                },
                Settings {
                    min_space: final(pager).min_space(),
                    max_pages: final(pager).max_pages(),
                    budget: final(self).budget(),
                    period: final(syncer).db(old(self).name_spec())->0.period,
                    prefetch_limit: final(db)@.prefetch_limit,
                },
                r,
            ),
            final(db)@ == (DatabaseState {
                prefetch_limit: final(db)@.prefetch_limit,
                prefetch: crate::database::limited(old(db)@.prefetch, final(db)@.prefetch_limit),
                ..old(db)@
            }),
            final(syncer).db(old(self).name_spec()) == Some(
                DbState {
                    period: final(syncer).db(old(self).name_spec())->0.period,
                    ..old(syncer).db(old(self).name_spec())->0
                },
            ),
            forall|other: Seq<char>|
                other != old(self).name_spec() ==> final(syncer).db(other) == old(syncer).db(other),
    {
        proof {
            db.lemma_prefetch_bounded();
        }
        match parse_pragma(pragma, val) {
            Pragma::Unknown => PragmaOutcome::Unknown,
            Pragma::Refused | Pragma::Invalid => PragmaOutcome::Failed(ErrorKind::InvalidInput),
            Pragma::GetMinAvailableSpace => PragmaOutcome::Value(
                bytesize_to_string(pager.min_available_space()),
            ),
            Pragma::SetMinAvailableSpace(n) => {
                pager.set_min_available_space(n);
                PragmaOutcome::Done
            },
            Pragma::GetMaxCachedPages => PragmaOutcome::Value(
                to_decimal(pager.max_cached_pages() as u64),
            ),
            Pragma::SetMaxCachedPages(n) => {
                pager.set_max_cached_pages(n);
                PragmaOutcome::Done
            },
            Pragma::GetMaxReqsPerQuery => PragmaOutcome::Value(
                to_decimal(self.max_pages_per_query as u64),
            ),
            Pragma::SetMaxReqsPerQuery(n) => {
                self.set_budget(n);
                PragmaOutcome::Done
            },
            Pragma::GetCacheSyncPeriod => {
                let period = syncer.sync_period(self.name.as_str());
                let secs = period / 1_000_000_000;
                let nanos = (period % 1_000_000_000) as u32;
                if secs > u64::MAX as u128 {
                    PragmaOutcome::Failed(ErrorKind::InvalidInput)
                } else {
                    PragmaOutcome::Value(humantime_format(secs as u64, nanos))
                }
            },
            Pragma::SetCacheSyncPeriod(n) => {
                syncer.set_sync_period(self.name.as_str(), n);
                PragmaOutcome::Done
            },
            Pragma::GetMaxPrefetchPages => PragmaOutcome::Value(
                to_decimal(db.prefetch_limit() as u64),
            ),
            Pragma::SetMaxPrefetchPages(n) => match db.set_prefetch_limit(n) {
                Ok(()) => PragmaOutcome::Done,
                Err(e) => PragmaOutcome::Failed(e),
            },
            Pragma::AcquireLease => PragmaOutcome::AcquireLease,
            Pragma::ReleaseLease => PragmaOutcome::ReleaseLease,
            Pragma::CacheDb => PragmaOutcome::CacheDb,
        }
    }
}

/// Whether the caller was told `text`.
pub open spec fn told(r: PragmaOutcome, text: Seq<char>) -> bool {
    r matches PragmaOutcome::Value(v) && v@ == text
}

/// The settings that pragmas read and change.
pub struct Settings {
    /// The free space that the pager keeps on the file system, in bytes.
    pub min_space: u64,
    /// The most pages that the pager caches.
    pub max_pages: usize,
    /// How many pages a query may fetch from the remote store.
    pub budget: nat,
    /// The sync period of the database, in nanoseconds.
    pub period: nat,
    /// The most pages that are fetched along with another.
    pub prefetch_limit: nat,
}

/// Whether the pragma `p` has been carried out: the settings were `before` and are
/// `after`, and the caller was told `r`. A pragma that asks for a setting is told it and
/// changes nothing; one that changes a setting changes that one; write-ahead-log mode and a
/// value that cannot be read are refused; and what takes the remote store is left to the
/// caller.
pub open spec fn carried_out(p: Pragma, before: Settings, after: Settings, r: PragmaOutcome) -> bool {
    match p {
        Pragma::Unknown => after == before && r is Unknown,
        Pragma::Refused | Pragma::Invalid => after == before && r == PragmaOutcome::Failed(
            ErrorKind::InvalidInput,
        ),
        Pragma::GetMinAvailableSpace => after == before && r is Value && (before.min_space < 1024
            ==> told(r, decimal_text(before.min_space as nat) + " B"@)),
        Pragma::SetMinAvailableSpace(n) => after == (Settings { min_space: n, ..before }) && r
            is Done,
        Pragma::GetMaxCachedPages => after == before && told(r, decimal_text(before.max_pages as nat)),
        Pragma::SetMaxCachedPages(n) => after == (Settings { max_pages: n, ..before }) && r
            is Done,
        Pragma::GetMaxReqsPerQuery => after == before && told(r, decimal_text(before.budget)),
        Pragma::SetMaxReqsPerQuery(n) => after == (Settings { budget: n as nat, ..before }) && r
            is Done,
        Pragma::GetCacheSyncPeriod => after == before && if before.period / 1_000_000_000
            > u64::MAX {
            r == PragmaOutcome::Failed(ErrorKind::InvalidInput)
        } else {
            told(
                r,
                humantime_text(
                    (before.period / 1_000_000_000) as u64,
                    (before.period % 1_000_000_000) as u32,
                ),
            )
        },
        Pragma::SetCacheSyncPeriod(n) => after == (Settings { period: n as nat, ..before }) && r
            is Done,
        Pragma::GetMaxPrefetchPages => after == before && told(r, decimal_text(before.prefetch_limit)),
        Pragma::SetMaxPrefetchPages(n) => if n <= MAX_MAX_PREFETCH_PAGES {
            after == (Settings { prefetch_limit: n as nat, ..before }) && r is Done
        } else {
            after == before && r == PragmaOutcome::Failed(ErrorKind::InvalidInput)
        },
        Pragma::AcquireLease => after == before && r is AcquireLease,
        Pragma::ReleaseLease => after == before && r is ReleaseLease,
        Pragma::CacheDb => after == before && r is CacheDb,
    }
}

} // verus!
