//! One database: what is known of its header, where it stands at the remote store, and the
//! pages that the transaction in progress has written.

use crate::error::ErrorKind;
use crate::leaser::Leaser;
use crate::locks::{may_transition, transition_spec, ConnLock, LockKind, LockState, VfsLock};
use crate::ltx::{
    file_bytes, header_accepted, ltx_encode, page_checksum, pages_accepted, FileHeader,
};
use crate::page_set::{ascending_pages, PageSet};
use crate::pager::{Page, Pager};
use crate::sqlite::{
    be16, be32, prefetch_candidates, prefetch_candidates_spec, read_be16, read_be32, COMMIT_END,
    COMMIT_START, HEADER_SIZE, READ_VERSION_OFFSET, WRITE_VERSION_OFFSET,
};
use crate::syncer::{ChangeSet, Changes, Syncer};
use crate::types::{
    checksum_of, flagged, is_page_size, lemma_page_num_of, lock_page_of, page_num_of, txid_of,
    Checksum, PageNum, PageSize, Pos, TXID,
};
use vstd::prelude::*;

verus! {

/// How many pages are fetched ahead of a read unless the database is told otherwise.
pub const DEFAULT_MAX_PREFETCH_PAGES: usize = 32;

/// The most pages that can be fetched ahead of a read.
pub const MAX_MAX_PREFETCH_PAGES: usize = 128;

/// The first eight bytes of a rollback journal that holds a transaction to commit.
pub open spec fn journal_magic() -> Seq<u8> {
    seq![0xd9u8, 0xd5u8, 0x05u8, 0xf9u8, 0x20u8, 0xa1u8, 0x63u8, 0xd7u8]
}

/// What a database is at one moment.
pub struct DatabaseState {
    /// The page size, once a header or a journal has told it.
    pub page_size: Option<u32>,
    /// The size of the database as last committed, in pages.
    pub committed: Option<u32>,
    /// The size of the database as the transaction in progress has left it, in pages.
    pub current: Option<u32>,
    /// The position at the remote store; a database without one is empty.
    pub pos: Option<Pos>,
    /// The pages that the transaction in progress has written, in ascending order, each
    /// with the checksum that it had before, if it existed before.
    pub dirty: Seq<(u32, Option<u64>)>,
    /// The pages to ask for along with the next page that is fetched.
    pub prefetch: Seq<u32>,
    /// The most pages to ask for along with another.
    pub prefetch_limit: nat,
    /// Whether the database is in write-ahead-log mode.
    pub wal: bool,
    /// Whether the database vacuums itself.
    pub auto_vacuum: bool,
}

/// Whether the header `page1` says that the database is in write-ahead-log mode: its write
/// version or its read version is 2.
pub open spec fn header_wal(page1: Seq<u8>) -> bool {
    page1.len() > READ_VERSION_OFFSET && (page1[WRITE_VERSION_OFFSET as int] == 2
        || page1[READ_VERSION_OFFSET as int] == 2)
}

/// The page size that the 16-bit field of a header stands for: itself, and 65536 for 1.
pub open spec fn decoded_page_size(raw: int) -> int {
    if raw == 1 {
        65536
    } else {
        raw
    }
}

/// What the header `page1` says of a database, if it is well-formed: whether it is in
/// write-ahead-log mode, whether it vacuums itself, its page size and its size in pages.
pub open spec fn header_fields(page1: Seq<u8>) -> Option<(bool, bool, u32, u32)> {
    if page1.len() < 56 || !is_page_size(decoded_page_size(be16(page1, 16)) as u32) || be32(
        page1,
        COMMIT_START as int,
    ) == 0 {
        None
    } else {
        Some(
            (
                header_wal(page1),
                be32(page1, 52) > 0,
                decoded_page_size(be16(page1, 16)) as u32,
                be32(page1, COMMIT_START as int) as u32,
            ),
        )
    }
}

/// The page that holds the byte `offset` of a database with pages of `page_size` bytes.
pub open spec fn page_of_offset(offset: u64, page_size: u32) -> int {
    offset / page_size as u64 + 1
}

/// The pages of `set` other than `pgno`, in ascending order.
pub open spec fn others(set: Seq<u32>, pgno: u32) -> Seq<u32> {
    set.filter(|n: u32| n != pgno)
}

/// One database.
pub struct Database {
    lock: VfsLock,
    name: String,
    page_size: Option<PageSize>,
    committed_db_size: Option<PageNum>,
    current_db_size: Option<PageNum>,
    pos: Option<Pos>,
    dirty_numbers: PageSet,
    dirty_checksums: Vec<Option<Checksum>>,
    prefetch_pages: PageSet,
    prefetch_limit: usize,
    wal: bool,
    auto_vacuum: bool,
}

/// The value of an optional page number.
pub open spec fn page_value(n: Option<PageNum>) -> Option<u32> {
    match n {
        Some(n) => Some(n@),
        None => None,
    }
}

/// The value of an optional checksum.
pub open spec fn checksum_value(c: Option<Checksum>) -> Option<u64> {
    match c {
        Some(c) => Some(c@),
        None => None,
    }
}

impl View for Database {
    type V = DatabaseState;

    closed spec fn view(&self) -> DatabaseState {
        DatabaseState {
            page_size: match self.page_size {
                Some(s) => Some(s@),
                None => None,
            },
            committed: page_value(self.committed_db_size),
            current: page_value(self.current_db_size),
            pos: self.pos,
            dirty: Seq::new(
                self.dirty_numbers@.len(),
                |i: int| (self.dirty_numbers@[i], checksum_value(self.dirty_checksums@[i])),
            ),
            prefetch: self.prefetch_pages@,
            prefetch_limit: self.prefetch_limit as nat,
            wal: self.wal,
            auto_vacuum: self.auto_vacuum,
        }
    }
}

/// Where a read of the database looks.
pub struct ReadTarget {
    /// The page to read.
    pub number: PageNum,
    /// Where in the page the read starts.
    pub page_offset: u64,
    /// The pages to ask for along with it, should it have to be fetched.
    pub prefetch: Option<Vec<PageNum>>,
}

impl Database {
    /// Whether the record is in order: every page written has its earlier checksum
    /// beside it.
    pub closed spec fn wf(&self) -> bool {
        &&& self.dirty_checksums@.len() == self.dirty_numbers@.len()
        &&& (self.dirty_numbers@.len() > 0 ==> self.page_size is Some)
        &&& ascending_pages(self.dirty_numbers@)
        &&& ascending_pages(self.prefetch_pages@)
        &&& self.prefetch_pages@.len() <= self.prefetch_limit <= MAX_MAX_PREFETCH_PAGES
        &&& self.page_size matches Some(s) ==> is_page_size(s@)
        &&& self.committed_db_size matches Some(n) ==> n@ >= 1
        &&& self.current_db_size matches Some(n) ==> n@ >= 1
        &&& forall|i: int|
            0 <= i < self.dirty_checksums@.len() ==> (
            #[trigger] self.dirty_checksums@[i] matches Some(c) ==> c@ == flagged(c@))
    }

    /// The database's name.
    pub closed spec fn name_spec(&self) -> Seq<char> {
        self.name@
    }

    /// The state of the lock that the database's connections share.
    pub closed spec fn lock_state(&self) -> LockState {
        self.lock@
    }

    /// Whether the write version or the read version of the header `page1` says that the
    /// database is in write-ahead-log mode.
    pub fn parse_wal(page1: &[u8]) -> (r: bool)
        ensures
            r == header_wal(page1@),
    {
        page1.len() > READ_VERSION_OFFSET && (page1[WRITE_VERSION_OFFSET] == 2
            || page1[READ_VERSION_OFFSET] == 2)
    }

    /// Whether the header `page1` says that the database vacuums itself: the number at
    /// offset 52 is not zero.
    pub fn parse_autovacuum(page1: &[u8]) -> (r: Result<bool, ErrorKind>)
        ensures
            page1@.len() < 56 ==> r == Err::<bool, ErrorKind>(ErrorKind::InvalidData),
            page1@.len() >= 56 ==> r == Ok::<bool, ErrorKind>(be32(page1@, 52) > 0),
    {
        if page1.len() < 56 {
            return Err(ErrorKind::InvalidData);
        }
        Ok(read_be32(page1, 52) > 0)
    }

    /// The page size that the header `page1` names in the two bytes at offset 16.
    pub fn parse_page_size_database(page1: &[u8]) -> (r: Result<PageSize, ErrorKind>)
        ensures
            match r {
                Ok(s) => page1@.len() >= 18 && s@ == decoded_page_size(be16(page1@, 16))
                    && is_page_size(s@),
                Err(e) => e == ErrorKind::InvalidData && (page1@.len() < 18 || !is_page_size(
                    decoded_page_size(be16(page1@, 16)) as u32,
                )),
            },
    {
        if page1.len() < 18 {
            return Err(ErrorKind::InvalidData);
        }
        let raw = read_be16(page1, 16);
        let page_size: u32 = if raw == 1 {
            65536
        } else {
            raw as u32
        };
        match PageSize::new(page_size) {
            Some(s) => Ok(s),
            None => Err(ErrorKind::InvalidData),
        }
    }

    /// The size of the database in pages that a header names in the four bytes at `at`.
    pub fn parse_commit_database(page1: &[u8], at: usize) -> (r: Result<PageNum, ErrorKind>)
        ensures
            match r {
                Ok(n) => at + 4 <= page1@.len() && n@ == be32(page1@, at as int) && n@ >= 1,
                Err(e) => e == ErrorKind::InvalidData && (at + 4 > page1@.len() || be32(
                    page1@,
                    at as int,
                ) == 0),
            },
    {
        if page1.len() < 4 || at > page1.len() - 4 {
            return Err(ErrorKind::InvalidData);
        }
        match PageNum::new(read_be32(page1, at)) {
            Some(n) => Ok(n),
            None => Err(ErrorKind::InvalidData),
        }
    }

    /// The page size that the journal header `hdr` names in the four bytes at offset 24.
    pub fn parse_page_size_journal(hdr: &[u8]) -> (r: Result<PageSize, ErrorKind>)
        ensures
            match r {
                Ok(s) => hdr@.len() >= 28 && s@ == be32(hdr@, 24) && is_page_size(s@),
                Err(e) => e == ErrorKind::InvalidData && (hdr@.len() < 28 || !is_page_size(
                    be32(hdr@, 24) as u32,
                )),
            },
    {
        if hdr.len() < 28 {
            return Err(ErrorKind::InvalidData);
        }
        match PageSize::new(read_be32(hdr, 24)) {
            Some(s) => Ok(s),
            None => Err(ErrorKind::InvalidData),
        }
    }

    /// The database `name` at the position `pos`, with what its first page says of it.
    /// `page1` is the page as the pager has it at that position, and `None` for a database
    /// that has no first page yet. A header that names no page size or no size is refused.
    pub fn new(name: &str, pos: Option<Pos>, page1: Option<&[u8]>) -> (r: Result<
        Database,
        ErrorKind,
    >)
        ensures
            match page1 {
                None => r matches Ok(db) && db.wf() && db.name_spec() == name@ && db@ == (
                DatabaseState {
                    page_size: None,
                    committed: None,
                    current: None,
                    pos,
                    dirty: Seq::empty(),
                    prefetch: Seq::empty(),
                    prefetch_limit: DEFAULT_MAX_PREFETCH_PAGES as nat,
                    wal: false,
                    auto_vacuum: false,
                }),
                Some(page) => match header_fields(page@) {
                    None => r matches Err(e) && e == ErrorKind::InvalidData,
                    Some(f) => r matches Ok(db) && db.wf() && db.name_spec() == name@ && db@ == (
                    DatabaseState {
                        page_size: Some(f.2),
                        committed: Some(f.3),
                        current: Some(f.3),
                        pos,
                        dirty: Seq::empty(),
                        prefetch: Seq::empty(),
                        prefetch_limit: DEFAULT_MAX_PREFETCH_PAGES as nat,
                        wal: f.0,
                        auto_vacuum: f.1,
                    }),
                },
            },
            r matches Ok(db) ==> db.lock_state() == (LockState {
                readers: 0,
                writer: None,
            }),
    {
        let (wal, auto_vacuum, page_size, commit) = match page1 {
            Some(page) => {
                let wal = Database::parse_wal(page);
                let auto_vacuum = match Database::parse_autovacuum(page) {
                    Ok(x) => x,
                    Err(e) => return Err(e),
                };
                let page_size = match Database::parse_page_size_database(page) {
                    Ok(x) => x,
                    Err(e) => return Err(e),
                };
                let commit = match Database::parse_commit_database(page, COMMIT_START) {
                    Ok(x) => x,
                    Err(e) => return Err(e),
                };
                (wal, auto_vacuum, Some(page_size), Some(commit))
            },
            None => (false, false, None, None),
        };
        let dirty_numbers = PageSet::new();
        let prefetch_pages = PageSet::new();
        dirty_numbers.ascending();
        prefetch_pages.ascending();
        let db = Database {
            lock: VfsLock::new(),
            name: name.to_owned(),
            page_size,
            committed_db_size: commit,
            current_db_size: commit,
            pos,
            dirty_numbers,
            dirty_checksums: Vec::new(),
            prefetch_pages,
            prefetch_limit: DEFAULT_MAX_PREFETCH_PAGES,
            wal,
            auto_vacuum,
        };
        proof {
            assert(db@.dirty =~= Seq::empty());
            assert(db@.prefetch =~= Seq::empty());
        }
        Ok(db)
    }

    /// The database's name.
    pub fn name(&self) -> (r: &str)
        ensures
            r@ == self.name_spec(),
    {
        self.name.as_str()
    }

    /// The lock state of a new connection to the database.
    pub fn conn_lock(&self) -> (r: ConnLock)
        ensures
            r@ == LockKind::Unlocked,
    {
        self.lock.conn_lock()
    }

    /// Asks the database's lock for `to` on behalf of the connection `conn`, and says
    /// whether the connection now holds exactly that.
    pub fn acquire(&mut self, conn: &mut ConnLock, to: LockKind) -> (r: bool)
        requires
            may_transition(old(self).lock_state(), old(conn)@, to),
        ensures
            (final(self).lock_state(), final(conn)@) == transition_spec(
                old(self).lock_state(),
                old(conn)@,
                to,
            ),
            r == (final(conn)@ == to),
            final(self)@ == old(self)@,
            final(self).name_spec() == old(self).name_spec(),
            old(self).wf() ==> final(self).wf(),
    {
        let r = conn.acquire(&mut self.lock, to);
        proof {
            assert(self@.dirty =~= old(self)@.dirty);
        }
        r
    }

    /// Whether `conn` holds at least a shared lock, or any connection is a writer.
    pub fn reserved(&self, conn: &ConnLock) -> (r: bool)
        ensures
            r == (conn@.rank() >= 1 || self.lock_state().writer is Some),
    {
        conn.reserved(&self.lock)
    }

    /// How many connections hold a shared lock on the database.
    pub fn readers(&self) -> (r: usize)
        ensures
            r == self.lock_state().readers,
    {
        self.lock.readers()
    }

    /// The page size, which is known once a header or a journal has told it.
    pub fn page_size(&self) -> (r: Result<PageSize, ErrorKind>)
        ensures
            match self@.page_size {
                Some(s) => r matches Ok(p) && p@ == s,
                None => r matches Err(e) && e == ErrorKind::Other,
            },
    {
        match self.page_size {
            Some(s) => Ok(s),
            None => Err(ErrorKind::Other),
        }
    }

    /// The position at the remote store.
    pub fn pos(&self) -> (r: Option<Pos>)
        ensures
            r == self@.pos,
    {
        self.pos
    }

    /// The size of the database as last committed, in pages, where it is known.
    pub fn committed_db_size(&self) -> (r: Option<PageNum>)
        ensures
            page_value(r) == self@.committed,
    {
        self.committed_db_size
    }

    /// The size of the database as the transaction in progress has left it, in pages,
    /// where it is known.
    pub fn current_db_size(&self) -> (r: Option<PageNum>)
        ensures
            page_value(r) == self@.current,
    {
        self.current_db_size
    }

    /// Whether the database is in write-ahead-log mode.
    pub fn is_wal(&self) -> (r: bool)
        ensures
            r == self@.wal,
    {
        self.wal
    }

    /// Whether the database vacuums itself.
    pub fn is_auto_vacuum(&self) -> (r: bool)
        ensures
            r == self@.auto_vacuum,
    {
        self.auto_vacuum
    }

    /// The most pages to ask for along with another.
    pub fn prefetch_limit(&self) -> (r: usize)
        ensures
            r == self@.prefetch_limit,
    {
        self.prefetch_limit
    }

    /// Sets the most pages to ask for along with another, which is at most 128. A
    /// prefetch list that is longer than the new limit keeps its first pages.
    pub fn set_prefetch_limit(&mut self, limit: usize) -> (r: Result<(), ErrorKind>)
        ensures
            final(self).name_spec() == old(self).name_spec(),
            final(self).lock_state() == old(self).lock_state(),
            old(self).wf() ==> final(self).wf(),
            limit > MAX_MAX_PREFETCH_PAGES ==> r == Err::<(), ErrorKind>(ErrorKind::InvalidInput)
                && final(self)@ == old(self)@,
            limit <= MAX_MAX_PREFETCH_PAGES ==> r is Ok && final(self)@ == (DatabaseState {
                prefetch_limit: limit as nat,
                prefetch: limited(old(self)@.prefetch, limit as nat),
                ..old(self)@
            }),
    {
        if limit > MAX_MAX_PREFETCH_PAGES {
            return Err(ErrorKind::InvalidInput);
        }
        let kept = self.prefetch_pages.first(limit);
        kept.ascending();
        self.prefetch_pages = kept;
        self.prefetch_limit = limit;
        proof {
            assert(self@.dirty =~= old(self)@.dirty);
        }
        Ok(())
    }

    /// A database that has written pages knows its page size.
    pub proof fn lemma_written_knows_page_size(&self)
        requires
            self.wf(),
        ensures
            self@.dirty.len() > 0 ==> self@.page_size is Some,
    {
    }

    /// The prefetch list is never longer than its limit, and the limit is at most 128.
    pub proof fn lemma_prefetch_bounded(&self)
        requires
            self.wf(),
        ensures
            self@.prefetch.len() <= self@.prefetch_limit <= MAX_MAX_PREFETCH_PAGES,
    {
    }

    /// Takes the page size from a journal header where no database header has told it yet.
    pub fn learn_page_size(&mut self, page_size: PageSize)
        ensures
            final(self)@ == (DatabaseState {
                page_size: if old(self)@.page_size is Some {
                    old(self)@.page_size
                } else {
                    Some(page_size@)
                },
                ..old(self)@
            }),
            final(self).name_spec() == old(self).name_spec(),
            final(self).lock_state() == old(self).lock_state(),
            old(self).wf() ==> final(self).wf(),
    {
        let s = page_size.into_inner();
        if self.page_size.is_none() {
            self.page_size = Some(page_size);
        }
        proof {
            assert(self@.dirty =~= old(self)@.dirty);
        }
    }

    /// Whether `buf_len` bytes at `offset` are exactly one page.
    pub fn ensure_aligned(&self, buf_len: usize, offset: u64) -> (r: Result<(), ErrorKind>)
        ensures
            match self@.page_size {
                None => r == Err::<(), ErrorKind>(ErrorKind::Other),
                Some(s) => if offset % (s as u64) == 0 && buf_len == s {
                    r is Ok
                } else {
                    r == Err::<(), ErrorKind>(ErrorKind::InvalidInput)
                },
            },
    {
        let page_size = match self.page_size() {
            Ok(s) => s.into_inner(),
            Err(e) => return Err(e),
        };
        if offset % (page_size as u64) != 0 {
            return Err(ErrorKind::InvalidInput);
        }
        if buf_len as u64 != page_size as u64 {
            return Err(ErrorKind::InvalidInput);
        }
        Ok(())
    }

    /// The page that holds the byte `offset`. Page numbers are 32 bits wide, and an offset
    /// behind the last page that has a number is refused.
    pub fn page_num_for(&self, offset: u64) -> (r: Result<PageNum, ErrorKind>)
        ensures
            match self@.page_size {
                None => r == Err::<PageNum, ErrorKind>(ErrorKind::Other),
                Some(s) => if page_of_offset(offset, s) > u32::MAX {
                    r == Err::<PageNum, ErrorKind>(ErrorKind::InvalidInput)
                } else {
                    r matches Ok(n) && n@ == page_of_offset(offset, s)
                },
            },
    {
        let page_size = match self.page_size() {
            Ok(s) => s.into_inner(),
            Err(e) => return Err(e),
        };
        assert(offset / (page_size as u64) <= offset / 2) by (nonlinear_arith)
            requires
                page_size >= 2,
        ;
        let n: u64 = offset / (page_size as u64) + 1;
        if n > u32::MAX as u64 {
            return Err(ErrorKind::InvalidInput);
        }
        match PageNum::new(n as u32) {
            Some(n) => Ok(n),
            None => Err(ErrorKind::InvalidInput),
        }
    }

    /// The size of the database in bytes, as the transaction in progress has left it.
    pub fn size(&self) -> (r: Result<u64, ErrorKind>)
        ensures
            match (self@.current, self@.page_size) {
                (None, _) => r == Ok::<u64, ErrorKind>(0),
                (Some(_), None) => r == Err::<u64, ErrorKind>(ErrorKind::Other),
                (Some(n), Some(s)) => r == Ok::<u64, ErrorKind>((s * n) as u64),
            },
    {
        let commit = match self.current_db_size {
            Some(commit) => commit,
            None => return Ok(0),
        };
        let page_size = match self.page_size() {
            Ok(s) => s.into_inner(),
            Err(e) => return Err(e),
        };
        let n = commit.into_inner();
        assert(page_size as u64 * n as u64 <= 65536 * 0x1_0000_0000) by (nonlinear_arith)
            requires
                page_size <= 65536,
                n <= 0xFFFF_FFFF,
        ;
        Ok(page_size as u64 * n as u64)
    }

    /// The pages to ask for along with `pgno`, should it have to be fetched: the other
    /// pages of the prefetch list, if `pgno` is on it.
    pub fn prefetch_pages(&self, pgno: PageNum) -> (r: Option<Vec<PageNum>>)
        requires
            self.wf(),
        ensures
            r is Some <==> self@.prefetch.contains(pgno@),
            r matches Some(v) ==> ascending_pages(page_values(v@)) && forall|m: u32|
                page_values(v@).contains(m) <==> self@.prefetch.contains(m) && m != pgno@,
    {
        if !self.prefetch_pages.contains(pgno) {
            return None;
        }
        let mut v: Vec<PageNum> = Vec::new();
        let mut i: usize = 0;
        let n = pgno.into_inner();
        while i < self.prefetch_pages.len()
            invariant
                i <= self.prefetch_pages@.len(),
                n == pgno@,
                ascending_pages(self.prefetch_pages@),
                ascending_pages(page_values(v@)),
                forall|k: int|
                    0 <= k < v@.len() && i < self.prefetch_pages@.len() ==> (#[trigger] v@[k])@
                        < self.prefetch_pages@[i as int],
                forall|m: u32|
                    page_values(v@).contains(m) <==> (exists|j: int|
                        0 <= j < i && #[trigger] self.prefetch_pages@[j] == m) && m != n,
            decreases self.prefetch_pages@.len() - i,
        {
            let p = self.prefetch_pages.get(i);
            let ghost before = v@;
            if p.into_inner() != n {
                v.push(p);
                proof {
                    assert forall|k: int| 0 <= k < v@.len() implies #[trigger] page_values(v@)[k]
                        == (if k < before.len() {
                        page_values(before)[k]
                    } else {
                        p@
                    }) by {}
                    assert forall|a: int, b: int| 0 <= a < b < v@.len() implies #[trigger] page_values(
                        v@,
                    )[a] < #[trigger] page_values(v@)[b] by {
                        if b == v@.len() - 1 {
                            assert(before[a]@ < self.prefetch_pages@[i as int]);
                        } else {
                            assert(page_values(before)[a] < page_values(before)[b]);
                        }
                    }
                    assert forall|k: int| 0 <= k < v@.len() implies #[trigger] page_values(v@)[k]
                        >= 1 by {
                        if k < before.len() {
                            assert(page_values(before)[k] >= 1);
                        }
                    }
                }
            }
            proof {
                assert forall|m: u32|
                    page_values(v@).contains(m) <==> (exists|j: int|
                        0 <= j < i + 1 && #[trigger] self.prefetch_pages@[j] == m) && m != n by {
                    if page_values(v@).contains(m) {
                        let k = choose|k: int|
                            0 <= k < page_values(v@).len() && page_values(v@)[k] == m;
                        if k < before.len() {
                            assert(page_values(before)[k] == m);
                            assert(page_values(before).contains(m));
                            let j = choose|j: int|
                                0 <= j < i && #[trigger] self.prefetch_pages@[j] == m;
                            assert(0 <= j < i + 1 && self.prefetch_pages@[j] == m);
                        } else {
                            assert(self.prefetch_pages@[i as int] == m);
                        }
                    }
                    if (exists|j: int| 0 <= j < i + 1 && #[trigger] self.prefetch_pages@[j] == m)
                        && m != n {
                        let j = choose|j: int|
                            0 <= j < i + 1 && #[trigger] self.prefetch_pages@[j] == m;
                        if j < i {
                            assert(page_values(before).contains(m));
                            let k = choose|k: int|
                                0 <= k < page_values(before).len() && page_values(before)[k] == m;
                            assert(page_values(v@)[k] == m);
                        } else {
                            assert(page_values(v@)[v@.len() - 1] == m);
                        }
                    }
                }
                assert forall|k: int|
                    0 <= k < v@.len() && i + 1 < self.prefetch_pages@.len() implies (
                #[trigger] v@[k])@ < self.prefetch_pages@[i + 1] by {
                    assert(self.prefetch_pages@[i as int] < self.prefetch_pages@[i + 1]);
                    assert(page_values(v@)[k] == v@[k]@);
                    if k < before.len() {
                        assert(before[k]@ < self.prefetch_pages@[i as int]);
                    }
                }
            }
            i += 1;
        }
        proof {
            assert forall|m: u32|
                page_values(v@).contains(m) <==> self@.prefetch.contains(m) && m != pgno@ by {
                if self@.prefetch.contains(m) {
                    let j = choose|j: int| 0 <= j < self@.prefetch.len() && self@.prefetch[j] == m;
                    assert(self.prefetch_pages@[j] == m);
                }
            }
        }
        Some(v)
    }

    /// Where a read of `buf_len` bytes at `offset` looks. A read that starts in the
    /// database header reads page 1 from there on; any other read takes exactly one page.
    pub fn read_target(&self, buf_len: usize, offset: u64) -> (r: Result<ReadTarget, ErrorKind>)
        requires
            self.wf(),
        ensures
            offset <= HEADER_SIZE ==> (r matches Ok(t) && t.number@ == 1 && t.page_offset == offset),
            offset > HEADER_SIZE ==> match self@.page_size {
                None => r matches Err(e) && e == ErrorKind::Other,
                Some(s) => if offset % (s as u64) == 0 && buf_len == s && page_of_offset(offset, s)
                    <= u32::MAX {
                    r matches Ok(t) && t.number@ == page_of_offset(offset, s) && t.page_offset == 0
                } else {
                    r matches Err(e) && e == ErrorKind::InvalidInput
                },
            },
            r matches Ok(t) ==> {
                &&& t.prefetch is Some <==> self@.prefetch.contains(t.number@)
                &&& t.prefetch matches Some(v) ==> ascending_pages(page_values(v@)) && forall|
                    m: u32,
                |
                    page_values(v@).contains(m) <==> self@.prefetch.contains(m) && m != t.number@
            },
    {
        let (number, page_offset) = if offset <= HEADER_SIZE as u64 {
            (PageNum::one(), offset)
        } else {
            match self.ensure_aligned(buf_len, offset) {
                Ok(()) => {},
                Err(e) => return Err(e),
            }
            match self.page_num_for(offset) {
                Ok(n) => (n, 0),
                Err(e) => return Err(e),
            }
        };
        let prefetch = self.prefetch_pages(number);
        Ok(ReadTarget { number, page_offset, prefetch })
    }

    /// Whether a buffer of `buf_len` bytes holds a whole page, so that the page can be
    /// searched for pointers to other pages.
    pub fn can_prefetch(&self, buf_len: usize) -> (r: bool)
        ensures
            r == (self@.page_size is Some && buf_len == self@.page_size->0),
    {
        match self.page_size {
            Some(ps) => buf_len as u64 == ps.into_inner() as u64,
            None => false,
        }
    }

    /// The pages that the page `number`, which was read into `buf`, leads to: candidates
    /// for the prefetch list, of which the caller keeps those that are not cached.
    pub fn prefetch_candidates(&self, buf: &[u8], number: PageNum) -> (r: Option<PageSet>)
        ensures
            match (
                self@.page_size is Some && buf@.len() == self@.page_size->0,
                prefetch_candidates_spec(buf@, number@),
            ) {
                (true, Some(set)) => r matches Some(found) && forall|n: u32|
                    found@.contains(n) <==> set.contains(n),
                _ => r is None,
            },
    {
        if self.can_prefetch(buf.len()) {
            prefetch_candidates(buf, number)
        } else {
            None
        }
    }

    /// Finishes a read of the bytes `buf` at `offset`. Candidates for the prefetch list
    /// that were found and are not cached, `uncached`, become the list, the first of them as
    /// far as the prefetch limit allows. Where the database
    /// is in write-ahead-log mode and the bytes hold both versions of the header, the
    /// versions are set to 1, so that the engine takes the database for one with a rollback
    /// journal. Where the bytes hold the header's size field and page 1 has not been written
    /// by the transaction in progress, the committed size is taken from them; a size of zero
    /// is refused.
    pub fn after_read(&mut self, buf: &mut Vec<u8>, offset: u64, uncached: Option<PageSet>) -> (r:
        Result<(), ErrorKind>)
        requires
            old(self).wf(),
        ensures
            final(self).wf(),
            final(self).name_spec() == old(self).name_spec(),
            final(self).lock_state() == old(self).lock_state(),
            final(buf)@ == masked(old(buf)@, offset, old(self)@.wal),
            final(self)@.prefetch.len() <= old(self)@.prefetch_limit,
            final(self)@ == (DatabaseState {
                prefetch: match uncached {
                    Some(set) => limited(set@, old(self)@.prefetch_limit),
                    None => old(self)@.prefetch,
                },
                committed: match refreshed_commit(old(buf)@, offset, old(self)@.dirty) {
                    Some(n) if n != 0 => Some(n),
                    _ => old(self)@.committed,
                },
                ..old(self)@
            }),
            r is Err <==> refreshed_commit(old(buf)@, offset, old(self)@.dirty) == Some(0u32),
            r matches Err(e) ==> e == ErrorKind::InvalidData,
    {
        match uncached {
            Some(set) => {
                let kept = set.first(self.prefetch_limit);
                kept.ascending();
                self.prefetch_pages = kept;
            },
            None => {},
        }
        let len = buf.len();
        let ghost buf0 = buf@;
        if offset <= WRITE_VERSION_OFFSET as u64 && len as u64 > READ_VERSION_OFFSET as u64 - offset
            && self.wal {
            let at = offset as usize;
            buf.set(WRITE_VERSION_OFFSET - at, 1);
            buf.set(READ_VERSION_OFFSET - at, 1);
        }
        proof {
            assert(buf@ =~= masked(buf0, offset, self.wal));
            assert(self@.dirty =~= old(self)@.dirty);
            assert forall|i: int| 0 <= i < 4 && offset <= COMMIT_START && offset + len
                >= COMMIT_END implies #[trigger] buf@[COMMIT_START - offset + i] == buf0[COMMIT_START
                - offset + i] by {}
        }
        if offset <= COMMIT_START as u64 && len as u64 >= COMMIT_END as u64 - offset
            && !self.dirty_numbers.contains(PageNum::one()) {
            let at = COMMIT_START - offset as usize;
            proof {
                assert(self@.dirty.len() == self.dirty_numbers@.len());
                assert(has_page_one(self@.dirty) == self.dirty_numbers@.contains(1u32)) by {
                    if has_page_one(self@.dirty) {
                        let i = choose|i: int|
                            0 <= i < self@.dirty.len() && (#[trigger] self@.dirty[i]).0 == 1;
                        assert(self.dirty_numbers@[i] == 1);
                    }
                    if self.dirty_numbers@.contains(1u32) {
                        let i = choose|i: int|
                            0 <= i < self.dirty_numbers@.len() && self.dirty_numbers@[i] == 1;
                        assert(self@.dirty[i].0 == 1);
                    }
                }
                assert(be32(buf@, at as int) == be32(buf0, at as int));
            }
            match Database::parse_commit_database(buf.as_slice(), at) {
                Ok(n) => {
                    self.committed_db_size = Some(n);
                },
                Err(e) => {
                    proof {
                        assert(self@.dirty =~= old(self)@.dirty);
                    }
                    return Err(e);
                },
            }
        } else {
            proof {
                assert(has_page_one(self@.dirty) == self.dirty_numbers@.contains(1u32)) by {
                    if has_page_one(self@.dirty) {
                        let i = choose|i: int|
                            0 <= i < self@.dirty.len() && (#[trigger] self@.dirty[i]).0 == 1;
                        assert(self.dirty_numbers@[i] == 1);
                    }
                    if self.dirty_numbers@.contains(1u32) {
                        let i = choose|i: int|
                            0 <= i < self.dirty_numbers@.len() && self.dirty_numbers@[i] == 1;
                        assert(self@.dirty[i].0 == 1);
                    }
                }
            }
        }
        proof {
            assert(self@.dirty =~= old(self)@.dirty);
        }
        Ok(())
    }

    /// The numbers of the pages written so far, in ascending order.
    pub fn dirty_pages(&self) -> (r: Vec<PageNum>)
        requires
            self.wf(),
        ensures
            r@.len() == self@.dirty.len(),
            forall|i: int| 0 <= i < r@.len() ==> (#[trigger] r@[i])@ == self@.dirty[i].0,
            dirty_ascending(self@.dirty),
    {
        self.dirty_numbers.to_vec()
    }

    /// Prepares the write of the page `buf` at `offset`. A database in write-ahead-log mode
    /// takes no write, whatever it is. A write of the database header tells the page size,
    /// unless it is known, and the size that the database has now. The write needs a lease
    /// and exactly one page. The plan names the page and says whether its earlier content has to be read for
    /// its checksum: it has not where the page lies behind the end of the committed database.
    pub fn before_write(&mut self, buf: &[u8], offset: u64, leaser: &Leaser) -> (r: Result<
        WritePlan,
        ErrorKind,
    >)
        requires
            old(self).wf(),
            leaser.wf(),
        ensures
            final(self).wf(),
            final(self).name_spec() == old(self).name_spec(),
            final(self).lock_state() == old(self).lock_state(),
            final(self)@ == header_written(old(self)@, buf@, offset),
            r == write_plan(
                old(self)@,
                buf@,
                offset,
                leaser.lease(old(self).name_spec()) is Some,
            ),
    {
        if self.wal {
            return Err(ErrorKind::Unsupported);
        }
        if offset == 0 && buf.len() >= HEADER_SIZE {
            if self.page_size.is_none() {
                match Database::parse_page_size_database(buf) {
                    Ok(s) => {
                        self.page_size = Some(s);
                    },
                    Err(e) => {
                        proof {
                            assert(self@.dirty =~= old(self)@.dirty);
                        }
                        return Err(e);
                    },
                }
            }
            match Database::parse_commit_database(buf, COMMIT_START) {
                Ok(n) => {
                    self.current_db_size = Some(n);
                },
                Err(e) => {
                    proof {
                        assert(self@.dirty =~= old(self)@.dirty);
                    }
                    return Err(e);
                },
            }
        }
        proof {
            assert(self@.dirty =~= old(self)@.dirty);
        }
        match leaser.get_lease(self.name.as_str()) {
            Ok(_) => {},
            Err(e) => return Err(e),
        }
        match self.ensure_aligned(buf.len(), offset) {
            Ok(()) => {},
            Err(e) => return Err(e),
        }
        let number = match self.page_num_for(offset) {
            Ok(n) => n,
            Err(e) => return Err(e),
        };
        let read_previous = match self.committed_db_size {
            Some(dbsize) => number.into_inner() <= dbsize.into_inner(),
            None => true,
        };
        proof {
            lemma_page_num_of(number);
        }
        Ok(WritePlan { number, read_previous })
    }

    /// Takes note of the page `number`, which has been written to the cache. Its checksum
    /// before the write was `orig_checksum`, or it did not exist. The page joins the pages
    /// written, unless it is among them already or is the lock page.
    pub fn after_write(&mut self, number: PageNum, orig_checksum: Option<Checksum>) -> (r: Result<
        (),
        ErrorKind,
    >)
        requires
            old(self).wf(),
        ensures
            final(self).wf(),
            final(self).name_spec() == old(self).name_spec(),
            final(self).lock_state() == old(self).lock_state(),
            final(self)@ == (DatabaseState { dirty: final(self)@.dirty, ..old(self)@ }),
            dirty_ascending(final(self)@.dirty),
            match old(self)@.page_size {
                None => r == Err::<(), ErrorKind>(ErrorKind::Other) && final(self)@.dirty == old(
                    self,
                )@.dirty,
                Some(s) => r is Ok && forall|e: (u32, Option<u64>)|
                    final(self)@.dirty.contains(e) <==> old(self)@.dirty.contains(e) || (e == (
                        number@,
                        checksum_value(orig_checksum),
                    ) && number@ != lock_page_of(s) && !has_number(old(self)@.dirty, number@)),
            },
    {
        proof {
            lemma_dirty_view(self);
        }
        let page_size = match self.page_size() {
            Ok(s) => s,
            Err(e) => return Err(e),
        };
        if number.into_inner() == PageNum::lock_page(page_size).into_inner() {
            return Ok(());
        }
        let ghost numbers0 = self.dirty_numbers@;
        let ghost sums0 = self.dirty_checksums@;
        let ghost dirty0 = self@.dirty;
        let (at, new) = self.dirty_numbers.insert_at(number);
        self.dirty_numbers.ascending();
        if new {
            match orig_checksum {
                Some(c) => {
                    let _ = c.into_inner();
                },
                None => {},
            }
            self.dirty_checksums.insert(at, orig_checksum);
        }
        proof {
            let dirty1 = self@.dirty;
            lemma_dirty_view(self);
            let entry = (number@, checksum_value(orig_checksum));
            if new {
                assert(dirty1 =~= dirty0.insert(at as int, entry));
                assert forall|e: (u32, Option<u64>)|
                    dirty1.contains(e) <==> dirty0.contains(e) || e == entry by {
                    if dirty1.contains(e) {
                        let k = choose|k: int| 0 <= k < dirty1.len() && dirty1[k] == e;
                        if k < at {
                            assert(dirty0[k] == e);
                        } else if k > at {
                            assert(dirty0[k - 1] == e);
                        }
                    }
                    if dirty0.contains(e) {
                        let k = choose|k: int| 0 <= k < dirty0.len() && dirty0[k] == e;
                        if k < at {
                            assert(dirty1[k] == e);
                        } else {
                            assert(dirty1[k + 1] == e);
                        }
                    }
                    assert(dirty1[at as int] == entry);
                }
                if has_number(dirty0, number@) {
                    let k = choose|k: int| 0 <= k < dirty0.len() && (#[trigger] dirty0[k]).0
                        == number@;
                    assert(numbers0[k] == number@);
                }
            } else {
                assert(dirty1 =~= dirty0);
                let k = choose|k: int| 0 <= k < numbers0.len() && numbers0[k] == number@;
                assert(dirty0[k].0 == number@);
            }
        }
        Ok(())
    }

    /// Takes note of the page `number`, whose file has been written to the cache: the page
    /// enters the pager's index as the page used last, and joins the pages written as
    /// [`Database::after_write`] says. Where every page written was in the index before, every
    /// page written is in the index afterwards, unless the index had to push out its oldest
    /// page to take this one in and that page is one of the pages written.
    pub fn page_written(
        &mut self,
        pager: &mut Pager,
        number: PageNum,
        orig_checksum: Option<Checksum>,
    ) -> (r: Result<(), ErrorKind>)
        requires
            old(self).wf(),
            old(pager).wf(),
            old(pager).has_room(),
        ensures
            final(self).wf(),
            final(pager).wf(),
            final(self).name_spec() == old(self).name_spec(),
            final(self).lock_state() == old(self).lock_state(),
            final(self)@ == (DatabaseState { dirty: final(self)@.dirty, ..old(self)@ }),
            dirty_ascending(final(self)@.dirty),
            final(pager).cached(old(self).name_spec(), number@),
            match old(self)@.page_size {
                None => r == Err::<(), ErrorKind>(ErrorKind::Other) && final(self)@.dirty == old(
                    self,
                )@.dirty,
                Some(s) => r is Ok && forall|e: (u32, Option<u64>)|
                    final(self)@.dirty.contains(e) <==> old(self)@.dirty.contains(e) || (e == (
                        number@,
                        checksum_value(orig_checksum),
                    ) && number@ != lock_page_of(s) && !has_number(old(self)@.dirty, number@)),
            },
            written_pages_cached(*old(self), *old(pager)) && !displaces_written(
                *old(self),
                *old(pager),
                number@,
            ) ==> written_pages_cached(*final(self), *final(pager)),
    {
        let ghost dirty0 = self@.dirty;
        pager.put_page(self.name.as_str(), number);
        let r = self.after_write(number, orig_checksum);
        proof {
            if written_pages_cached(*old(self), *old(pager)) && !displaces_written(
                *old(self),
                *old(pager),
                number@,
            ) {
                assert forall|n: u32| has_number(self@.dirty, n) implies pager.cached(
                    self.name_spec(),
                    n,
                ) by {
                    let i = choose|i: int| 0 <= i < self@.dirty.len() && (#[trigger] self@.dirty[i]).0
                        == n;
                    let e = self@.dirty[i];
                    assert(self@.dirty.contains(e));
                    if dirty0.contains(e) {
                        let j = choose|j: int| 0 <= j < dirty0.len() && dirty0[j] == e;
                        assert(dirty0[j].0 == n);
                        assert(has_number(dirty0, n));
                    }
                }
            }
        }
        r
    }

    /// The last page that the database keeps when it is cut to `size` bytes: the pages
    /// behind it are to leave the cache.
    pub fn truncate(&self, size: u64) -> (r: Result<PageNum, ErrorKind>)
        ensures
            match self@.page_size {
                None => r == Err::<PageNum, ErrorKind>(ErrorKind::Other),
                Some(s) => if size % (s as u64) == 0 && 1 <= size / (s as u64) <= u32::MAX {
                    r matches Ok(n) && n@ == size / (s as u64)
                } else {
                    r == Err::<PageNum, ErrorKind>(ErrorKind::InvalidInput)
                },
            },
    {
        let page_size = match self.page_size() {
            Ok(s) => s.into_inner() as u64,
            Err(e) => return Err(e),
        };
        if size % page_size != 0 {
            return Err(ErrorKind::InvalidInput);
        }
        if size / page_size > u32::MAX as u64 {
            return Err(ErrorKind::InvalidInput);
        }
        match PageNum::new((size / page_size) as u32) {
            Some(n) => Ok(n),
            None => Err(ErrorKind::InvalidInput),
        }
    }

    /// Whether the journal, of which `hdr` is the start, holds a transaction to commit:
    /// it starts with the journal magic. Anything else, a run of zeros too, means that the
    /// transaction was rolled back.
    pub fn is_journal_header_valid(hdr: &[u8]) -> (r: bool)
        ensures
            r == (hdr@.len() >= 8 && hdr@.subrange(0, 8) == journal_magic()),
    {
        let r = hdr.len() >= 8 && hdr[0] == 0xd9 && hdr[1] == 0xd5 && hdr[2] == 0x05 && hdr[3]
            == 0xf9 && hdr[4] == 0x20 && hdr[5] == 0xa1 && hdr[6] == 0x63 && hdr[7] == 0xd7;
        proof {
            if hdr@.len() >= 8 {
                let head = hdr@.subrange(0, 8);
                if r {
                    assert(head =~= journal_magic());
                } else {
                    assert(head[0] == hdr@[0] && head[1] == hdr@[1] && head[2] == hdr@[2]
                        && head[3] == hdr@[3] && head[4] == hdr@[4] && head[5] == hdr@[5]
                        && head[6] == hdr@[6] && head[7] == hdr@[7]);
                }
            }
        }
        r
    }

    /// The pages written that lie within the first `commit` pages: those that a commit
    /// ships.
    fn shipped_pages(&self, commit: PageNum) -> (r: Vec<PageNum>)
        requires
            self.wf(),
        ensures
            page_values(r@) == numbers_of(shipped(self@.dirty, commit@)),
            r@.len() <= self@.dirty.len(),
    {
        let mut r: Vec<PageNum> = Vec::new();
        let mut i: usize = 0;
        let c = commit.into_inner();
        proof {
            lemma_dirty_view(self);
        }
        while i < self.dirty_numbers.len() && self.dirty_numbers.get(i).into_inner() <= c
            invariant
                i <= self.dirty_numbers@.len(),
                r@.len() == i,
                self@.dirty.len() == self.dirty_numbers@.len(),
                forall|k: int| 0 <= k < i ==> (#[trigger] r@[k])@ == self@.dirty[k].0,
                forall|k: int| 0 <= k < i ==> (#[trigger] self@.dirty[k]).0 <= c,
                forall|k: int|
                    0 <= k < self@.dirty.len() ==> (#[trigger] self@.dirty[k]).0
                        == self.dirty_numbers@[k],
            decreases self.dirty_numbers@.len() - i,
        {
            r.push(self.dirty_numbers.get(i));
            i += 1;
        }
        proof {
            lemma_shipped(self@.dirty, c, i as int);
            assert(page_values(r@) =~= numbers_of(shipped(self@.dirty, c)));
        }
        r
    }

    /// Decides what the end of a transaction comes to, given the start of the journal,
    /// `journal_hdr`. A journal without the magic means that the transaction was rolled
    /// back: the pages written are forgotten. Otherwise the transaction is to be
    /// submitted to the remote store, with the id that follows the position's, unless the
    /// database has shrunk, its size or its page size is not known, no lease is held, or the
    /// ids are used up. A transaction that cannot be submitted is given up: the pages written
    /// are forgotten, leave the pager's index, and are handed out, so that their files can be
    /// removed.
    pub fn begin_commit(&mut self, journal_hdr: &[u8], leaser: &Leaser, pager: &mut Pager) -> (r:
        CommitPlan)
        requires
            old(self).wf(),
            leaser.wf(),
            old(pager).wf(),
        ensures
            final(self).wf(),
            final(self).name_spec() == old(self).name_spec(),
            final(self).lock_state() == old(self).lock_state(),
            final(pager).wf(),
            final(pager).names() == old(pager).names(),
            final(pager).has_room() == old(pager).has_room(),
            final(pager).min_space() == old(pager).min_space(),
            final(pager).max_pages() == old(pager).max_pages(),
            final(pager).limits() == old(pager).limits(),
            r is Abort ==> written_left_index(*old(self), *old(pager), *final(pager)),
            !(r is Abort) ==> same_pages(*old(pager), *final(pager)),
            !(journal_hdr@.len() >= 8 && journal_hdr@.subrange(0, 8) == journal_magic()) ==> r
                is Rollback && final(self)@ == (DatabaseState {
                dirty: Seq::empty(),
                ..old(self)@
            }),
            (journal_hdr@.len() >= 8 && journal_hdr@.subrange(0, 8) == journal_magic())
                ==> match commit_error(
                old(self)@,
                leaser.lease(old(self).name_spec()) is Some,
            ) {
                Some(e) => r is Abort && r->error == e && page_values(r->discard@) == numbers_of(
                    old(self)@.dirty,
                ) && final(self)@ == (DatabaseState { dirty: Seq::empty(), ..old(self)@ }),
                None => r is Submit && r->txid@ == txid_of(old(self)@.pos) + 1 && r->commit@
                    == old(self)@.current->0 && r->lease@ == leaser.lease(
                    old(self).name_spec(),
                )->0.id@ && page_values(r->pages@) == numbers_of(
                    shipped(old(self)@.dirty, old(self)@.current->0),
                ) && final(self)@ == old(self)@,
            },
    {
        if !Database::is_journal_header_valid(journal_hdr) {
            self.dirty_numbers = PageSet::new();
            self.dirty_checksums = Vec::new();
            self.dirty_numbers.ascending();
            proof {
                assert(self@.dirty =~= Seq::empty());
            }
            return CommitPlan::Rollback;
        }
        match self.commit_terms(leaser) {
            Ok((txid, commit, lease)) => {
                let pages = self.shipped_pages(commit);
                CommitPlan::Submit { txid, commit, lease, pages }
            },
            Err(error) => {
                let discard = self.commit_failed(pager);
                CommitPlan::Abort { error, discard }
            },
        }
    }

    /// The id, the size and the lease of the transaction that a commit submits.
    fn commit_terms(&self, leaser: &Leaser) -> (r: Result<(TXID, PageNum, String), ErrorKind>)
        requires
            self.wf(),
            leaser.wf(),
        ensures
            match commit_error(self@, leaser.lease(self.name_spec()) is Some) {
                Some(e) => r == Err::<(TXID, PageNum, String), ErrorKind>(e),
                None => r matches Ok(t) && t.0@ == txid_of(self@.pos) + 1 && t.1@
                    == self@.current->0 && t.2@ == leaser.lease(self.name_spec())->0.id@,
            },
    {
        let shrunk = match (self.current_db_size, self.committed_db_size) {
            (None, Some(_)) => true,
            (Some(a), Some(b)) => a.into_inner() < b.into_inner(),
            _ => false,
        };
        if shrunk {
            return Err(ErrorKind::Unsupported);
        }
        let commit = match self.current_db_size {
            Some(c) => c,
            None => return Err(ErrorKind::Other),
        };
        let lease = match leaser.get_lease(self.name.as_str()) {
            Ok(l) => l,
            Err(e) => return Err(e),
        };
        if self.page_size.is_none() {
            return Err(ErrorKind::Other);
        }
        let txid = match self.pos {
            Some(pos) => match pos.txid.next() {
                Some(t) => t,
                None => return Err(ErrorKind::Other),
            },
            None => TXID::one(),
        };
        Ok((txid, commit, lease))
    }

    /// Gives a transaction up after it could not be committed: the pages written are
    /// forgotten, leave the pager's index, and are handed out, so that their files can be
    /// removed and later reads fetch them again. Every other page stays in the index.
    pub fn commit_failed(&mut self, pager: &mut Pager) -> (r: Vec<PageNum>)
        requires
            old(self).wf(),
            old(pager).wf(),
        ensures
            final(self).wf(),
            final(self).name_spec() == old(self).name_spec(),
            final(self).lock_state() == old(self).lock_state(),
            page_values(r@) == numbers_of(old(self)@.dirty),
            final(self)@ == (DatabaseState { dirty: Seq::empty(), ..old(self)@ }),
            final(pager).wf(),
            final(pager).names() == old(pager).names(),
            final(pager).has_room() == old(pager).has_room(),
            final(pager).min_space() == old(pager).min_space(),
            final(pager).max_pages() == old(pager).max_pages(),
            final(pager).limits() == old(pager).limits(),
            written_left_index(*old(self), *old(pager), *final(pager)),
    {
        let r = self.dirty_numbers.to_vec();
        proof {
            assert(page_values(r@) =~= numbers_of(self@.dirty));
        }
        pager.del_pages(self.name.as_str(), &r);
        proof {
            let dirty = self@.dirty;
            assert forall|n: u32| crate::pager::listed(r@, n) <==> has_number(dirty, n) by {
                if crate::pager::listed(r@, n) {
                    let i = choose|i: int| 0 <= i < r@.len() && (#[trigger] r@[i])@ == n;
                    assert(page_values(r@)[i] == n);
                    assert(dirty[i].0 == n);
                }
                if has_number(dirty, n) {
                    let i = choose|i: int| 0 <= i < dirty.len() && (#[trigger] dirty[i]).0 == n;
                    assert(page_values(r@)[i] == numbers_of(dirty)[i]);
                    assert(r@[i]@ == n);
                }
            }
        }
        self.dirty_numbers = PageSet::new();
        self.dirty_checksums = Vec::new();
        self.dirty_numbers.ascending();
        proof {
            assert(self@.dirty =~= Seq::empty());
        }
        r
    }

    /// Takes in that the transaction was committed at the time `now` and has brought the
    /// database to `pos`, one transaction beyond where it was: the size that the transaction
    /// left is the committed size, no page is written any more, and the syncer hears of the
    /// position.
    pub fn commit_succeeded(&mut self, pos: Pos, syncer: &mut Syncer, now: u128)
        requires
            old(self).wf(),
            pos.txid@ == txid_of(old(self)@.pos) + 1,
            old(syncer).wf(),
            old(syncer).db(old(self).name_spec()) is Some,
        ensures
            final(self).wf(),
            final(self).name_spec() == old(self).name_spec(),
            final(self).lock_state() == old(self).lock_state(),
            final(self)@ == (DatabaseState {
                committed: old(self)@.current,
                dirty: Seq::empty(),
                pos: Some(pos),
                ..old(self)@
            }),
            txid_of(final(self)@.pos) == txid_of(old(self)@.pos) + 1,
            final(syncer).wf(),
            final(syncer).names() == old(syncer).names(),
            final(syncer).has_room() == old(syncer).has_room(),
            final(syncer).db(old(self).name_spec()) == Some(
                old(syncer).db(old(self).name_spec())->0.committed(pos, now as nat),
            ),
            forall|other: Seq<char>|
                other != old(self).name_spec() ==> final(syncer).db(other) == old(syncer).db(other),
    {
        self.committed_db_size = self.current_db_size;
        self.dirty_numbers = PageSet::new();
        self.dirty_checksums = Vec::new();
        self.dirty_numbers.ascending();
        self.pos = Some(pos);
        proof {
            assert(self@.dirty =~= Seq::empty());
        }
        syncer.set_pos(self.name.as_str(), self.pos, now);
    }

    /// Writes the transaction file of the commit that [`Database::begin_commit`] has
    /// planned, and computes the position that the commit leads to. `pages` are the pages
    /// to ship, as the pager has them now, and `timestamp` is the time in milliseconds since
    /// the epoch. The database's checksum after the transaction is the checksum before it,
    /// with the earlier checksum of each page taken out and the new one put in.
    pub fn encode_commit(&self, txid: TXID, commit: PageNum, timestamp: u64, pages: &Vec<Page>) -> (r:
        Result<(Vec<u8>, Pos), ErrorKind>)
        requires
            self.wf(),
        ensures
            r is Ok <==> encodable(self@, txid@, commit@, timestamp, pages@),
            r matches Ok(done) ==> {
                &&& done.1.txid == txid
                &&& done.1.post_apply_checksum@ == flagged(
                    commit_sum(checksum_of(self@.pos), shipped(self@.dirty, commit@), pages@),
                )
                &&& done.0@ == file_bytes(
                    commit_header(self@, txid@, commit@, timestamp),
                    pages@,
                    done.1.post_apply_checksum@,
                )
            },
            r matches Err(e) ==> e == ErrorKind::Other,
    {
        let page_size = match self.page_size {
            Some(s) => s.into_inner(),
            None => return Err(ErrorKind::Other),
        };
        if timestamp > 0x7FFF_FFFF_FFFF {
            return Err(ErrorKind::Other);
        }
        if !self.ships(commit, pages) {
            return Err(ErrorKind::Other);
        }
        let sum = Checksum::new(self.commit_checksum(commit, pages));
        let header = FileHeader {
            page_size,
            commit: commit.into_inner(),
            txid: txid.into_inner(),
            timestamp,
            pre_apply_checksum: match self.pos {
                Some(p) => Some(p.post_apply_checksum.into_inner()),
                None => None,
            },
        };
        match ltx_encode(&header, pages, sum.into_inner()) {
            Some(bytes) => Ok((bytes, Pos { txid, post_apply_checksum: sum })),
            None => Err(ErrorKind::Other),
        }
    }

    /// Whether `pages` are the pages that a commit to the size `commit` ships, each with a
    /// number that a transaction file can hold.
    fn ships(&self, commit: PageNum, pages: &Vec<Page>) -> (r: bool)
        requires
            self.wf(),
        ensures
            r == (page_values_of(pages@) == numbers_of(shipped(self@.dirty, commit@)) && forall|
                i: int,
            | 0 <= i < pages@.len() ==> (#[trigger] pages@[i]).number_spec() < u32::MAX),
            r ==> forall|i: int| 0 <= i < pages@.len() ==> (#[trigger] pages@[i]).number_spec() >= 1,
    {
        let expected = self.shipped_pages(commit);
        let ghost want = numbers_of(shipped(self@.dirty, commit@));
        if expected.len() != pages.len() {
            proof {
                assert(page_values_of(pages@).len() != want.len());
            }
            return false;
        }
        let mut i: usize = 0;
        while i < pages.len()
            invariant
                i <= pages@.len(),
                expected@.len() == pages@.len(),
                page_values(expected@) == want,
                want == numbers_of(shipped(self@.dirty, commit@)),
                forall|k: int|
                    0 <= k < i ==> (#[trigger] pages@[k]).number_spec() == want[k] && 1
                        <= pages@[k].number_spec() < u32::MAX,
            decreases pages@.len() - i,
        {
            let n = pages[i].number().into_inner();
            proof {
                assert(page_values(expected@)[i as int] == expected@[i as int]@);
            }
            if n != expected[i].into_inner() || n == u32::MAX {
                proof {
                    assert(pages@[i as int].number_spec() == n);
                    if n != expected@[i as int]@ {
                        assert(page_values_of(pages@)[i as int] == n);
                        assert(want[i as int] == expected@[i as int]@);
                        assert(page_values_of(pages@) != want);
                    } else {
                        assert(!(pages@[i as int].number_spec() < u32::MAX));
                    }
                }
                return false;
            }
            i += 1;
        }
        proof {
            assert(page_values_of(pages@) =~= want);
        }
        true
    }

    /// The database's checksum after the commit to the size `commit` that ships `pages`.
    fn commit_checksum(&self, commit: PageNum, pages: &Vec<Page>) -> (r: u64)
        requires
            self.wf(),
            page_values_of(pages@) == numbers_of(shipped(self@.dirty, commit@)),
        ensures
            r == commit_sum(checksum_of(self@.pos), shipped(self@.dirty, commit@), pages@),
    {
        let ghost dirty = self@.dirty;
        let ghost ship = shipped(dirty, commit@);
        proof {
            lemma_dirty_view(self);
            lemma_shipped_count(dirty, commit@);
            assert(page_values_of(pages@).len() == numbers_of(ship).len());
        }
        let start: u64 = match self.pos {
            Some(p) => p.post_apply_checksum.into_inner(),
            None => 0,
        };
        let mut checksum: u64 = start;
        let mut i: usize = 0;
        while i < pages.len()
            invariant
                i <= pages@.len(),
                pages@.len() == ship.len(),
                ship.len() <= self.dirty_checksums@.len(),
                forall|k: int|
                    0 <= k < ship.len() ==> (#[trigger] ship[k]).1 == checksum_value(
                        self.dirty_checksums@[k],
                    ),
                checksum == commit_sum(start, ship.take(i as int), pages@.take(i as int)),
            decreases pages@.len() - i,
        {
            match self.dirty_checksums[i] {
                Some(prev) => {
                    checksum = checksum ^ prev.into_inner();
                },
                None => {},
            }
            let sum = pages[i].checksum().into_inner();
            checksum = checksum ^ sum;
            proof {
                assert(ship.take(i + 1).drop_last() =~= ship.take(i as int));
                assert(pages@.take(i + 1).drop_last() =~= pages@.take(i as int));
                assert(ship.take(i + 1).last() == ship[i as int]);
                assert(pages@.take(i + 1).last() == pages@[i as int]);
            }
            i += 1;
        }
        proof {
            assert(pages@.take(i as int) =~= pages@);
            assert(ship.take(i as int) =~= ship);
        }
        checksum
    }

    /// Moves the database to the position `pos` that a sync has brought. A sync only moves a
    /// database forward: a position behind the one it is at, or none where it is at one, is
    /// left aside.
    pub fn set_pos(&mut self, pos: Option<Pos>)
        ensures
            final(self)@ == (DatabaseState {
                pos: if txid_of(pos) >= txid_of(old(self)@.pos) {
                    pos
                } else {
                    old(self)@.pos
                },
                ..old(self)@
            }),
            txid_of(final(self)@.pos) >= txid_of(old(self)@.pos),
            final(self).name_spec() == old(self).name_spec(),
            final(self).lock_state() == old(self).lock_state(),
            old(self).wf() ==> final(self).wf(),
    {
        let known: u64 = match self.pos {
            Some(p) => p.txid.into_inner(),
            None => 0,
        };
        let brought: u64 = match pos {
            Some(p) => p.txid.into_inner(),
            None => 0,
        };
        if brought >= known {
            self.pos = pos;
        }
        proof {
            assert(self@.dirty =~= old(self)@.dirty);
        }
    }

    /// Takes in that every cached page of the database has been removed because any of
    /// them may be stale. The pages `removed`, whose files were found and removed, leave the
    /// pager's index. The first of them, as many as the prefetch limit allows, become the
    /// prefetch list, and the committed size is no longer known.
    pub fn apply_all_changed(&mut self, pager: &mut Pager, removed: &Vec<PageNum>)
        requires
            old(self).wf(),
            old(pager).wf(),
        ensures
            final(pager).wf(),
            final(pager).names() == old(pager).names(),
            final(pager).has_room() == old(pager).has_room(),
            final(pager).min_space() == old(pager).min_space(),
            final(pager).max_pages() == old(pager).max_pages(),
            final(pager).limits() == old(pager).limits(),
            pages_left_index(
                old(self).name_spec(),
                page_values(removed@),
                *old(pager),
                *final(pager),
            ),
            final(self).wf(),
            final(self).name_spec() == old(self).name_spec(),
            final(self).lock_state() == old(self).lock_state(),
            final(self)@ == (DatabaseState {
                committed: None,
                prefetch: final(self)@.prefetch,
                ..old(self)@
            }),
            ascending_pages(final(self)@.prefetch),
            final(self)@.prefetch.len() <= old(self)@.prefetch_limit,
            forall|m: u32|
                final(self)@.prefetch.contains(m) <==> exists|i: int|
                    0 <= i < removed@.len() && i < old(self)@.prefetch_limit && (
                    #[trigger] removed@[i])@ == m,
    {
        pager.del_pages(self.name.as_str(), removed);
        proof {
            assert forall|n: u32| crate::pager::listed(removed@, n) <==> page_values(
                removed@,
            ).contains(n) by {
                if crate::pager::listed(removed@, n) {
                    let i = choose|i: int| 0 <= i < removed@.len() && (#[trigger] removed@[i])@ == n;
                    assert(page_values(removed@)[i] == n);
                }
                if page_values(removed@).contains(n) {
                    let i = choose|i: int|
                        0 <= i < page_values(removed@).len() && page_values(removed@)[i] == n;
                    assert(removed@[i]@ == n);
                }
            }
        }
        let mut set = PageSet::new();
        let mut i: usize = 0;
        let limit = self.prefetch_limit;
        while i < removed.len() && i < limit
            invariant
                i <= removed@.len(),
                i <= limit,
                set@.len() <= i,
                forall|m: u32|
                    set@.contains(m) <==> exists|k: int| 0 <= k < i && (#[trigger] removed@[k])@ == m,
            decreases removed@.len() - i,
        {
            let ghost before = set@;
            set.insert(removed[i]);
            proof {
                assert forall|m: u32|
                    set@.contains(m) <==> exists|k: int|
                        0 <= k < i + 1 && (#[trigger] removed@[k])@ == m by {
                    if before.contains(m) {
                        let k = choose|k: int| 0 <= k < i && (#[trigger] removed@[k])@ == m;
                        assert(0 <= k < i + 1 && removed@[k]@ == m);
                    }
                    if exists|k: int| 0 <= k < i + 1 && (#[trigger] removed@[k])@ == m {
                        let k = choose|k: int| 0 <= k < i + 1 && (#[trigger] removed@[k])@ == m;
                        if k < i {
                            assert(before.contains(m));
                        }
                    }
                    if m == removed@[i as int]@ {
                        assert(0 <= i < i + 1 && removed@[i as int]@ == m);
                    }
                }
            }
            i += 1;
        }
        set.ascending();
        self.prefetch_pages = set;
        self.committed_db_size = None;
        proof {
            assert(self@.dirty =~= old(self)@.dirty);
            assert forall|m: u32|
                self@.prefetch.contains(m) <==> exists|k: int|
                    0 <= k < removed@.len() && k < limit && (#[trigger] removed@[k])@ == m by {
                if self@.prefetch.contains(m) {
                    let k = choose|k: int| 0 <= k < i && (#[trigger] removed@[k])@ == m;
                    assert(0 <= k < removed@.len() && k < limit && removed@[k]@ == m);
                }
                if exists|k: int|
                    0 <= k < removed@.len() && k < limit && (#[trigger] removed@[k])@ == m {
                    let k = choose|k: int|
                        0 <= k < removed@.len() && k < limit && (#[trigger] removed@[k])@ == m;
                    assert(0 <= k < i && removed@[k]@ == m);
                }
            }
        }
    }

    /// Takes in that the files of the stale pages `pgnos` have left the cache, as far as
    /// `deleted` goes: `deleted` says of each page, in ascending order, whether a file was
    /// there to remove, and stops short where a removal failed. The pages dealt with leave the
    /// pager's index, and every other page stays there. The pages that were removed, as many
    /// as the prefetch limit allows, become the prefetch list, and if page 1 was among the
    /// pages dealt with, the committed size is no longer known.
    pub fn apply_pages_changed(&mut self, pager: &mut Pager, pgnos: &PageSet, deleted: &Vec<bool>)
        requires
            old(self).wf(),
            old(pager).wf(),
            deleted@.len() <= pgnos@.len(),
        ensures
            final(pager).wf(),
            final(pager).names() == old(pager).names(),
            final(pager).has_room() == old(pager).has_room(),
            final(pager).min_space() == old(pager).min_space(),
            final(pager).max_pages() == old(pager).max_pages(),
            final(pager).limits() == old(pager).limits(),
            pages_left_index(
                old(self).name_spec(),
                pgnos@.take(deleted@.len() as int),
                *old(pager),
                *final(pager),
            ),
            final(self).wf(),
            final(self).name_spec() == old(self).name_spec(),
            final(self).lock_state() == old(self).lock_state(),
            final(self)@ == (DatabaseState {
                committed: if pgnos@.take(deleted@.len() as int).contains(1u32) {
                    None
                } else {
                    old(self)@.committed
                },
                prefetch: final(self)@.prefetch,
                ..old(self)@
            }),
            ascending_pages(final(self)@.prefetch),
            final(self)@.prefetch.len() <= old(self)@.prefetch_limit,
            final(self)@.prefetch == kept(pgnos@, deleted@, old(self)@.prefetch_limit),
    {
        let dealt = pgnos.first(deleted.len()).to_vec();
        pager.del_pages(self.name.as_str(), &dealt);
        proof {
            let taken = pgnos@.take(deleted@.len() as int);
            assert(dealt@.len() == taken.len());
            assert forall|n: u32| crate::pager::listed(dealt@, n) <==> taken.contains(n) by {
                if crate::pager::listed(dealt@, n) {
                    let i = choose|i: int| 0 <= i < dealt@.len() && (#[trigger] dealt@[i])@ == n;
                    assert(taken[i] == n);
                }
                if taken.contains(n) {
                    let i = choose|i: int| 0 <= i < taken.len() && taken[i] == n;
                    assert(dealt@[i]@ == n);
                }
            }
        }
        let mut set = PageSet::new();
        let mut i: usize = 0;
        let limit = self.prefetch_limit;
        let mut forget = false;
        let ghost all = deleted@;
        pgnos.ascending();
        while i < deleted.len()
            invariant
                i <= deleted@.len(),
                deleted@.len() <= pgnos@.len(),
                ascending_pages(pgnos@),
                forget == pgnos@.take(i as int).contains(1u32),
                set@.len() <= limit,
                set@ == kept(pgnos@, deleted@.take(i as int), limit as nat),
                forall|k: int|
                    0 <= k < set@.len() && i < pgnos@.len() ==> #[trigger] set@[k] < pgnos@[i as int],
            decreases deleted@.len() - i,
        {
            let pgno = pgnos.get(i);
            let ghost before = set@;
            set.ascending();
            proof {
                assert(deleted@.take(i + 1).drop_last() =~= deleted@.take(i as int));
                assert(deleted@.take(i + 1).last() == deleted@[i as int]);
            }
            if deleted[i] && set.len() < limit {
                let (at, _new) = set.insert_at(pgno);
                set.ascending();
                proof {
                    assert(!before.contains(pgno@)) by {
                        if before.contains(pgno@) {
                            let k = choose|k: int| 0 <= k < before.len() && before[k] == pgno@;
                            assert(before[k] < pgnos@[i as int]);
                        }
                    }
                    if at < before.len() {
                        assert(set@[at as int + 1] == before[at as int]);
                        assert(before[at as int] < pgnos@[i as int]);
                    }
                    assert(at == before.len());
                    assert(set@ =~= before.push(pgno@));
                }
            }
            if pgno.into_inner() == 1 {
                forget = true;
            }
            proof {
                let t0 = pgnos@.take(i as int);
                let t1 = pgnos@.take(i + 1);
                assert(t1 =~= t0.push(pgnos@[i as int]));
                assert(t1.contains(1u32) <==> t0.contains(1u32) || pgnos@[i as int] == 1) by {
                    if t1.contains(1u32) {
                        let k = choose|k: int| 0 <= k < t1.len() && t1[k] == 1u32;
                        if k < i {
                            assert(t0[k] == 1u32);
                        }
                    }
                    if t0.contains(1u32) {
                        let k = choose|k: int| 0 <= k < t0.len() && t0[k] == 1u32;
                        assert(t1[k] == 1u32);
                    }
                    if pgnos@[i as int] == 1 {
                        assert(t1[i as int] == 1u32);
                    }
                }
                assert forall|k: int| 0 <= k < set@.len() && i + 1 < pgnos@.len() implies #[trigger] set@[k]
                    < pgnos@[i + 1] by {
                    assert(pgnos@[i as int] < pgnos@[i + 1]);
                    if k < before.len() {
                        assert(before[k] < pgnos@[i as int]);
                    }
                }
            }
            i += 1;
        }
        proof {
            assert(deleted@.take(i as int) =~= deleted@);
        }
        set.ascending();
        self.prefetch_pages = set;
        if forget {
            self.committed_db_size = None;
        }
        proof {
            assert(self@.dirty =~= old(self)@.dirty);
        }
    }

    /// The requests that bring every page of a database of `dbsize` pages into the cache.
    /// `present` says of each page, from page 1 on, whether it is cached already. The pages
    /// that are not are asked for in ascending order, 128 of them along with one more in
    /// every request but the last, which asks for what is left.
    pub fn cache_batches(dbsize: PageNum, present: &Vec<bool>) -> (r: Vec<Batch>)
        requires
            present@.len() == dbsize@,
        ensures
            flattened(r@) == missing_pages(present@),
            forall|i: int| 0 <= i < r@.len() ==> (#[trigger] r@[i]).prefetch@.len() <= MAX_MAX_PREFETCH_PAGES,
            forall|i: int|
                0 <= i < r@.len() - 1 ==> (#[trigger] r@[i]).prefetch@.len()
                    == MAX_MAX_PREFETCH_PAGES,
    {
        let mut batches: Vec<Batch> = Vec::new();
        let mut pgnos: Vec<PageNum> = Vec::new();
        let mut i: usize = 0;
        let n = dbsize.into_inner() as usize;
        while i < n
            invariant
                i <= n,
                n == present@.len(),
                n <= u32::MAX,
                pgnos@.len() <= MAX_MAX_PREFETCH_PAGES,
                flattened(batches@) + page_values(pgnos@) == missing_pages(present@.take(i as int)),
                forall|k: int|
                    0 <= k < batches@.len() ==> (#[trigger] batches@[k]).prefetch@.len()
                        == MAX_MAX_PREFETCH_PAGES,
            decreases n - i,
        {
            proof {
                assert(present@.take(i + 1).drop_last() =~= present@.take(i as int));
                assert(present@.take(i + 1).last() == present@[i as int]);
            }
            if !present[i] {
                let pgno = PageNum::new((i + 1) as u32).unwrap();
                let ghost old_batches = batches@;
                let ghost old_pgnos = pgnos@;
                if pgnos.len() == MAX_MAX_PREFETCH_PAGES {
                    let mut prefetch: Vec<PageNum> = Vec::new();
                    std::mem::swap(&mut prefetch, &mut pgnos);
                    batches.push(Batch { pgno, prefetch });
                    proof {
                        assert(batches@.drop_last() =~= old_batches);
                        assert(flattened(batches@) =~= flattened(old_batches) + page_values(
                            old_pgnos,
                        ).push(pgno@));
                        assert(page_values(pgnos@) =~= Seq::<u32>::empty());
                        assert(flattened(batches@) + page_values(pgnos@) =~= (flattened(old_batches)
                            + page_values(old_pgnos)).push(pgno@));
                    }
                } else {
                    pgnos.push(pgno);
                    proof {
                        assert(page_values(pgnos@) =~= page_values(old_pgnos).push(pgno@));
                        assert(flattened(batches@) + page_values(pgnos@) =~= (flattened(old_batches)
                            + page_values(old_pgnos)).push(pgno@));
                    }
                }
            }
            i += 1;
        }
        proof {
            assert(present@.take(i as int) =~= present@);
        }
        if pgnos.len() > 0 {
            let ghost old_batches = batches@;
            let ghost old_pgnos = pgnos@;
            let pgno = pgnos.pop().unwrap();
            batches.push(Batch { pgno, prefetch: pgnos });
            proof {
                assert(batches@.drop_last() =~= old_batches);
                assert(page_values(old_pgnos) =~= page_values(old_pgnos.drop_last()).push(pgno@));
                assert(flattened(batches@) =~= flattened(old_batches) + page_values(old_pgnos));
            }
        } else {
            proof {
                assert(page_values(pgnos@) =~= Seq::<u32>::empty());
                assert(flattened(batches@) + page_values(pgnos@) =~= flattened(batches@));
            }
        }
        batches
    }
}

/// A request for pages that are not cached.
pub struct Batch {
    /// The page that is asked for.
    pub pgno: PageNum,
    /// The pages that are asked for along with it, all of them before it.
    pub prefetch: Vec<PageNum>,
}

/// The pages of a run of requests, in the order in which they are asked for.
pub open spec fn flattened(batches: Seq<Batch>) -> Seq<u32>
    decreases batches.len(),
{
    if batches.len() == 0 {
        Seq::empty()
    } else {
        flattened(batches.drop_last()) + page_values(batches.last().prefetch@).push(
            batches.last().pgno@,
        )
    }
}

/// The pages that are not cached, in ascending order, where `present` says of each page,
/// from page 1 on, whether it is.
pub open spec fn missing_pages(present: Seq<bool>) -> Seq<u32>
    decreases present.len(),
{
    if present.len() == 0 {
        Seq::empty()
    } else if present.last() {
        missing_pages(present.drop_last())
    } else {
        missing_pages(present.drop_last()).push(present.len() as u32)
    }
}

/// The prefetch list `prefetch` cut to `limit` pages: its first pages stay.
pub open spec fn limited(prefetch: Seq<u32>, limit: nat) -> Seq<u32> {
    if limit < prefetch.len() {
        prefetch.take(limit as int)
    } else {
        prefetch
    }
}

/// The pages that go on the prefetch list when the stale pages `pgnos` have been dealt
/// with as far as `deleted` goes: those of which a cached copy was removed, until the list
/// holds `limit` pages.
pub open spec fn kept(pgnos: Seq<u32>, deleted: Seq<bool>, limit: nat) -> Seq<u32>
    decreases deleted.len(),
{
    if deleted.len() == 0 {
        Seq::empty()
    } else {
        let before = kept(pgnos, deleted.drop_last(), limit);
        if deleted.last() && before.len() < limit {
            before.push(pgnos[deleted.len() - 1])
        } else {
            before
        }
    }
}

/// What the end of a transaction comes to.
pub enum CommitPlan {
    /// The transaction was rolled back; there is nothing to do.
    Rollback,
    /// The transaction is to be submitted to the remote store.
    Submit {
        /// The id of the transaction.
        txid: TXID,
        /// The size of the database after the transaction, in pages.
        commit: PageNum,
        /// The id of the lease that the submission quotes.
        lease: String,
        /// The pages to ship, in ascending order.
        pages: Vec<PageNum>,
    },
    /// The transaction cannot be submitted.
    Abort {
        /// Why not.
        error: ErrorKind,
        /// The pages whose cached copies are to be removed.
        discard: Vec<PageNum>,
    },
}

/// The page numbers of the pages written `dirty`.
pub open spec fn numbers_of(dirty: Seq<(u32, Option<u64>)>) -> Seq<u32> {
    Seq::new(dirty.len(), |i: int| dirty[i].0)
}

/// The numbers of the pages `pages`.
pub open spec fn page_values_of(pages: Seq<Page>) -> Seq<u32> {
    Seq::new(pages.len(), |i: int| pages[i].number_spec())
}

/// How many of the pages written lie within the first `commit` pages. What lies behind is
/// left over from before the database was cut and is not shipped.
pub open spec fn shipped_count(dirty: Seq<(u32, Option<u64>)>, commit: u32) -> nat
    decreases dirty.len(),
{
    if dirty.len() == 0 {
        0
    } else if dirty.last().0 <= commit {
        dirty.len()
    } else {
        shipped_count(dirty.drop_last(), commit)
    }
}

/// The pages written that lie within the first `commit` pages.
pub open spec fn shipped(dirty: Seq<(u32, Option<u64>)>, commit: u32) -> Seq<(u32, Option<u64>)> {
    dirty.take(shipped_count(dirty, commit) as int)
}

/// Among pages in ascending order, those within the first `commit` pages are the ones
/// before the first that lies behind.
pub proof fn lemma_shipped(dirty: Seq<(u32, Option<u64>)>, commit: u32, k: int)
    requires
        dirty_ascending(dirty),
        0 <= k <= dirty.len(),
        forall|i: int| 0 <= i < k ==> (#[trigger] dirty[i]).0 <= commit,
        k < dirty.len() ==> dirty[k].0 > commit,
    ensures
        shipped_count(dirty, commit) == k,
        shipped(dirty, commit) == dirty.take(k),
{
    lemma_shipped_count(dirty, commit);
    let n = shipped_count(dirty, commit) as int;
    if n < k {
        assert(dirty[n].0 <= commit);
    }
    if n > k {
        assert(dirty[k].0 <= commit);
    }
}

/// What is shipped is a run from the start of the pages written: every page of the run
/// lies within the first `commit` pages and the page behind the run does not.
pub proof fn lemma_shipped_count(dirty: Seq<(u32, Option<u64>)>, commit: u32)
    requires
        dirty_ascending(dirty),
    ensures
        shipped_count(dirty, commit) <= dirty.len(),
        forall|i: int| 0 <= i < shipped_count(dirty, commit) ==> (#[trigger] dirty[i]).0 <= commit,
        shipped_count(dirty, commit) < dirty.len() ==> dirty[shipped_count(dirty, commit) as int].0
            > commit,
    decreases dirty.len(),
{
    if dirty.len() > 0 {
        if dirty.last().0 <= commit {
            assert forall|i: int| 0 <= i < dirty.len() implies (#[trigger] dirty[i]).0
                <= commit by {
                if i < dirty.len() - 1 {
                    assert(dirty[i].0 < dirty[dirty.len() - 1].0);
                }
            }
        } else {
            let shorter = dirty.drop_last();
            lemma_ascending_shorter(dirty);
            lemma_shipped_count(shorter, commit);
            let k = shipped_count(shorter, commit);
            assert forall|i: int| 0 <= i < k implies (#[trigger] dirty[i]).0 <= commit by {
                assert(shorter[i].0 <= commit);
            }
            if k < shorter.len() {
                assert(shorter[k as int] == dirty[k as int]);
            }
        }
    }
}

/// Pages in ascending order stay so without the last.
pub proof fn lemma_ascending_shorter(dirty: Seq<(u32, Option<u64>)>)
    requires
        dirty_ascending(dirty),
        dirty.len() > 0,
    ensures
        dirty_ascending(dirty.drop_last()),
{
    let shorter = dirty.drop_last();
    assert forall|i: int| 0 <= i < shorter.len() implies (#[trigger] shorter[i]) == dirty[i] by {}
    assert forall|i: int, j: int| 0 <= i < j < shorter.len() implies (#[trigger] shorter[i]).0 < (
    #[trigger] shorter[j]).0 by {
        assert(dirty[i].0 < dirty[j].0);
    }
    assert forall|i: int| 0 <= i < shorter.len() implies (#[trigger] shorter[i]).0 >= 1 by {
        assert(dirty[i].0 >= 1);
    }
    assert forall|i: int| 0 <= i < shorter.len() implies ((#[trigger] shorter[i]).1 matches Some(
        c,
    ) ==> c == flagged(c)) by {
        let x = dirty[i];
    }
}

/// Whether the database has shrunk since its last commit, which a commit cannot express.
pub open spec fn shrunk(s: DatabaseState) -> bool {
    match (s.current, s.committed) {
        (None, Some(_)) => true,
        (Some(a), Some(b)) => a < b,
        _ => false,
    }
}

/// Why a transaction cannot be submitted, if it cannot.
pub open spec fn commit_error(s: DatabaseState, leased: bool) -> Option<ErrorKind> {
    if shrunk(s) {
        Some(ErrorKind::Unsupported)
    } else if s.current is None {
        Some(ErrorKind::Other)
    } else if !leased {
        Some(ErrorKind::PermissionDenied)
    } else if s.page_size is None || txid_of(s.pos) == u64::MAX {
        Some(ErrorKind::Other)
    } else {
        None
    }
}

/// The database's checksum after a transaction that has given the pages `entries` the
/// content `pages`, where it was `start` before: for each page, the earlier checksum is
/// taken out, if the page existed, and the new one is put in.
pub open spec fn commit_sum(start: u64, entries: Seq<(u32, Option<u64>)>, pages: Seq<Page>) -> u64
    decreases entries.len(),
{
    if entries.len() == 0 || pages.len() == 0 {
        start
    } else {
        let before = commit_sum(start, entries.drop_last(), pages.drop_last());
        let without = match entries.last().1 {
            Some(prev) => before ^ prev,
            None => before,
        };
        without ^ flagged(page_checksum(pages.last().data_spec(), pages.last().number_spec()))
    }
}

/// The header of the transaction file of a commit.
pub open spec fn commit_header(s: DatabaseState, txid: u64, commit: u32, timestamp: u64) -> FileHeader {
    FileHeader {
        page_size: s.page_size->0,
        commit,
        txid,
        timestamp,
        pre_apply_checksum: match s.pos {
            Some(p) => Some(p.post_apply_checksum@),
            None => None,
        },
    }
}

/// Whether the transaction file of a commit can be written: the page size is known, the
/// time is one that the file can hold, `pages` are the pages to ship, and the file is one
/// that the format allows.
pub open spec fn encodable(
    s: DatabaseState,
    txid: u64,
    commit: u32,
    timestamp: u64,
    pages: Seq<Page>,
) -> bool {
    &&& s.page_size is Some
    &&& timestamp <= 0x7FFF_FFFF_FFFF
    &&& page_values_of(pages) == numbers_of(shipped(s.dirty, commit))
    &&& forall|i: int| 0 <= i < pages.len() ==> (#[trigger] pages[i]).number_spec() < u32::MAX
    &&& header_accepted(commit_header(s, txid, commit, timestamp))
    &&& pages_accepted(commit_header(s, txid, commit, timestamp), pages)
}

/// What a write is to do.
pub struct WritePlan {
    /// The page that is written.
    pub number: PageNum,
    /// Whether the page's earlier content is to be read for its checksum.
    pub read_previous: bool,
}

/// Whether every page that the database has written in the transaction in progress is in
/// the pager's index.
pub open spec fn written_pages_cached(db: Database, pager: Pager) -> bool {
    forall|n: u32| #[trigger] has_number(db@.dirty, n) ==> pager.cached(db.name_spec(), n)
}

/// Whether taking the page `number` of the database into the index pushes out a page that
/// the database has written: the index has to push out its oldest page, and that is one.
pub open spec fn displaces_written(db: Database, pager: Pager, number: u32) -> bool {
    &&& pager.displaces(db.name_spec(), number)
    &&& pager.oldest() matches Some(page) && page.0 == db.name_spec() && has_number(
        db@.dirty,
        page.1,
    )
}

/// Whether the index `after` holds what the index `before` held, but for the pages that
/// the database `db` had written.
pub open spec fn written_left_index(db: Database, before: Pager, after: Pager) -> bool {
    forall|d: Seq<char>, n: u32|
        after.cached(d, n) == (before.cached(d, n) && !(d == db.name_spec() && has_number(
            db@.dirty,
            n,
        )))
}

/// Whether the index `after` holds what the index `before` held, but for the pages
/// `pgnos` of the database `name`.
pub open spec fn pages_left_index(name: Seq<char>, pgnos: Seq<u32>, before: Pager, after: Pager) -> bool {
    forall|d: Seq<char>, n: u32|
        after.cached(d, n) == (before.cached(d, n) && !(d == name && pgnos.contains(n)))
}

/// Where every page of the database `name` that the index held is among the pages
/// removed, the index holds no page of the database afterwards.
pub proof fn lemma_all_pages_left(name: Seq<char>, pgnos: Seq<u32>, before: Pager, after: Pager)
    requires
        pages_left_index(name, pgnos, before, after),
        forall|n: u32| before.cached(name, n) ==> pgnos.contains(n),
    ensures
        forall|n: u32| !after.cached(name, n),
{
}

/// Whether two indexes hold the same pages.
pub open spec fn same_pages(before: Pager, after: Pager) -> bool {
    forall|d: Seq<char>, n: u32| after.cached(d, n) == before.cached(d, n)
}

/// Whether the page `n` is among the pages written.
pub open spec fn has_number(dirty: Seq<(u32, Option<u64>)>, n: u32) -> bool {
    exists|i: int| 0 <= i < dirty.len() && (#[trigger] dirty[i]).0 == n
}

/// Whether the pages written stand in ascending order, none of them twice, and each earlier
/// checksum carries the flag.
pub open spec fn dirty_ascending(dirty: Seq<(u32, Option<u64>)>) -> bool {
    &&& forall|i: int| 0 <= i < dirty.len() ==> (#[trigger] dirty[i]).0 >= 1
    &&& forall|i: int, j: int|
        0 <= i < j < dirty.len() ==> (#[trigger] dirty[i]).0 < (#[trigger] dirty[j]).0
    &&& forall|i: int|
        0 <= i < dirty.len() ==> ((#[trigger] dirty[i]).1 matches Some(c) ==> c == flagged(c))
}

/// Whether a write of `buf` at `offset` is a write of the database header.
pub open spec fn writes_header(buf: Seq<u8>, offset: u64) -> bool {
    offset == 0 && buf.len() >= HEADER_SIZE
}

/// The page size after a write of `buf` at `offset`: a header tells it where it was not
/// known and the header names one.
pub open spec fn written_page_size(s: DatabaseState, buf: Seq<u8>, offset: u64) -> Option<u32> {
    if writes_header(buf, offset) && s.page_size is None && is_page_size(
        decoded_page_size(be16(buf, 16)) as u32,
    ) {
        Some(decoded_page_size(be16(buf, 16)) as u32)
    } else {
        s.page_size
    }
}

/// Whether a write of `buf` at `offset` is a write of a malformed database header: one
/// that has to tell the page size and names none, or one that gives the database no page.
pub open spec fn malformed_header(s: DatabaseState, buf: Seq<u8>, offset: u64) -> bool {
    writes_header(buf, offset) && (written_page_size(s, buf, offset) is None || be32(
        buf,
        COMMIT_START as int,
    ) == 0)
}

/// The database after a write of `buf` at `offset` has been prepared: a header has told
/// what it could, unless the database is in write-ahead-log mode and takes no write at all.
pub open spec fn header_written(s: DatabaseState, buf: Seq<u8>, offset: u64) -> DatabaseState {
    if s.wal {
        s
    } else {
        header_told(s, buf, offset)
    }
}

/// The database after a header that was written has told what it could.
pub open spec fn header_told(s: DatabaseState, buf: Seq<u8>, offset: u64) -> DatabaseState {
    DatabaseState {
        page_size: written_page_size(s, buf, offset),
        current: if writes_header(buf, offset) && !malformed_header(s, buf, offset) {
            Some(be32(buf, COMMIT_START as int) as u32)
        } else {
            s.current
        },
        ..s
    }
}

/// What the preparation of a write of `buf` at `offset` comes to.
pub open spec fn write_plan(s: DatabaseState, buf: Seq<u8>, offset: u64, leased: bool) -> Result<
    WritePlan,
    ErrorKind,
> {
    let page_size = written_page_size(s, buf, offset);
    if s.wal {
        Err(ErrorKind::Unsupported)
    } else if malformed_header(s, buf, offset) {
        Err(ErrorKind::InvalidData)
    } else if !leased {
        Err(ErrorKind::PermissionDenied)
    } else if page_size is None {
        Err(ErrorKind::Other)
    } else if offset % (page_size->0 as u64) != 0 || buf.len() != page_size->0 || page_of_offset(
        offset,
        page_size->0,
    ) > u32::MAX {
        Err(ErrorKind::InvalidInput)
    } else {
        Ok(
            WritePlan {
                number: page_num_of(page_of_offset(offset, page_size->0) as u32),
                read_previous: !(s.committed is Some && page_of_offset(offset, page_size->0)
                    > s.committed->0),
            },
        )
    }
}

/// What the record holds of the pages written is what its view says.
pub proof fn lemma_dirty_view(db: &Database)
    requires
        db.wf(),
    ensures
        dirty_ascending(db@.dirty),
{
    assert forall|i: int| 0 <= i < db@.dirty.len() implies (#[trigger] db@.dirty[i]).0 >= 1 by {
        assert(db.dirty_numbers@[i] >= 1);
    }
    assert forall|i: int, j: int| 0 <= i < j < db@.dirty.len() implies (#[trigger] db@.dirty[i]).0
        < (#[trigger] db@.dirty[j]).0 by {
        assert(db.dirty_numbers@[i] < db.dirty_numbers@[j]);
    }
    assert forall|i: int| 0 <= i < db@.dirty.len() implies ((#[trigger] db@.dirty[i]).1 matches Some(
        c,
    ) ==> c == flagged(c)) by {
        let x = db.dirty_checksums@[i];
    }
}

/// The numbers of the pages `pages`.
pub open spec fn page_values(pages: Seq<PageNum>) -> Seq<u32> {
    Seq::new(pages.len(), |i: int| pages[i]@)
}

/// The bytes `buf`, read at `offset`, as the engine gets to see them: where they hold both
/// versions of the header of a database in write-ahead-log mode, both say 1.
pub open spec fn masked(buf: Seq<u8>, offset: u64, wal: bool) -> Seq<u8> {
    if wal && offset <= WRITE_VERSION_OFFSET && offset + buf.len() > READ_VERSION_OFFSET {
        buf.update(WRITE_VERSION_OFFSET - offset, 1u8).update(READ_VERSION_OFFSET - offset, 1u8)
    } else {
        buf
    }
}

/// Whether page 1 is among the pages written.
pub open spec fn has_page_one(dirty: Seq<(u32, Option<u64>)>) -> bool {
    exists|i: int| 0 <= i < dirty.len() && (#[trigger] dirty[i]).0 == 1
}

/// The committed size that the bytes `buf`, read at `offset`, tell: the header's size
/// field, where the bytes hold it and page 1 is not among the pages written.
pub open spec fn refreshed_commit(buf: Seq<u8>, offset: u64, dirty: Seq<(u32, Option<u64>)>) -> Option<
    u32,
> {
    if offset <= COMMIT_START && offset + buf.len() >= COMMIT_END && !has_page_one(dirty) {
        Some(be32(buf, COMMIT_START - offset) as u32)
    } else {
        None
    }
}

} // verus!
