//! The page cache: which pages are kept on the local disk, which of them goes first when
//! space runs short, and what a read does when a page is not there.

use crate::error::ErrorKind;
use crate::interner::{
    id_of, interned, interner_get, interner_get_or_intern, interner_len, interner_new,
    interner_resolve, lemma_id_of, lemma_id_of_push, Interner, MAX_NAMES,
};
use crate::lru::{
    index_inv, lemma_joined, lemma_push_drop, lemma_used, lemma_without, lru_get, lru_len, lru_new,
    lru_put, lru_remove, lru_remove_lru_from_probationary, lru_remove_lru_from_protected,
    probationary, probationary_cap, protected, protected_cap, used_probationary, used_protected,
    without, PageIndex, PageKey,
};
use crate::ltx::{ltx_page_checksum, page_checksum};
use crate::text::{hex_text, number, parse_number, to_hex};
use crate::types::{Checksum, PageNum, Pos};
use vstd::prelude::*;
use vstd::string::StringSliceAdditionalSpecFns;

verus! {

/// Where a page that was read came from.
#[derive(Clone, Copy, Debug, PartialEq, Eq, Structural)]
pub enum PageSource {
    /// The local cache.
    Local,
    /// The remote store.
    Remote,
}

/// A database page with its number.
#[derive(Debug)]
pub struct Page {
    pub(crate) data: Vec<u8>,
    pub(crate) number: PageNum,
}

impl Page {
    /// The page's number.
    pub closed spec fn number_spec(&self) -> u32 {
        self.number@
    }

    /// The page's content.
    pub closed spec fn data_spec(&self) -> Seq<u8> {
        self.data@
    }

    /// The page with the number `number` and the content `data`.
    pub fn new(number: PageNum, data: Vec<u8>) -> (r: Page)
        ensures
            r.number_spec() == number@,
            r.data_spec() == data@,
    {
        Page { data, number }
    }

    /// The page's number.
    pub fn number(&self) -> (r: PageNum)
        ensures
            r@ == self.number_spec(),
    {
        self.number
    }

    /// The page's checksum: a function of its number and its content.
    pub fn checksum(&self) -> (r: Checksum)
        ensures
            r@ == page_checksum(self.data_spec(), self.number_spec()),
    {
        Checksum::new(ltx_page_checksum(self.data.as_slice(), self.number.into_inner()))
    }

    /// The page's content.
    pub fn as_ref(&self) -> (r: &[u8])
        ensures
            r@ == self.data_spec(),
    {
        self.data.as_slice()
    }

    /// The page's content, without the page.
    pub fn into_inner(self) -> (r: Vec<u8>)
        ensures
            r@ == self.data_spec(),
    {
        self.data
    }
}

/// A database page that is borrowed from whoever holds its content.
#[derive(Clone, Copy, Debug)]
pub struct PageRef<'a> {
    data: &'a [u8],
    number: PageNum,
}

impl<'a> PageRef<'a> {
    /// The page's number.
    pub closed spec fn number_spec(&self) -> u32 {
        self.number@
    }

    /// The page's content.
    pub closed spec fn data_spec(&self) -> Seq<u8> {
        self.data@
    }

    /// The page with the number `number` and the content `data`.
    pub fn new(number: PageNum, data: &'a [u8]) -> (r: PageRef<'a>)
        ensures
            r.number_spec() == number@,
            r.data_spec() == data@,
    {
        PageRef { data, number }
    }

    /// The page's number.
    pub fn number(&self) -> (r: PageNum)
        ensures
            r@ == self.number_spec(),
    {
        self.number
    }

    /// The page's content.
    pub fn as_ref(&self) -> (r: &'a [u8])
        ensures
            r@ == self.data_spec(),
    {
        self.data
    }
}

/// The size of the index's probationary segment.
pub const PROBATIONARY_PAGES: usize = 6500;

/// The size of the index's protected segment.
pub const PROTECTED_PAGES: usize = 26000;

/// The free space that the pager keeps on the file system unless it is told otherwise.
pub const DEFAULT_MIN_AVAILABLE_SPACE: u64 = 10 * 1024 * 1024;

/// What the pager does before it stores a page.
#[derive(Debug)]
pub enum Reclaim {
    /// Nothing: there is room.
    Done,
    /// The page `pgno` of the database `db` has left the index; its file is to be removed,
    /// and then the pager is to be asked again.
    Evicted { db: String, pgno: PageNum },
}

/// The pager's index of the cached pages, and the limits that it keeps them within.
pub struct Pager {
    interner: Interner,
    lru: PageIndex,
    min_available_space: u64,
    max_cached_pages: usize,
}

impl Pager {
    /// The names of the databases that the index has seen; a database's place is its id.
    pub closed spec fn names(&self) -> Seq<Seq<char>> {
        interned(self.interner)
    }

    /// The keys of the index, in the order in which they would be given up.
    pub closed spec fn keys(&self) -> Seq<PageKey> {
        probationary(self.lru) + protected(self.lru)
    }

    /// The keys of the pages that were used once since they came, from the least to the
    /// most recently used. These are given up first.
    pub closed spec fn probationary_keys(&self) -> Seq<PageKey> {
        probationary(self.lru)
    }

    /// The keys of the pages that were used again, from the least to the most recently
    /// used.
    pub closed spec fn protected_keys(&self) -> Seq<PageKey> {
        protected(self.lru)
    }

    /// How many keys the index holds at most of pages that were used once, and how many of
    /// pages that were used again.
    pub closed spec fn limits(&self) -> (nat, nat) {
        (probationary_cap(self.lru), protected_cap(self.lru))
    }

    /// The key of the page `pgno` of the database `db`, once the index has seen the
    /// database.
    pub open spec fn key_of(&self, db: Seq<char>, pgno: u32) -> Option<PageKey> {
        match id_of(self.names(), db) {
            Some(id) => Some((id as u32, pgno)),
            None => None,
        }
    }

    /// Whether taking in the page `pgno` of `db` pushes another page out of the index: the
    /// page is new to the index and there is no room among the pages that were used once.
    pub open spec fn displaces(&self, db: Seq<char>, pgno: u32) -> bool {
        !self.cached(db, pgno) && self.probationary_keys().len() >= self.limits().0
    }

    /// Whether the index is in order: no name has two ids, no key stands twice, and every
    /// key is a page of a database that has a name.
    pub closed spec fn wf(&self) -> bool {
        &&& index_inv(self.lru)
        &&& interned(self.interner).no_duplicates()
        &&& interned(self.interner).len() <= MAX_NAMES
        &&& forall|i: int|
            0 <= i < self.keys().len() ==> (#[trigger] self.keys()[i]).0 < self.names().len()
                && self.keys()[i].1 >= 1
    }

    /// Whether another database name can be taken in.
    pub closed spec fn has_room(&self) -> bool {
        interned(self.interner).len() < MAX_NAMES
    }

    /// Whether the index holds the page `pgno` of the database `db`.
    pub open spec fn cached(&self, db: Seq<char>, pgno: u32) -> bool {
        match id_of(self.names(), db) {
            Some(id) => self.keys().contains((id as u32, pgno)),
            None => false,
        }
    }

    /// The number of pages that the index holds.
    pub closed spec fn count(&self) -> nat {
        self.keys().len()
    }

    /// The page that the index gives up first: the least recently used of those that were
    /// used once, and where there is none, of those that were used again.
    pub closed spec fn oldest(&self) -> Option<(Seq<char>, u32)> {
        if self.keys().len() > 0 {
            Some((self.names()[self.keys()[0].0 as int], self.keys()[0].1))
        } else {
            None
        }
    }

    /// The free space to keep on the file system, in bytes.
    pub closed spec fn min_space(&self) -> u64 {
        self.min_available_space
    }

    /// The most pages to cache, where zero stands for no limit.
    pub closed spec fn max_pages(&self) -> usize {
        self.max_cached_pages
    }

    /// A pager with an empty index, no limit on the number of pages, and ten mebibytes of
    /// space to keep free.
    pub fn new() -> (r: Pager)
        ensures
            r.wf(),
            r.has_room(),
            r.count() == 0,
            r.min_space() == DEFAULT_MIN_AVAILABLE_SPACE,
            r.max_pages() == 0,
            r.limits() == (PROBATIONARY_PAGES as nat, PROTECTED_PAGES as nat),
            forall|db: Seq<char>, pgno: u32| !r.cached(db, pgno),
    {
        let lru = lru_new(PROBATIONARY_PAGES, PROTECTED_PAGES).unwrap();
        let r = Pager {
            interner: interner_new(),
            lru,
            min_available_space: DEFAULT_MIN_AVAILABLE_SPACE,
            max_cached_pages: 0,
        };
        proof {
            assert(r.keys() =~= Seq::<PageKey>::empty());
        }
        r
    }

    /// Whether another database name can be taken in.
    pub fn room(&self) -> (r: bool)
        ensures
            r == self.has_room(),
    {
        interner_len(&self.interner) < MAX_NAMES
    }

    /// The free space that the pager keeps on the file system, in bytes.
    pub fn min_available_space(&self) -> (r: u64)
        ensures
            r == self.min_space(),
    {
        self.min_available_space
    }

    /// Sets the free space that the pager keeps on the file system, in bytes.
    pub fn set_min_available_space(&mut self, maa: u64)
        ensures
            final(self).min_space() == maa,
            final(self).max_pages() == old(self).max_pages(),
            final(self).names() == old(self).names(),
            final(self).has_room() == old(self).has_room(),
            final(self).keys() == old(self).keys(),
            final(self).probationary_keys() == old(self).probationary_keys(),
            final(self).protected_keys() == old(self).protected_keys(),
            final(self).limits() == old(self).limits(),
            final(self).count() == old(self).count(),
            old(self).wf() ==> final(self).wf(),
            final(self).has_room() == old(self).has_room(),
    {
        self.min_available_space = maa;
        proof {
            assert(self.keys() == old(self).keys());
        }
    }

    /// The most pages that the pager caches; zero stands for no limit.
    pub fn max_cached_pages(&self) -> (r: usize)
        ensures
            r == self.max_pages(),
    {
        self.max_cached_pages
    }

    /// Sets the most pages that the pager caches; zero stands for no limit.
    pub fn set_max_cached_pages(&mut self, mcp: usize)
        ensures
            final(self).max_pages() == mcp,
            final(self).min_space() == old(self).min_space(),
            final(self).names() == old(self).names(),
            final(self).has_room() == old(self).has_room(),
            final(self).keys() == old(self).keys(),
            final(self).probationary_keys() == old(self).probationary_keys(),
            final(self).protected_keys() == old(self).protected_keys(),
            final(self).limits() == old(self).limits(),
            final(self).count() == old(self).count(),
            old(self).wf() ==> final(self).wf(),
            final(self).has_room() == old(self).has_room(),
    {
        self.max_cached_pages = mcp;
        proof {
            assert(self.keys() == old(self).keys());
        }
    }

    /// The number of pages that the index holds.
    pub fn cached_pages(&self) -> (r: usize)
        ensures
            r == self.count(),
    {
        lru_len(&self.lru)
    }

    /// The key of a page of a database that the index has seen.
    fn known_key(&self, db: &str, pgno: PageNum) -> (r: Option<PageKey>)
        requires
            self.wf(),
        ensures
            match r {
                Some(k) => id_of(self.names(), db@) == Some(k.0 as int) && k.1 == pgno@,
                None => id_of(self.names(), db@) is None,
            },
    {
        match interner_get(&self.interner, db) {
            Some(id) => {
                proof {
                    lemma_id_of(interned(self.interner), id as int);
                }
                Some((id as u32, pgno.into_inner()))
            },
            None => None,
        }
    }

    /// Marks the page `pgno` of `db` as used just now, after it was read from the cache.
    /// The index holds the same pages as before.
    pub fn touch(&mut self, db: &str, pgno: PageNum)
        requires
            old(self).wf(),
        ensures
            final(self).wf(),
            final(self).names() == old(self).names(),
            final(self).has_room() == old(self).has_room(),
            final(self).count() == old(self).count(),
            final(self).min_space() == old(self).min_space(),
            final(self).max_pages() == old(self).max_pages(),
            final(self).limits() == old(self).limits(),
            forall|d: Seq<char>, n: u32| final(self).cached(d, n) == old(self).cached(d, n),
            final(self).probationary_keys() == if old(self).cached(db@, pgno@) {
                used_probationary(
                    old(self).probationary_keys(),
                    old(self).protected_keys(),
                    old(self).limits().0,
                    old(self).limits().1,
                    old(self).key_of(db@, pgno@)->0,
                )
            } else {
                old(self).probationary_keys()
            },
            final(self).protected_keys() == if old(self).cached(db@, pgno@) {
                used_protected(
                    old(self).probationary_keys(),
                    old(self).protected_keys(),
                    old(self).limits().1,
                    old(self).key_of(db@, pgno@)->0,
                )
            } else {
                old(self).protected_keys()
            },
    {
        match self.known_key(db, pgno) {
            Some(k) => {
                let ghost prob = probationary(self.lru);
                let ghost prot = protected(self.lru);
                proof {
                    lemma_used(prob, prot, probationary_cap(self.lru), protected_cap(self.lru), k);
                }
                let ghost before = self.keys();
                let _ = lru_get(&mut self.lru, k);
                proof {
                    let after = self.keys();
                    assert forall|x: PageKey| after.contains(x) <==> before.contains(x) by {}
                    assert forall|i: int| 0 <= i < after.len() implies (#[trigger] after[i]).0
                        < self.names().len() && after[i].1 >= 1 by {
                        assert(after.contains(after[i]));
                        let j = choose|j: int| 0 <= j < before.len() && before[j] == after[i];
                    }
                }
            },
            None => {},
        }
    }

    /// Takes the page `pgno` of `db` into the index, after it was written to the cache, as
    /// the page used last. Where a segment of the index is full, its least recently used page
    /// drops out of the index; no other page does.
    pub fn put_page(&mut self, db: &str, pgno: PageNum)
        requires
            old(self).wf(),
            old(self).has_room(),
        ensures
            final(self).wf(),
            final(self).min_space() == old(self).min_space(),
            final(self).max_pages() == old(self).max_pages(),
            final(self).cached(db@, pgno@),
            final(self).count() <= old(self).count() + 1,
            old(self).cached(db@, pgno@) ==> final(self).count() == old(self).count(),
            forall|d: Seq<char>, n: u32|
                final(self).cached(d, n) ==> old(self).cached(d, n) || (d == db@ && n == pgno@),
            forall|d: Seq<char>, n: u32|
                old(self).cached(d, n) && !final(self).cached(d, n) ==> old(self).displaces(
                    db@,
                    pgno@,
                ) && old(self).oldest() == Some((d, n)),
            final(self).limits() == old(self).limits(),
            final(self).key_of(db@, pgno@) is Some,
            forall|d: Seq<char>, n: u32|
                old(self).key_of(d, n) is Some ==> final(self).key_of(d, n) == old(self).key_of(
                    d,
                    n,
                ),
            final(self).probationary_keys() == used_probationary(
                old(self).probationary_keys(),
                old(self).protected_keys(),
                old(self).limits().0,
                old(self).limits().1,
                final(self).key_of(db@, pgno@)->0,
            ),
            final(self).protected_keys() == used_protected(
                old(self).probationary_keys(),
                old(self).protected_keys(),
                old(self).limits().1,
                final(self).key_of(db@, pgno@)->0,
            ),
    {
        let ghost names0 = interned(self.interner);
        let id = interner_get_or_intern(&mut self.interner, db);
        let ghost names1 = interned(self.interner);
        let k: PageKey = (id as u32, pgno.into_inner());
        let ghost before = self.keys();
        proof {
            assert(before == old(self).keys());
            assert forall|j: int| 0 <= j < before.len() implies (#[trigger] before[j]).0
                < names0.len() && before[j].1 >= 1 by {
                assert(old(self).keys()[j].0 < names0.len());
            }
            lemma_id_of(names1, id as int);
            assert forall|other: Seq<char>| other != db@ implies id_of(names1, other) == id_of(
                names0,
                other,
            ) by {
                if !names0.contains(db@) {
                    lemma_id_of_push(names0, db@, other);
                }
            }
            if names0.contains(db@) {
                lemma_id_of(names0, names0.index_of(db@));
            } else {
                assert(!before.contains(k)) by {
                    if before.contains(k) {
                        let j = choose|j: int| 0 <= j < before.len() && before[j] == k;
                        assert(before[j].0 < names0.len());
                    }
                }
            }
            lemma_used(
                probationary(self.lru),
                protected(self.lru),
                probationary_cap(self.lru),
                protected_cap(self.lru),
                k,
            );
        }
        lru_put(&mut self.lru, k);
        proof {
            let after = self.keys();
            assert forall|i: int| 0 <= i < after.len() implies (#[trigger] after[i]).0
                < names1.len() && after[i].1 >= 1 by {
                assert(after.contains(after[i]));
                if after[i] != k {
                    let j = choose|j: int| 0 <= j < before.len() && before[j] == after[i];
                    assert(before[j].0 < names0.len());
                }
            }
            assert forall|d: Seq<char>, n: u32| self.cached(d, n) implies old(self).cached(d, n)
                || (d == db@ && n == pgno@) by {
                let idd = id_of(names1, d)->0;
                let key = (idd as u32, n);
                if key == k {
                    assert(names1[idd] == d);
                    assert(idd == id);
                } else {
                    assert(before.contains(key));
                    let j = choose|j: int| 0 <= j < before.len() && before[j] == key;
                    assert(before[j].0 < names0.len());
                    assert(names0[idd] == names1[idd]);
                    lemma_id_of(names0, idd);
                }
            }
            assert forall|d: Seq<char>, n: u32| old(self).cached(d, n) && !self.cached(
                d,
                n,
            ) implies old(self).displaces(db@, pgno@) && old(self).oldest() == Some((d, n)) by {
                let idd = id_of(names0, d)->0;
                let key = (idd as u32, n);
                assert(before.contains(key));
                assert(names0[idd] == d);
                assert(names1[idd] == d);
                lemma_id_of(names1, idd);
                assert(!after.contains(key));
                assert(!before.contains(k));
                if names0.contains(db@) {
                    assert(old(self).key_of(db@, pgno@) == Some(k));
                }
                assert(key == probationary(old(self).lru)[0]);
                assert(before[0] == probationary(old(self).lru)[0]);
            }
        }
    }

    /// Takes the page `pgno` of `db` out of the index, after its file was removed, and says
    /// whether the index held it.
    pub fn del_page(&mut self, db: &str, pgno: PageNum) -> (r: bool)
        requires
            old(self).wf(),
        ensures
            final(self).wf(),
            final(self).names() == old(self).names(),
            final(self).has_room() == old(self).has_room(),
            final(self).min_space() == old(self).min_space(),
            final(self).max_pages() == old(self).max_pages(),
            r == old(self).cached(db@, pgno@),
            !final(self).cached(db@, pgno@),
            final(self).count() == old(self).count() - if r {
                1int
            } else {
                0int
            },
            forall|d: Seq<char>, n: u32|
                !(d == db@ && n == pgno@) ==> final(self).cached(d, n) == old(self).cached(d, n),
            final(self).limits() == old(self).limits(),
            final(self).probationary_keys() == match old(self).key_of(db@, pgno@) {
                Some(k) => without(old(self).probationary_keys(), k),
                None => old(self).probationary_keys(),
            },
            final(self).protected_keys() == match old(self).key_of(db@, pgno@) {
                Some(k) => without(old(self).protected_keys(), k),
                None => old(self).protected_keys(),
            },
    {
        match self.known_key(db, pgno) {
            Some(k) => {
                let ghost prob = probationary(self.lru);
                let ghost prot = protected(self.lru);
                let ghost before = self.keys();
                let r = lru_remove(&mut self.lru, k);
                proof {
                    let after = self.keys();
                    lemma_joined(prob, prot);
                    lemma_joined(probationary(self.lru), protected(self.lru));
                    lemma_without(prob, k);
                    lemma_without(prot, k);
                    assert(before == prob + prot);
                    assert(after == without(prob, k) + without(prot, k));
                    assert forall|x: PageKey| after.contains(x) <==> before.contains(x) && x
                        != k by {
                        assert(after.contains(x) <==> without(prob, k).contains(x) || without(
                            prot,
                            k,
                        ).contains(x));
                        assert(before.contains(x) <==> prob.contains(x) || prot.contains(x));
                    }
                    assert forall|i: int| 0 <= i < after.len() implies (#[trigger] after[i]).0
                        < self.names().len() && after[i].1 >= 1 by {
                        assert(after.contains(after[i]));
                        let j = choose|j: int| 0 <= j < before.len() && before[j] == after[i];
                    }
                    assert forall|d: Seq<char>, n: u32| !(d == db@ && n == pgno@) implies self.cached(
                        d,
                        n,
                    ) == old(self).cached(d, n) by {
                        if id_of(self.names(), d) is Some {
                            let idd = id_of(self.names(), d)->0;
                            if (idd as u32, n) == k {
                                assert(self.names()[idd] == d);
                                assert(self.names()[k.0 as int] == db@);
                            }
                        }
                    }
                }
                r
            },
            None => false,
        }
    }

    /// Takes the pages `pgnos` of `db` out of the index, after their files were removed.
    /// These pages are no longer in the index, and every other page is where it was.
    pub fn del_pages(&mut self, db: &str, pgnos: &Vec<PageNum>)
        requires
            old(self).wf(),
        ensures
            final(self).wf(),
            final(self).names() == old(self).names(),
            final(self).has_room() == old(self).has_room(),
            final(self).min_space() == old(self).min_space(),
            final(self).max_pages() == old(self).max_pages(),
            final(self).limits() == old(self).limits(),
            forall|d: Seq<char>, n: u32|
                final(self).cached(d, n) == (old(self).cached(d, n) && !(d == db@ && listed(
                    pgnos@,
                    n,
                ))),
            final(self).probationary_keys() == match old(self).key_of(db@, 0) {
                Some(k) => without_pages(old(self).probationary_keys(), k.0, pgnos@),
                None => old(self).probationary_keys(),
            },
            final(self).protected_keys() == match old(self).key_of(db@, 0) {
                Some(k) => without_pages(old(self).protected_keys(), k.0, pgnos@),
                None => old(self).protected_keys(),
            },
    {
        let mut i: usize = 0;
        while i < pgnos.len()
            invariant
                i <= pgnos@.len(),
                self.wf(),
                self.names() == old(self).names(),
                self.has_room() == old(self).has_room(),
                self.min_space() == old(self).min_space(),
                self.max_pages() == old(self).max_pages(),
                self.limits() == old(self).limits(),
                forall|d: Seq<char>, n: u32|
                    self.cached(d, n) == (old(self).cached(d, n) && !(d == db@ && listed(
                        pgnos@.take(i as int),
                        n,
                    ))),
                self.probationary_keys() == match old(self).key_of(db@, 0) {
                    Some(k) => without_pages(
                        old(self).probationary_keys(),
                        k.0,
                        pgnos@.take(i as int),
                    ),
                    None => old(self).probationary_keys(),
                },
                self.protected_keys() == match old(self).key_of(db@, 0) {
                    Some(k) => without_pages(old(self).protected_keys(), k.0, pgnos@.take(i as int)),
                    None => old(self).protected_keys(),
                },
            decreases pgnos@.len() - i,
        {
            let ghost mid = *self;
            self.del_page(db, pgnos[i]);
            proof {
                let shorter = pgnos@.take(i as int);
                let longer = pgnos@.take(i + 1);
                assert(longer.drop_last() =~= shorter);
                assert(longer.last() == pgnos@[i as int]);
                assert forall|n: u32| listed(longer, n) <==> listed(shorter, n) || n
                    == pgnos@[i as int]@ by {
                    if listed(longer, n) {
                        let j = choose|j: int| 0 <= j < longer.len() && (#[trigger] longer[j])@ == n;
                        if j < i {
                            assert(shorter[j]@ == n);
                        }
                    }
                    if listed(shorter, n) {
                        let j = choose|j: int|
                            0 <= j < shorter.len() && (#[trigger] shorter[j])@ == n;
                        assert(longer[j]@ == n);
                    }
                    if n == pgnos@[i as int]@ {
                        assert(longer[i as int]@ == n);
                    }
                }
                assert(mid.key_of(db@, pgnos@[i as int]@) == match old(self).key_of(db@, 0) {
                    Some(k) => Some((k.0, pgnos@[i as int]@)),
                    None => None,
                });
            }
            i += 1;
        }
        proof {
            assert(pgnos@.take(i as int) =~= pgnos@);
        }
    }

    /// Decides what to do before a page is stored, given the space that the file system has
    /// free. As long as the index holds more pages than the limit allows, or the free space
    /// is below what is to be kept, the page that was used least recently leaves the index
    /// and is handed out; an empty index has nothing to give.
    pub fn reclaim_space(&mut self, available_space: u64) -> (r: Reclaim)
        requires
            old(self).wf(),
        ensures
            final(self).wf(),
            final(self).names() == old(self).names(),
            final(self).has_room() == old(self).has_room(),
            final(self).min_space() == old(self).min_space(),
            final(self).max_pages() == old(self).max_pages(),
            final(self).limits() == old(self).limits(),
            r is Done <==> (old(self).count() == 0 || (available_space >= old(self).min_space() && (
            old(self).count() <= old(self).max_pages() || old(self).max_pages() == 0))),
            r is Done ==> final(self).keys() == old(self).keys() && final(self).count() == old(
                self,
            ).count() && final(self).probationary_keys() == old(self).probationary_keys()
                && final(self).protected_keys() == old(self).protected_keys(),
            r is Done ==> forall|d: Seq<char>, n: u32|
                final(self).cached(d, n) == old(self).cached(d, n),
            r matches Reclaim::Evicted { db, pgno } ==> {
                &&& old(self).oldest() == Some((db@, pgno@))
                &&& old(self).cached(db@, pgno@)
                &&& !final(self).cached(db@, pgno@)
                &&& final(self).count() == old(self).count() - 1
                &&& final(self).keys() == old(self).keys().drop_first()
                &&& old(self).probationary_keys().len() > 0 ==> final(self).probationary_keys()
                    == old(self).probationary_keys().drop_first() && final(self).protected_keys()
                    == old(self).protected_keys()
                &&& old(self).probationary_keys().len() == 0 ==> final(self).probationary_keys()
                    == old(self).probationary_keys() && final(self).protected_keys() == old(
                    self,
                ).protected_keys().drop_first()
                &&& forall|d: Seq<char>, n: u32|
                    !(d == db@ && n == pgno@) ==> final(self).cached(d, n) == old(self).cached(
                        d,
                        n,
                    )
            },
    {
        let pages = lru_len(&self.lru);
        if pages == 0 || available_space >= self.min_available_space && (pages
            <= self.max_cached_pages || self.max_cached_pages == 0) {
            return Reclaim::Done;
        }
        let ghost prob = probationary(self.lru);
        let ghost prot = protected(self.lru);
        let ghost before = self.keys();
        let k = match lru_remove_lru_from_probationary(&mut self.lru) {
            Some(k) => k,
            None => {
                assert(before =~= prot);
                lru_remove_lru_from_protected(&mut self.lru).unwrap()
            },
        };
        proof {
            let after = self.keys();
            assert(k == before[0]);
            assert(after =~= before.drop_first());
            lemma_push_drop(before, k);
            assert forall|i: int| 0 <= i < after.len() implies (#[trigger] after[i]).0
                < self.names().len() && after[i].1 >= 1 by {
                assert(after[i] == before[i + 1]);
            }
            assert(before[0].0 < self.names().len());
            lemma_id_of(self.names(), k.0 as int);
        }
        let db = interner_resolve(&self.interner, k.0 as usize).unwrap();
        let pgno = PageNum::new(k.1).unwrap();
        proof {
            assert forall|d: Seq<char>, n: u32| !(d == db@ && n == pgno@) implies self.cached(d, n)
                == old(self).cached(d, n) by {
                if id_of(self.names(), d) is Some {
                    let idd = id_of(self.names(), d)->0;
                    if (idd as u32, n) == k {
                        assert(self.names()[idd] == d);
                    }
                }
            }
        }
        Reclaim::Evicted { db, pgno }
    }
}

/// Whether the page `n` is one of `pgnos`.
pub open spec fn listed(pgnos: Seq<PageNum>, n: u32) -> bool {
    exists|i: int| 0 <= i < pgnos.len() && (#[trigger] pgnos[i])@ == n
}

/// `keys` without the pages `pgnos` of the database with the id `id`.
pub open spec fn without_pages(keys: Seq<PageKey>, id: u32, pgnos: Seq<PageNum>) -> Seq<PageKey>
    decreases pgnos.len(),
{
    if pgnos.len() == 0 {
        keys
    } else {
        without(without_pages(keys, id, pgnos.drop_last()), (id, pgnos.last()@))
    }
}

/// Where to get a page from.
#[derive(Debug)]
pub enum Fetch {
    /// The local cache has it.
    Local,
    /// The remote store is to be asked for the pages `pgnos` at the position `pos`; the
    /// first of them is the page that is wanted.
    Remote { pos: Pos, pgnos: Vec<PageNum> },
}

/// What a read comes to once the local cache has been tried, with the outcome `local`.
/// A page that was found is read from there. A failure other than a miss stands. After a
/// miss, a read that must not go to the remote store would block, a database without a
/// position has no such page, which is reported as the end of the file, and any other read
/// goes to the store.
pub open spec fn page_fetch(local: Result<(), ErrorKind>, local_only: bool, pos: Option<Pos>) -> Result<
    Option<Pos>,
    ErrorKind,
> {
    match local {
        Ok(()) => Ok(None),
        Err(e) => if e != ErrorKind::NotFound {
            Err(e)
        } else if local_only {
            Err(ErrorKind::WouldBlock)
        } else if pos is None {
            Err(ErrorKind::UnexpectedEof)
        } else {
            Ok(pos)
        },
    }
}

/// The keys of the index after a read of the page `pgno` of `db` has tried the cache: a
/// page that was found there and that the index holds counts as used just now, and nothing
/// changes otherwise.
pub open spec fn read_from_cache(pager: Pager, db: Seq<char>, pgno: u32, found: bool) -> (
    Seq<PageKey>,
    Seq<PageKey>,
) {
    if found && pager.cached(db, pgno) {
        (
            used_probationary(
                pager.probationary_keys(),
                pager.protected_keys(),
                pager.limits().0,
                pager.limits().1,
                pager.key_of(db, pgno)->0,
            ),
            used_protected(
                pager.probationary_keys(),
                pager.protected_keys(),
                pager.limits().1,
                pager.key_of(db, pgno)->0,
            ),
        )
    } else {
        (pager.probationary_keys(), pager.protected_keys())
    }
}

/// The last of `pages` that has the number `pgno`, if any has.
pub open spec fn last_numbered(pages: Seq<Page>, pgno: u32) -> Option<int>
    decreases pages.len(),
{
    if pages.len() == 0 {
        None
    } else if pages.last().number_spec() == pgno {
        Some(pages.len() - 1)
    } else {
        last_numbered(pages.drop_last(), pgno)
    }
}

impl Pager {
    /// Decides where a read of a part of the page `pgno` of `db` gets the page from, once
    /// the local cache has been tried with the outcome `local`. A page that was found counts
    /// as used just now. `local_only` forbids the remote store, `pos` is the database's
    /// position, and `prefetch` names pages to ask for along with the page.
    pub fn get_page_slice(
        &mut self,
        db: &str,
        pos: Option<Pos>,
        pgno: PageNum,
        local: Result<(), ErrorKind>,
        local_only: bool,
        prefetch: Option<&Vec<PageNum>>,
    ) -> (r: Result<Fetch, ErrorKind>)
        requires
            old(self).wf(),
        ensures
            final(self).wf(),
            final(self).names() == old(self).names(),
            final(self).has_room() == old(self).has_room(),
            final(self).count() == old(self).count(),
            final(self).min_space() == old(self).min_space(),
            final(self).max_pages() == old(self).max_pages(),
            forall|d: Seq<char>, n: u32| final(self).cached(d, n) == old(self).cached(d, n),
            final(self).limits() == old(self).limits(),
            (final(self).probationary_keys(), final(self).protected_keys()) == read_from_cache(
                *old(self),
                db@,
                pgno@,
                local is Ok,
            ),
            match page_fetch(local, local_only, pos) {
                Ok(None) => r matches Ok(Fetch::Local),
                Ok(Some(p)) => r matches Ok(Fetch::Remote { pos: at, pgnos }) && at == p && pgnos@
                    == seq![pgno] + match prefetch {
                    Some(more) => more@,
                    None => Seq::empty(),
                },
                Err(e) => r matches Err(x) && x == e,
            },
    {
        match local {
            Ok(()) => {
                self.touch(db, pgno);
                return Ok(Fetch::Local);
            },
            Err(e) => {
                if e != ErrorKind::NotFound {
                    return Err(e);
                }
            },
        }
        if local_only {
            return Err(ErrorKind::WouldBlock);
        }
        match Pager::get_page_remote(pos, pgno, prefetch) {
            Ok((pos, pgnos)) => Ok(Fetch::Remote { pos, pgnos }),
            Err(_) => Err(ErrorKind::UnexpectedEof),
        }
    }

    /// Decides where a read of the whole page `pgno` of `db` gets the page from, once the
    /// local cache has been tried with the outcome `local`.
    pub fn get_page(
        &mut self,
        db: &str,
        pos: Option<Pos>,
        pgno: PageNum,
        local: Result<(), ErrorKind>,
        prefetch: Option<&Vec<PageNum>>,
    ) -> (r: Result<Fetch, ErrorKind>)
        requires
            old(self).wf(),
        ensures
            final(self).wf(),
            final(self).names() == old(self).names(),
            final(self).has_room() == old(self).has_room(),
            final(self).count() == old(self).count(),
            final(self).min_space() == old(self).min_space(),
            final(self).max_pages() == old(self).max_pages(),
            forall|d: Seq<char>, n: u32| final(self).cached(d, n) == old(self).cached(d, n),
            final(self).limits() == old(self).limits(),
            (final(self).probationary_keys(), final(self).protected_keys()) == read_from_cache(
                *old(self),
                db@,
                pgno@,
                local is Ok,
            ),
            match page_fetch(local, false, pos) {
                Ok(None) => r matches Ok(Fetch::Local),
                Ok(Some(p)) => r matches Ok(Fetch::Remote { pos: at, pgnos }) && at == p && pgnos@
                    == seq![pgno] + match prefetch {
                    Some(more) => more@,
                    None => Seq::empty(),
                },
                Err(e) => r matches Err(x) && x == e,
            },
    {
        self.get_page_slice(db, pos, pgno, local, false, prefetch)
    }

    /// What to ask the remote store for when the page `pgno` is wanted: the page and the
    /// pages to fetch along with it, at the position of the database. A database without a
    /// position has no pages at the store.
    pub fn get_page_remote(pos: Option<Pos>, pgno: PageNum, prefetch: Option<&Vec<PageNum>>) -> (r:
        Result<(Pos, Vec<PageNum>), ErrorKind>)
        ensures
            match pos {
                None => r matches Err(e) && e == ErrorKind::NotFound,
                Some(p) => r matches Ok(asked) && asked.0 == p && asked.1@ == seq![pgno] + match prefetch {
                    Some(more) => more@,
                    None => Seq::empty(),
                },
            },
    {
        let pos = match pos {
            Some(pos) => pos,
            None => return Err(ErrorKind::NotFound),
        };
        let mut pages: Vec<PageNum> = Vec::new();
        pages.push(pgno);
        match prefetch {
            Some(pgnos) => {
                let mut i: usize = 0;
                while i < pgnos.len()
                    invariant
                        i <= pgnos@.len(),
                        pages@ == seq![pgno] + pgnos@.take(i as int),
                    decreases pgnos@.len() - i,
                {
                    pages.push(pgnos[i]);
                    proof {
                        assert(pgnos@.take(i + 1) =~= pgnos@.take(i as int).push(pgnos@[i as int]));
                        assert(pages@ =~= seq![pgno] + pgnos@.take(i + 1));
                    }
                    i += 1;
                }
                proof {
                    assert(pgnos@.take(i as int) =~= pgnos@);
                }
            },
            None => {
                proof {
                    assert(pages@ =~= seq![pgno] + Seq::<PageNum>::empty());
                }
            },
        }
        Ok((pos, pages))
    }

    /// What a failed request for pages is reported as: a mismatch of positions goes to the
    /// engine under its own code, and a page that the store does not have is reported as the
    /// end of the file.
    pub fn fetch_error(err: &crate::lfsc::Error) -> (r: ErrorKind)
        ensures
            r == match *err {
                crate::lfsc::Error::PosMismatch(_) => ErrorKind::PosMismatch,
                _ => if err.kind_spec() == ErrorKind::NotFound {
                    ErrorKind::UnexpectedEof
                } else {
                    err.kind_spec()
                },
            },
    {
        match err {
            crate::lfsc::Error::PosMismatch(_) => ErrorKind::PosMismatch,
            _ => {
                let kind = err.kind();
                if kind == ErrorKind::NotFound {
                    ErrorKind::UnexpectedEof
                } else {
                    kind
                }
            },
        }
    }

    /// The page `pgno` among the pages that the store has sent: the last one with that
    /// number. Where the store has not sent it, the read ends with the end of the file.
    pub fn requested_page(pages: Vec<Page>, pgno: PageNum) -> (r: Result<Page, ErrorKind>)
        ensures
            match last_numbered(pages@, pgno@) {
                Some(i) => r matches Ok(p) && p == pages@[i],
                None => r matches Err(e) && e == ErrorKind::UnexpectedEof,
            },
    {
        let mut rest = pages;
        while rest.len() > 0
            invariant
                last_numbered(pages@, pgno@) == last_numbered(rest@, pgno@),
                rest@.len() <= pages@.len(),
                forall|i: int| 0 <= i < rest@.len() ==> rest@[i] == pages@[i],
            decreases rest@.len(),
        {
            let ghost before = rest@;
            let page = rest.pop().unwrap();
            proof {
                assert(rest@ =~= before.drop_last());
            }
            if page.number().into_inner() == pgno.into_inner() {
                proof {
                    assert(before.last() == page);
                    assert(last_numbered(before, pgno@) == Some(before.len() - 1));
                    assert(pages@[before.len() - 1] == before[before.len() - 1]);
                }
                return Ok(page);
            }
        }
        Err(ErrorKind::UnexpectedEof)
    }

    /// Copies the part of `page` that starts at `offset` into `buf`, as much as `buf`
    /// holds. A page that ends before `buf` is full is reported as the end of the file, and
    /// `buf` is left as it was.
    pub fn copy_slice(page: &Page, offset: u64, buf: &mut Vec<u8>) -> (r: Result<(), ErrorKind>)
        ensures
            offset + old(buf)@.len() <= page.data_spec().len() ==> r is Ok && final(buf)@
                == page.data_spec().subrange(offset as int, offset + old(buf)@.len()),
            offset + old(buf)@.len() > page.data_spec().len() ==> r == Err::<(), ErrorKind>(
                ErrorKind::UnexpectedEof,
            ) && final(buf)@ == old(buf)@,
    {
        let data = page.as_ref();
        let len = buf.len();
        if offset > data.len() as u64 || len > data.len() - offset as usize {
            return Err(ErrorKind::UnexpectedEof);
        }
        let start = offset as usize;
        let mut i: usize = 0;
        while i < len
            invariant
                i <= len,
                len == buf@.len(),
                start + len <= data@.len(),
                data@.len() <= usize::MAX,
                forall|k: int| 0 <= k < i ==> buf@[k] == data@[start + k],
            decreases len - i,
        {
            buf.set(i, data[start + i]);
            i += 1;
        }
        proof {
            assert(buf@ =~= data@.subrange(start as int, start + len));
        }
        Ok(())
    }
}

/// Whether the bytes `a` come behind the bytes `b` in the order of a dictionary.
pub open spec fn comes_behind(a: Seq<u8>, b: Seq<u8>) -> bool
    decreases a.len(),
{
    if a.len() == 0 {
        false
    } else if b.len() == 0 {
        true
    } else if a[0] != b[0] {
        a[0] > b[0]
    } else {
        comes_behind(a.drop_first(), b.drop_first())
    }
}

/// Whether the bytes `a` come behind the bytes `b` in the order of a dictionary.
pub fn bytes_come_behind(a: &[u8], b: &[u8]) -> (r: bool)
    ensures
        r == comes_behind(a@, b@),
{
    let mut i: usize = 0;
    proof {
        assert(a@.skip(0) =~= a@);
        assert(b@.skip(0) =~= b@);
    }
    while i < a.len() && i < b.len()
        invariant
            i <= a@.len(),
            i <= b@.len(),
            comes_behind(a@, b@) == comes_behind(a@.skip(i as int), b@.skip(i as int)),
        decreases a@.len() - i,
    {
        proof {
            assert(a@.skip(i as int)[0] == a@[i as int]);
            assert(b@.skip(i as int)[0] == b@[i as int]);
            assert(a@.skip(i as int).drop_first() =~= a@.skip(i + 1));
            assert(b@.skip(i as int).drop_first() =~= b@.skip(i + 1));
        }
        if a[i] != b[i] {
            return a[i] > b[i];
        }
        i += 1;
    }
    proof {
        assert(a@.skip(i as int).len() == a@.len() - i);
        assert(b@.skip(i as int).len() == b@.len() - i);
    }
    i < a.len()
}

impl Pager {
    /// The name of the file that holds the cached page `pgno`: the number in eight
    /// hexadecimal digits.
    pub fn page_file_name(pgno: PageNum) -> (r: String)
        ensures
            r@ == hex_text(pgno@ as int, 8),
    {
        to_hex(pgno.into_inner() as u64, 8)
    }

    /// The page that the cache file `name` holds. A file whose name is no page number
    /// does not belong in the cache.
    pub fn page_of_file(name: &str) -> (r: Result<PageNum, ErrorKind>)
        ensures
            match number(name@, 16, u32::MAX as int) {
                Some(n) if n != 0 => r matches Ok(p) && p@ == n,
                _ => r matches Err(e) && e == ErrorKind::InvalidInput,
            },
    {
        match parse_number(name, true) {
            Some(n) => {
                if n > u32::MAX as u64 {
                    return Err(ErrorKind::InvalidInput);
                }
                match PageNum::new(n as u32) {
                    Some(p) => Ok(p),
                    None => Err(ErrorKind::InvalidInput),
                }
            },
            None => Err(ErrorKind::InvalidInput),
        }
    }

    /// Whether the cache file `name` goes when the database is cut behind the page
    /// `pgno`: its name comes behind the name of that page's file.
    pub fn truncates(name: &str, pgno: PageNum) -> (r: bool)
        ensures
            r == comes_behind(
                name.spec_bytes(),
                vstd::utf8::encode_utf8(hex_text(pgno@ as int, 8)),
            ),
    {
        let last = Pager::page_file_name(pgno);
        bytes_come_behind(name.as_bytes(), last.as_str().as_bytes())
    }
}

} // verus!
