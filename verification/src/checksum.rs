//! Why the running checksum of a database is right: the checksum that a commit computes
//! from the pages it has written is the checksum of the whole database after the commit.

use crate::database::{commit_sum, dirty_ascending, has_number};
use crate::ltx::page_checksum;
use crate::pager::Page;
use crate::types::flagged;
use vstd::prelude::*;

verus! {

/// The checksum of a page with the content `data` and the number `pgno`, as it enters the
/// checksum of the database.
pub open spec fn page_sum(data: Seq<u8>, pgno: u32) -> u64 {
    flagged(page_checksum(data, pgno))
}

/// The checksum of a database of `size` pages with the content `content`, but for its
/// flag: the checksums of all pages, the lock page `lock` left out, combined by XOR.
pub open spec fn database_sum(content: spec_fn(u32) -> Seq<u8>, size: nat, lock: u32) -> u64
    decreases size,
{
    if size == 0 {
        0
    } else {
        let rest = database_sum(content, (size - 1) as nat, lock);
        if size == lock {
            rest
        } else {
            rest ^ page_sum(content(size as u32), size as u32)
        }
    }
}

/// What the pages written `entries`, which now hold `pages`, change in the checksum of the
/// first `k` pages: for each of them the earlier checksum goes and the new one comes.
pub open spec fn change_sum(entries: Seq<(u32, Option<u64>)>, pages: Seq<Page>, k: nat) -> u64
    decreases k,
{
    if k == 0 {
        0
    } else {
        let rest = change_sum(entries, pages, (k - 1) as nat);
        if has_number(entries, k as u32) {
            let j = entry_of(entries, k as u32);
            changed(rest, entries[j].1, pages[j])
        } else {
            rest
        }
    }
}

/// The place of the page `n` among the pages written.
pub open spec fn entry_of(entries: Seq<(u32, Option<u64>)>, n: u32) -> int {
    choose|j: int| 0 <= j < entries.len() && (#[trigger] entries[j]).0 == n
}

/// The checksum `sum` after a page whose checksum was `prev` has become `page`.
pub open spec fn changed(sum: u64, prev: Option<u64>, page: Page) -> u64 {
    (match prev {
        Some(p) => sum ^ p,
        None => sum,
    }) ^ page_sum(page.data_spec(), page.number_spec())
}

/// Whether the pages written `entries` with the new content `pages` account for the change
/// of a database from `size0` pages with the content `content0` to `size1` pages with the
/// content `content1`: each page written holds its new content and has the checksum of its
/// earlier content beside it, if it existed; the lock page is not written; and every other
/// page existed before and is as it was.
pub open spec fn accounts_for(
    entries: Seq<(u32, Option<u64>)>,
    pages: Seq<Page>,
    content0: spec_fn(u32) -> Seq<u8>,
    size0: nat,
    content1: spec_fn(u32) -> Seq<u8>,
    size1: nat,
    lock: u32,
) -> bool {
    &&& dirty_ascending(entries)
    &&& pages.len() == entries.len()
    &&& size0 <= size1 <= u32::MAX
    &&& forall|j: int|
        0 <= j < entries.len() ==> {
            &&& (#[trigger] entries[j]).0 <= size1
            &&& entries[j].0 != lock
            &&& pages[j].number_spec() == entries[j].0
            &&& pages[j].data_spec() == content1(entries[j].0)
            &&& entries[j].1 == if entries[j].0 <= size0 {
                Some(page_sum(content0(entries[j].0), entries[j].0))
            } else {
                None
            }
        }
    &&& forall|n: u32|
        1 <= n <= size1 && n != lock && !#[trigger] has_number(entries, n) ==> n <= size0
            && content1(n) == content0(n)
}

/// Among pages in ascending order, a page's place is the one place where it stands.
pub proof fn lemma_entry_of(entries: Seq<(u32, Option<u64>)>, j: int)
    requires
        dirty_ascending(entries),
        0 <= j < entries.len(),
    ensures
        has_number(entries, entries[j].0),
        entry_of(entries, entries[j].0) == j,
{
    let n = entries[j].0;
    let k = entry_of(entries, n);
    assert(entries[k].0 == n);
    if k < j {
        assert(entries[k].0 < entries[j].0);
    }
    if j < k {
        assert(entries[j].0 < entries[k].0);
    }
}

/// Pages behind the last page written change nothing.
pub proof fn lemma_change_sum_beyond(
    entries: Seq<(u32, Option<u64>)>,
    pages: Seq<Page>,
    m: nat,
    k: nat,
)
    requires
        m <= k <= u32::MAX,
        forall|j: int| 0 <= j < entries.len() ==> (#[trigger] entries[j]).0 <= m,
    ensures
        change_sum(entries, pages, k) == change_sum(entries, pages, m),
    decreases k,
{
    if k > m {
        lemma_change_sum_beyond(entries, pages, m, (k - 1) as nat);
        if has_number(entries, k as u32) {
            let j = entry_of(entries, k as u32);
            assert(entries[j].0 <= m);
        }
    }
}

/// Without the last page written, the pages before it change what they did.
pub proof fn lemma_change_sum_shorter(entries: Seq<(u32, Option<u64>)>, pages: Seq<Page>, k: nat)
    requires
        dirty_ascending(entries),
        pages.len() == entries.len(),
        entries.len() > 0,
        k < entries.last().0,
    ensures
        change_sum(entries, pages, k) == change_sum(entries.drop_last(), pages.drop_last(), k),
    decreases k,
{
    if k > 0 {
        lemma_change_sum_shorter(entries, pages, (k - 1) as nat);
        let shorter = entries.drop_last();
        crate::database::lemma_ascending_shorter(entries);
        if has_number(entries, k as u32) {
            let j = entry_of(entries, k as u32);
            assert(j < entries.len() - 1);
            assert(shorter[j] == entries[j]);
            lemma_entry_of(shorter, j);
            assert(pages.drop_last()[j] == pages[j]);
        } else if has_number(shorter, k as u32) {
            let j = entry_of(shorter, k as u32);
            assert(entries[j] == shorter[j]);
        }
    }
}

/// Taken page by page or entry by entry, the pages written change the same.
pub proof fn lemma_change_sum(entries: Seq<(u32, Option<u64>)>, pages: Seq<Page>, k: nat)
    requires
        dirty_ascending(entries),
        pages.len() == entries.len(),
        k <= u32::MAX,
        forall|j: int| 0 <= j < entries.len() ==> (#[trigger] entries[j]).0 <= k,
    ensures
        change_sum(entries, pages, k) == commit_sum(0, entries, pages),
    decreases entries.len(),
{
    if entries.len() == 0 {
        lemma_change_sum_beyond(entries, pages, 0, k);
    } else {
        let shorter = entries.drop_last();
        let fewer = pages.drop_last();
        let last = entries.len() - 1;
        let m = entries.last().0 as nat;
        assert(entries[last].0 <= k);
        assert(entries[last].0 >= 1);
        crate::database::lemma_ascending_shorter(entries);
        lemma_change_sum_beyond(entries, pages, m, k);
        lemma_entry_of(entries, last);
        lemma_change_sum_shorter(entries, pages, (m - 1) as nat);
        assert forall|j: int| 0 <= j < shorter.len() implies (#[trigger] shorter[j]).0 <= m
            - 1 by {
            assert(entries[j].0 < entries[last].0);
        }
        lemma_change_sum(shorter, fewer, (m - 1) as nat);
        assert(change_sum(entries, pages, m) == changed(
            change_sum(entries, pages, (m - 1) as nat),
            entries[last].1,
            pages[last],
        ));
    }
}

/// The checksum before a commit enters the checksum after it by XOR.
pub proof fn lemma_commit_sum_start(start: u64, entries: Seq<(u32, Option<u64>)>, pages: Seq<Page>)
    requires
        pages.len() == entries.len(),
    ensures
        commit_sum(start, entries, pages) == start ^ commit_sum(0, entries, pages),
    decreases entries.len(),
{
    if entries.len() == 0 {
        assert(start ^ 0 == start) by (bit_vector);
    } else {
        lemma_commit_sum_start(start, entries.drop_last(), pages.drop_last());
        let b = commit_sum(0, entries.drop_last(), pages.drop_last());
        let n = page_sum(pages.last().data_spec(), pages.last().number_spec());
        match entries.last().1 {
            Some(p) => {
                assert(((start ^ b) ^ p) ^ n == start ^ ((b ^ p) ^ n)) by (bit_vector);
            },
            None => {
                assert((start ^ b) ^ n == start ^ (b ^ n)) by (bit_vector);
            },
        }
    }
}

/// Page by page, the checksum of the database after a commit is that of the database
/// before it, changed by what the pages written change.
pub proof fn lemma_database_sum_step(
    entries: Seq<(u32, Option<u64>)>,
    pages: Seq<Page>,
    content0: spec_fn(u32) -> Seq<u8>,
    size0: nat,
    content1: spec_fn(u32) -> Seq<u8>,
    size1: nat,
    lock: u32,
    k: nat,
)
    requires
        accounts_for(entries, pages, content0, size0, content1, size1, lock),
        k <= size1,
    ensures
        database_sum(content1, k, lock) == database_sum(
            content0,
            if k <= size0 {
                k
            } else {
                size0
            },
            lock,
        ) ^ change_sum(entries, pages, k),
    decreases k,
{
    if k == 0 {
        assert(0u64 ^ 0u64 == 0u64) by (bit_vector);
    } else {
        lemma_database_sum_step(
            entries,
            pages,
            content0,
            size0,
            content1,
            size1,
            lock,
            (k - 1) as nat,
        );
        let n = k as u32;
        let d = database_sum(content1, (k - 1) as nat, lock);
        let z = database_sum(
            content0,
            if k - 1 <= size0 {
                (k - 1) as nat
            } else {
                size0
            },
            lock,
        );
        let e = change_sum(entries, pages, (k - 1) as nat);
        let h1 = page_sum(content1(n), n);
        let h0 = page_sum(content0(n), n);
        if has_number(entries, n) {
            let j = entry_of(entries, n);
            assert(entries[j].0 == n);
            if k <= size0 {
                assert((z ^ e) ^ h1 == (z ^ h0) ^ ((e ^ h0) ^ h1)) by (bit_vector);
            } else {
                assert((z ^ e) ^ h1 == z ^ (e ^ h1)) by (bit_vector);
            }
        } else if n != lock {
            assert((z ^ e) ^ h0 == (z ^ h0) ^ e) by (bit_vector);
        }
    }
}

/// The checksum that a commit computes is the checksum of the database that it leaves.
/// Let a database of `size0` pages with the content `content0` have a position whose
/// checksum `start` is that of the database, or let it be empty and `start` be zero. Let a
/// transaction bring it to `size1` pages with the content `content1`, and let the pages
/// written account for the change. Then the checksum that the commit puts into the new
/// position, the old one with each written page's earlier checksum taken out and its new
/// one put in, is the checksum of the new database. So from the empty database on, whatever
/// the commits, the position's checksum is that of all pages of the database.
pub proof fn lemma_commit_checksum(
    start: u64,
    entries: Seq<(u32, Option<u64>)>,
    pages: Seq<Page>,
    content0: spec_fn(u32) -> Seq<u8>,
    size0: nat,
    content1: spec_fn(u32) -> Seq<u8>,
    size1: nat,
    lock: u32,
)
    requires
        accounts_for(entries, pages, content0, size0, content1, size1, lock),
        flagged(start) == flagged(database_sum(content0, size0, lock)),
    ensures
        flagged(commit_sum(start, entries, pages)) == flagged(database_sum(content1, size1, lock)),
{
    lemma_commit_sum_start(start, entries, pages);
    lemma_change_sum(entries, pages, size1);
    lemma_database_sum_step(entries, pages, content0, size0, content1, size1, lock, size1);
    let z = database_sum(content0, size0, lock);
    let e = commit_sum(0, entries, pages);
    assert((start | 0x8000_0000_0000_0000u64) == (z | 0x8000_0000_0000_0000u64) ==> ((start ^ e)
        | 0x8000_0000_0000_0000u64) == ((z ^ e) | 0x8000_0000_0000_0000u64)) by (bit_vector);
}

} // verus!
