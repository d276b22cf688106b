//! Page numbers, page sizes, transaction ids, checksums and positions.

use vstd::prelude::*;

verus! {

/// The bit that every checksum carries, so that a checksum is never zero.
pub const CHECKSUM_FLAG: u64 = 0x8000_0000_0000_0000;

/// First byte of the region that the engine reserves for its file locks.
pub const PENDING_BYTE: u32 = 0x4000_0000;

/// The page sizes that the engine knows.
pub open spec fn is_page_size(s: u32) -> bool {
    s == 512 || s == 1024 || s == 2048 || s == 4096 || s == 8192 || s == 16384 || s == 32768 || s
        == 65536
}

/// The number of the page that covers the lock region of a database with pages of `page_size`
/// bytes.
pub open spec fn lock_page_of(page_size: u32) -> u32 {
    (PENDING_BYTE / page_size + 1) as u32
}

/// `s` with the checksum flag set.
pub open spec fn flagged(s: u64) -> u64 {
    s | CHECKSUM_FLAG
}

/// A database page number: 1-based, never zero.
#[derive(Clone, Copy, Debug, PartialEq, Eq, Structural)]
pub struct PageNum(u32);

impl View for PageNum {
    type V = u32;

    closed spec fn view(&self) -> u32 {
        self.0
    }
}

impl PageNum {
    #[verifier::type_invariant]
    spec fn inv(self) -> bool {
        self.0 >= 1
    }

    /// Page 1, which holds the database header.
    pub fn one() -> (r: PageNum)
        ensures
            r@ == 1,
    {
        PageNum(1)
    }

    /// Wraps `n`; zero is no page number.
    pub fn new(n: u32) -> (r: Option<PageNum>)
        ensures
            n == 0 ==> r is None,
            n != 0 ==> r is Some && r->0@ == n,
    {
        if n == 0 {
            None
        } else {
            Some(PageNum(n))
        }
    }

    /// The number itself.
    pub fn into_inner(&self) -> (n: u32)
        ensures
            n == self@,
            n >= 1,
    {
        proof {
            use_type_invariant(self);
        }
        self.0
    }

    /// The page that covers the engine's lock region; it is never stored or shipped.
    pub fn lock_page(page_size: PageSize) -> (r: PageNum)
        ensures
            r@ == lock_page_of(page_size@),
    {
        let s = page_size.into_inner();
        PageNum(PENDING_BYTE / s + 1)
    }

}

/// The page number with the value `n`.
pub closed spec fn page_num_of(n: u32) -> PageNum {
    PageNum(n)
}

/// A page number is the page number of its value.
pub broadcast proof fn lemma_page_num_of(p: PageNum)
    ensures
        #[trigger] page_num_of(p@) == p,
{
}

/// A database page size in bytes: a power of two from 512 to 65536.
#[derive(Clone, Copy, Debug, PartialEq, Eq, Structural)]
pub struct PageSize(u32);

impl View for PageSize {
    type V = u32;

    closed spec fn view(&self) -> u32 {
        self.0
    }
}

impl PageSize {
    #[verifier::type_invariant]
    spec fn inv(self) -> bool {
        is_page_size(self.0)
    }

    /// Wraps `s` if it is one of the eight page sizes.
    pub fn new(s: u32) -> (r: Option<PageSize>)
        ensures
            r is Some <==> is_page_size(s),
            r is Some ==> r->0@ == s,
    {
        if s == 512 || s == 1024 || s == 2048 || s == 4096 || s == 8192 || s == 16384 || s
            == 32768 || s == 65536 {
            Some(PageSize(s))
        } else {
            None
        }
    }

    /// The size in bytes.
    pub fn into_inner(&self) -> (s: u32)
        ensures
            s == self@,
            is_page_size(s),
    {
        proof {
            use_type_invariant(self);
        }
        self.0
    }

}

/// The id of a database transaction; zero stands for "none" and is no id.
#[derive(Clone, Copy, Debug, PartialEq, Eq, Structural)]
pub struct TXID(u64);

impl View for TXID {
    type V = u64;

    closed spec fn view(&self) -> u64 {
        self.0
    }
}

impl TXID {
    #[verifier::type_invariant]
    spec fn inv(self) -> bool {
        self.0 >= 1
    }

    /// The id of the first transaction of a database.
    pub fn one() -> (r: TXID)
        ensures
            r@ == 1,
    {
        TXID(1)
    }

    /// Wraps `id`; zero is no transaction id.
    pub fn new(id: u64) -> (r: Option<TXID>)
        ensures
            id == 0 ==> r is None,
            id != 0 ==> r is Some && r->0@ == id,
    {
        if id == 0 {
            None
        } else {
            Some(TXID(id))
        }
    }

    /// The id itself.
    pub fn into_inner(&self) -> (id: u64)
        ensures
            id == self@,
            id >= 1,
    {
        proof {
            use_type_invariant(self);
        }
        self.0
    }

    /// The id that follows this one, unless this is the last one that 64 bits hold.
    pub fn next(&self) -> (r: Option<TXID>)
        ensures
            self@ == u64::MAX ==> r is None,
            self@ < u64::MAX ==> r is Some && r->0@ == self@ + 1,
    {
        if self.0 == u64::MAX {
            None
        } else {
            Some(TXID(self.0 + 1))
        }
    }

}

/// A database checksum: 64 bits of which the highest is always set.
#[derive(Clone, Copy, Debug, PartialEq, Eq, Structural)]
pub struct Checksum(u64);

impl View for Checksum {
    type V = u64;

    closed spec fn view(&self) -> u64 {
        self.0
    }
}

impl Checksum {
    #[verifier::type_invariant]
    spec fn inv(self) -> bool {
        self.0 == flagged(self.0)
    }

    /// The checksum that holds `s`, with the flag set.
    pub fn new(s: u64) -> (r: Checksum)
        ensures
            r@ == flagged(s),
    {
        assert((s | 0x8000_0000_0000_0000u64) | 0x8000_0000_0000_0000u64 == s
            | 0x8000_0000_0000_0000u64) by (bit_vector);
        Checksum(s | CHECKSUM_FLAG)
    }

    /// The checksum's 64 bits.
    pub fn into_inner(&self) -> (s: u64)
        ensures
            s == self@,
            s == flagged(s),
    {
        proof {
            use_type_invariant(self);
        }
        self.0
    }

}

/// A position: the last transaction applied to a database and the database's checksum after
/// it. A database without a position is empty.
#[derive(Clone, Copy, Debug, PartialEq, Eq, Structural)]
pub struct Pos {
    pub txid: TXID,
    pub post_apply_checksum: Checksum,
}

/// The transaction id of an optional position, zero where there is none.
pub open spec fn txid_of(pos: Option<Pos>) -> u64 {
    match pos {
        Some(p) => p.txid@,
        None => 0,
    }
}

/// The checksum of an optional position, zero where there is none.
pub open spec fn checksum_of(pos: Option<Pos>) -> u64 {
    match pos {
        Some(p) => p.post_apply_checksum@,
        None => 0,
    }
}

} // verus!
