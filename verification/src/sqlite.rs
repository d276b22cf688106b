//! What the library reads of the engine's file format: big-endian fields, variable-length
//! integers, and the child pointers of B-tree pages.

use crate::page_set::PageSet;
use crate::types::PageNum;
use vstd::prelude::*;
use vstd::slice::slice_subrange;

verus! {

/// Length of the database header at the start of page 1.
pub const HEADER_SIZE: usize = 100;

/// Offset of the header's write version.
pub const WRITE_VERSION_OFFSET: usize = 18;

/// Offset of the header's read version.
pub const READ_VERSION_OFFSET: usize = 19;

/// Offset of the header's database size in pages.
pub const COMMIT_START: usize = 28;

/// End of the header's database size in pages.
pub const COMMIT_END: usize = 32;

/// The two bytes at `at`, read as a big-endian number.
pub open spec fn be16(data: Seq<u8>, at: int) -> int {
    data[at] * 256 + data[at + 1]
}

/// The four bytes at `at`, read as a big-endian number.
pub open spec fn be32(data: Seq<u8>, at: int) -> int {
    ((data[at] * 256 + data[at + 1]) * 256 + data[at + 2]) * 256 + data[at + 3]
}

/// Reads the big-endian 16-bit number at `at`.
pub fn read_be16(data: &[u8], at: usize) -> (r: u16)
    requires
        at + 2 <= data@.len(),
    ensures
        r == be16(data@, at as int),
{
    let hi: u16 = data[at] as u16;
    let lo: u16 = data[at + 1] as u16;
    hi * 256 + lo
}

/// Reads the big-endian 32-bit number at `at`.
pub fn read_be32(data: &[u8], at: usize) -> (r: u32)
    requires
        at + 4 <= data@.len(),
    ensures
        r == be32(data@, at as int),
{
    let b0: u32 = data[at] as u32;
    let b1: u32 = data[at + 1] as u32;
    let b2: u32 = data[at + 2] as u32;
    let b3: u32 = data[at + 3] as u32;
    ((b0 * 256 + b1) * 256 + b2) * 256 + b3
}

/// The variable-length integer that starts at `at`, once its first `i` bytes have given
/// `acc`: its value as an unsigned 64-bit number and the offset of the byte behind it. Each
/// of the first eight bytes gives seven bits and says in its highest bit whether another
/// follows; a ninth byte gives all of its eight bits. `None` where the data ends first.
pub open spec fn varint_from(data: Seq<u8>, at: int, i: int, acc: int) -> Option<(int, int)>
    decreases 9 - i,
{
    if i < 0 || i >= 9 || at < 0 || at + i >= data.len() {
        None
    } else if i == 8 {
        Some((acc * 256 + data[at + i], at + 9))
    } else if data[at + i] < 128 {
        Some((acc * 128 + data[at + i], at + i + 1))
    } else {
        varint_from(data, at, i + 1, acc * 128 + (data[at + i] - 128))
    }
}

/// The variable-length integer that starts at `at`.
pub open spec fn varint(data: Seq<u8>, at: int) -> Option<(int, int)> {
    varint_from(data, at, 0, 0)
}

/// The signed number with the 64 bits of `v`.
pub open spec fn signed64(v: int) -> int {
    if v >= 0x8000_0000_0000_0000 {
        v - 0x1_0000_0000_0000_0000
    } else {
        v
    }
}

/// What `i` bytes of seven bits each stay below.
pub open spec fn septets(i: int) -> int {
    if i <= 0 {
        1
    } else if i == 1 {
        0x80
    } else if i == 2 {
        0x4000
    } else if i == 3 {
        0x20_0000
    } else if i == 4 {
        0x1000_0000
    } else if i == 5 {
        0x8_0000_0000
    } else if i == 6 {
        0x400_0000_0000
    } else if i == 7 {
        0x2_0000_0000_0000
    } else {
        0x100_0000_0000_0000
    }
}

/// Reads the variable-length integer at `at`: its 64 bits and the offset behind it.
pub fn varint_at(data: &[u8], at: usize) -> (r: Option<(u64, usize)>)
    ensures
        match varint(data@, at as int) {
            Some((v, next)) => {
                &&& r == Some((v as u64, next as usize))
                &&& 0 <= v <= u64::MAX
                &&& at < next <= data@.len()
                &&& next <= at + 9
                &&& next <= usize::MAX
            },
            None => r is None,
        },
{
    if at >= data.len() {
        return None;
    }
    let mut acc: u64 = 0;
    let mut i: usize = 0;
    while i < 8
        invariant
            i <= 8,
            at < data@.len(),
            acc < septets(i as int),
            varint(data@, at as int) == varint_from(data@, at as int, i as int, acc as int),
        decreases 8 - i,
    {
        if i >= data.len() - at {
            return None;
        }
        let b = data[at + i];
        if b < 128 {
            return Some((acc * 128 + b as u64, at + i + 1));
        }
        acc = acc * 128 + (b - 128) as u64;
        i += 1;
    }
    if 8 >= data.len() - at {
        return None;
    }
    let b = data[at + 8];
    Some((acc * 256 + b as u64, at + 9))
}

/// Reads the variable-length integer at the start of `data`: its value as a signed 64-bit
/// number, and the bytes behind it. `None` where `data` ends before the integer does.
pub fn read_varint(data: &[u8]) -> (r: Option<(i64, &[u8])>)
    ensures
        match varint(data@, 0) {
            Some((v, next)) => r matches Some(p) && p.0 == signed64(v) && p.1@
                == data@.subrange(next, data@.len() as int),
            None => r is None,
        },
{
    match varint_at(data, 0) {
        None => None,
        Some((v, next)) => {
            let n: i64 = if v >= 0x8000_0000_0000_0000 {
                (v - 0x8000_0000_0000_0000) as i64 + i64::MIN
            } else {
                v as i64
            };
            Some((n, slice_subrange(data, next, data.len())))
        },
    }
}

/// The number of bytes that a column of serial type `typ` takes in a record: nothing for
/// NULL and the constants 0 and 1, the width of an integer or a float, and half of what is
/// above 12 or 13 for a blob or a text. Types 10 and 11 are reserved and negative ones do not
/// exist: they have no size, nor has one that the machine's addresses cannot hold.
pub open spec fn type_size_spec(typ: int) -> Option<int> {
    if typ < 0 || typ == 10 || typ == 11 {
        None
    } else if typ == 0 || typ == 8 || typ == 9 {
        Some(0)
    } else if typ <= 4 {
        Some(typ)
    } else if typ == 5 {
        Some(6)
    } else if typ == 6 || typ == 7 {
        Some(8)
    } else if typ % 2 == 0 {
        if (typ - 12) / 2 <= usize::MAX {
            Some((typ - 12) / 2)
        } else {
            None
        }
    } else {
        if (typ - 13) / 2 <= usize::MAX {
            Some((typ - 13) / 2)
        } else {
            None
        }
    }
}

/// The number of bytes that a column of serial type `typ` takes in a record.
pub fn type_size(typ: i64) -> (r: Option<usize>)
    ensures
        match type_size_spec(typ as int) {
            Some(n) => r == Some(n as usize),
            None => r is None,
        },
{
    if typ < 0 || typ == 10 || typ == 11 {
        None
    } else if typ == 0 || typ == 8 || typ == 9 {
        Some(0)
    } else if typ <= 4 {
        Some(typ as usize)
    } else if typ == 5 {
        Some(6)
    } else if typ == 6 || typ == 7 {
        Some(8)
    } else {
        let half: i64 = if typ % 2 == 0 {
            (typ - 12) / 2
        } else {
            (typ - 13) / 2
        };
        if half as u64 <= usize::MAX as u64 {
            Some(half as usize)
        } else {
            None
        }
    }
}

/// The child page that the cell at offset `cell` of an interior B-tree page points to: the
/// big-endian number in the cell's first four bytes, unless the cell lies outside the page or
/// the number is zero.
pub open spec fn interior_child(data: Seq<u8>, cell: int) -> Option<u32> {
    if cell + 4 > data.len() || be32(data, cell) == 0 {
        None
    } else {
        Some(be32(data, cell) as u32)
    }
}

/// The sum of the sizes of the three columns whose serial types stand at `at`, and nothing
/// where a type is cut off or has no size or the sum does not fit.
pub open spec fn three_columns(data: Seq<u8>, at: int) -> Option<int> {
    match varint(data, at) {
        Some((t1, a1)) => match varint(data, a1) {
            Some((t2, a2)) => match varint(data, a2) {
                Some((t3, _a3)) => match (
                    type_size_spec(signed64(t1)),
                    type_size_spec(signed64(t2)),
                    type_size_spec(signed64(t3)),
                ) {
                    (Some(s1), Some(s2), Some(s3)) => if s1 + s2 + s3 <= usize::MAX {
                        Some(s1 + s2 + s3)
                    } else {
                        None
                    },
                    _ => None,
                },
                None => None,
            },
            None => None,
        },
        None => None,
    }
}

/// The root page that the cell at offset `cell` of the schema table's leaf page names. The
/// cell holds the payload's length, the row id and a record; the record starts with the
/// length of its own header, followed by the serial types of its columns, and the root page
/// is its fourth column, behind type, name and table name. Nothing where the cell lies
/// outside the page, is cut off, spills to an overflow page or names page zero.
pub open spec fn schema_root(data: Seq<u8>, cell: int) -> Option<u32> {
    if cell >= data.len() || data.len() < 35 {
        None
    } else {
        match varint(data, cell) {
            Some((length, a1)) => match varint(data, a1) {
                Some((_rowid, record)) => if length > data.len() - 35 {
                    None
                } else {
                    match varint(data, record) {
                        Some((hsize, types)) => if hsize > data.len() - record {
                            None
                        } else {
                            match three_columns(data, types) {
                                Some(skip) => if skip > data.len() - record - hsize {
                                    None
                                } else {
                                    match varint(data, record + hsize + skip) {
                                        Some((pgno, _end)) => if pgno % 0x1_0000_0000 == 0 {
                                            None
                                        } else {
                                            Some((pgno % 0x1_0000_0000) as u32)
                                        },
                                        None => None,
                                    }
                                },
                                None => None,
                            }
                        },
                        None => None,
                    }
                },
                None => None,
            },
            None => None,
        }
    }
}

/// The pages that the first `cells` cell pointers at `pointers` lead to on an interior page.
pub open spec fn interior_children(data: Seq<u8>, pointers: int, cells: int) -> Set<u32> {
    Set::new(
        |n: u32|
            exists|k: int|
                0 <= k < cells && #[trigger] interior_child(data, be16(data, pointers + 2 * k))
                    == Some(n),
    )
}

/// The root pages that the first `cells` cell pointers at `pointers` lead to on the schema
/// table's leaf page.
pub open spec fn schema_roots(data: Seq<u8>, pointers: int, cells: int) -> Set<u32> {
    Set::new(
        |n: u32|
            exists|k: int|
                0 <= k < cells && #[trigger] schema_root(data, be16(data, pointers + 2 * k))
                    == Some(n),
    )
}

/// The 64 bits of `v` as a signed number.
fn to_signed(v: u64) -> (r: i64)
    ensures
        r == signed64(v as int),
{
    if v >= 0x8000_0000_0000_0000 {
        (v - 0x8000_0000_0000_0000) as i64 + i64::MIN
    } else {
        v as i64
    }
}

/// Reads three serial types at `at` and adds up the sizes of their columns.
fn skip_three_columns(data: &[u8], at: usize) -> (r: Option<usize>)
    ensures
        match three_columns(data@, at as int) {
            Some(n) => r == Some(n as usize),
            None => r is None,
        },
{
    let (t1, a1) = match varint_at(data, at) {
        Some(x) => x,
        None => {
            assert(three_columns(data@, at as int) is None);
            return None;
        },
    };
    let (t2, a2) = match varint_at(data, a1) {
        Some(x) => x,
        None => {
            assert(three_columns(data@, at as int) is None);
            return None;
        },
    };
    let (t3, _a3) = match varint_at(data, a2) {
        Some(x) => x,
        None => {
            assert(three_columns(data@, at as int) is None);
            return None;
        },
    };
    let s1 = type_size(to_signed(t1));
    let s2 = type_size(to_signed(t2));
    let s3 = type_size(to_signed(t3));
    let r = match (s1, s2, s3) {
        (Some(x1), Some(x2), Some(x3)) => match x1.checked_add(x2) {
            Some(x12) => x12.checked_add(x3),
            None => None,
        },
        _ => None,
    };
    proof {
        let spec_r = three_columns(data@, at as int);
        assert(varint(data@, at as int) == Some((t1 as int, a1 as int)));
        assert(varint(data@, a1 as int) == Some((t2 as int, a2 as int)));
        assert(varint(data@, a2 as int) == Some((t3 as int, _a3 as int)));
        assert(spec_r is Some <==> r is Some);
    }
    r
}

/// Reads the root page out of the schema table cell at `cell`.
fn read_schema_root(data: &[u8], cell: usize) -> (r: Option<PageNum>)
    ensures
        match schema_root(data@, cell as int) {
            Some(n) => r matches Some(p) && p@ == n,
            None => r is None,
        },
{
    let len = data.len();
    if cell >= len || len < 35 {
        return None;
    }
    let (length, a1) = match varint_at(data, cell) {
        Some(x) => x,
        None => return None,
    };
    let (_rowid, record) = match varint_at(data, a1) {
        Some(x) => x,
        None => return None,
    };
    if length > (len - 35) as u64 {
        return None;
    }
    let (hsize, types) = match varint_at(data, record) {
        Some(x) => x,
        None => return None,
    };
    if hsize > (len - record) as u64 {
        return None;
    }
    let body = record + hsize as usize;
    let skip = match skip_three_columns(data, types) {
        Some(x) => x,
        None => return None,
    };
    if skip > len - body {
        return None;
    }
    let (pgno, _end) = match varint_at(data, body + skip) {
        Some(x) => x,
        None => return None,
    };
    PageNum::new((pgno % 0x1_0000_0000) as u32)
}

/// The root pages of all tables and indices that the schema table's leaf page `data` lists
/// in the `num_cells` cells whose pointers stand at `pointers`.
pub fn master_table(data: &[u8], pointers: usize, num_cells: u16) -> (r: PageSet)
    requires
        pointers + 2 * num_cells <= data@.len(),
    ensures
        forall|n: u32|
            r@.contains(n) <==> schema_roots(data@, pointers as int, num_cells as int).contains(n),
{
    let mut r = PageSet::new();
    let mut k: usize = 0;
    let cells: usize = num_cells as usize;
    let len = data.len();
    while k < cells
        invariant
            k <= cells,
            cells == num_cells,
            len == data@.len(),
            pointers + 2 * cells <= data@.len(),
            forall|n: u32| r@.contains(n) <==> schema_roots(data@, pointers as int, k as int).contains(n),
        decreases cells - k,
    {
        let cell = read_be16(data, pointers + 2 * k) as usize;
        let ghost before = r@;
        let root = read_schema_root(data, cell);
        match root {
            Some(p) => {
                r.insert(p);
            },
            None => {},
        }
        proof {
            let found = schema_root(data@, be16(data@, pointers + 2 * k));
            assert forall|n: u32| r@.contains(n) <==> schema_roots(
                data@,
                pointers as int,
                k + 1,
            ).contains(n) by {
                if schema_roots(data@, pointers as int, k + 1).contains(n) {
                    let j = choose|j: int|
                        0 <= j < k + 1 && #[trigger] schema_root(
                            data@,
                            be16(data@, pointers + 2 * j),
                        ) == Some(n);
                    if j < k {
                        assert(schema_roots(data@, pointers as int, k as int).contains(n));
                    }
                }
                if before.contains(n) {
                    let j = choose|j: int|
                        0 <= j < k && #[trigger] schema_root(data@, be16(data@, pointers + 2 * j))
                            == Some(n);
                    assert(0 <= j < k + 1);
                }
                if found == Some(n) {
                    assert(schema_root(data@, be16(data@, pointers + 2 * (k as int))) == Some(n));
                }
            }
        }
        k += 1;
    }
    r
}

/// The pages that the interior B-tree page `data` points to from the `num_cells` cells whose
/// pointers stand at `pointers`.
pub fn interior_table_or_index(data: &[u8], pointers: usize, num_cells: u16) -> (r: PageSet)
    requires
        pointers + 2 * num_cells <= data@.len(),
    ensures
        forall|n: u32|
            r@.contains(n) <==> interior_children(data@, pointers as int, num_cells as int).contains(
                n,
            ),
{
    let mut r = PageSet::new();
    let mut k: usize = 0;
    let cells: usize = num_cells as usize;
    let len = data.len();
    while k < cells
        invariant
            k <= cells,
            cells == num_cells,
            len == data@.len(),
            pointers + 2 * cells <= data@.len(),
            forall|n: u32|
                r@.contains(n) <==> interior_children(data@, pointers as int, k as int).contains(n),
        decreases cells - k,
    {
        let cell = read_be16(data, pointers + 2 * k) as usize;
        let ghost before = r@;
        let child = if cell <= data.len() && 4 <= data.len() - cell {
            PageNum::new(read_be32(data, cell))
        } else {
            None
        };
        match child {
            Some(p) => {
                r.insert(p);
            },
            None => {},
        }
        proof {
            let found = interior_child(data@, be16(data@, pointers + 2 * k));
            assert forall|n: u32| r@.contains(n) <==> interior_children(
                data@,
                pointers as int,
                k + 1,
            ).contains(n) by {
                if interior_children(data@, pointers as int, k + 1).contains(n) {
                    let j = choose|j: int|
                        0 <= j < k + 1 && #[trigger] interior_child(
                            data@,
                            be16(data@, pointers + 2 * j),
                        ) == Some(n);
                    if j < k {
                        assert(interior_children(data@, pointers as int, k as int).contains(n));
                    }
                }
                if before.contains(n) {
                    let j = choose|j: int|
                        0 <= j < k && #[trigger] interior_child(
                            data@,
                            be16(data@, pointers + 2 * j),
                        ) == Some(n);
                    assert(0 <= j < k + 1);
                }
                if found == Some(n) {
                    assert(interior_child(data@, be16(data@, pointers + 2 * (k as int))) == Some(
                        n,
                    ));
                }
            }
        }
        k += 1;
    }
    r
}

/// Where the B-tree header of page `pgno` starts: behind the database header on page 1, at
/// the start of every other page.
pub open spec fn btree_header(pgno: u32) -> int {
    if pgno == 1 {
        HEADER_SIZE as int
    } else {
        0
    }
}

/// The pages that page `pgno` with the content `data` leads to, as far as the page says so
/// itself: the roots that the schema table lists, where page 1 is its only page, and the
/// children of an interior table or index page, the rightmost one included. `None` for any
/// other kind of page and for a page too short to hold what its header announces.
pub open spec fn prefetch_candidates_spec(data: Seq<u8>, pgno: u32) -> Option<Set<u32>> {
    let bh = btree_header(pgno);
    if data.len() < bh + 8 {
        None
    } else {
        let cells = be16(data, bh + 3);
        if data[bh] == 0x0d && pgno == 1 {
            if bh + 8 + 2 * cells <= data.len() {
                Some(schema_roots(data, bh + 8, cells))
            } else {
                None
            }
        } else if data[bh] == 0x02 || data[bh] == 0x05 {
            if bh + 12 + 2 * cells <= data.len() {
                let inner = interior_children(data, bh + 12, cells);
                if be32(data, bh + 8) == 0 {
                    Some(inner)
                } else {
                    Some(inner.insert(be32(data, bh + 8) as u32))
                }
            } else {
                None
            }
        } else {
            None
        }
    }
}

/// The pages that page `pgno` with the content `data` leads to: candidates for fetching
/// ahead of the reads that will follow.
pub fn prefetch_candidates(data: &[u8], pgno: PageNum) -> (r: Option<PageSet>)
    ensures
        match prefetch_candidates_spec(data@, pgno@) {
            Some(set) => r matches Some(found) && forall|n: u32|
                found@.contains(n) <==> set.contains(n),
            None => r is None,
        },
{
    let bh: usize = if pgno.into_inner() == 1 {
        HEADER_SIZE
    } else {
        0
    };
    let len = data.len();
    if len < bh + 8 {
        return None;
    }
    let num_cells = read_be16(data, bh + 3);
    let kind = data[bh];
    if kind == 0x0d && pgno.into_inner() == 1 {
        if 2 * (num_cells as usize) <= len - (bh + 8) {
            Some(master_table(data, bh + 8, num_cells))
        } else {
            None
        }
    } else if kind == 0x02 || kind == 0x05 {
        if len >= bh + 12 && 2 * (num_cells as usize) <= len - (bh + 12) {
            let rightmost = read_be32(data, bh + 8);
            let mut pgnos = interior_table_or_index(data, bh + 12, num_cells);
            match PageNum::new(rightmost) {
                Some(p) => {
                    pgnos.insert(p);
                },
                None => {},
            }
            Some(pgnos)
        } else {
            None
        }
    } else {
        None
    }
}

} // verus!
