//! Page checksums and transaction files, both computed by the `litetx` crate.

use crate::pager::Page;
use crate::types::{flagged, is_page_size, lock_page_of};
use litetx::{
    Checksum as LtxChecksum, Encoder, Header, HeaderFlags, PageNum as LtxPageNum,
    PageSize as LtxPageSize, TXID as LtxTxid,
};
use std::time::{Duration, UNIX_EPOCH};
use vstd::prelude::*;

verus! {

/// The checksum that `litetx` gives the page with the number `pgno` and the content `data`,
/// a CRC-64 salted with the page number.
pub uninterp spec fn page_checksum(data: Seq<u8>, pgno: u32) -> u64;

/// The checksum that `litetx` puts at the end of a transaction file whose bytes up to
/// there are `body`: a CRC-64 of the header, the pages, the end mark and the database
/// checksum.
pub uninterp spec fn file_checksum(body: Seq<u8>) -> u64;

/// `PageChecksum::page_checksum`: the checksum of a page, with the flag that every checksum
/// carries.
#[verifier::external_body]
pub(crate) fn ltx_page_checksum(data: &[u8], pgno: u32) -> (r: u64)
    requires
        pgno >= 1,
    ensures
        r == page_checksum(data@, pgno),
        r == flagged(r),
{
    litetx::PageChecksum::page_checksum(&data, LtxPageNum::new(pgno).unwrap()).into_inner()
}

/// The four bytes of `v`, highest first.
pub open spec fn be32_bytes(v: u32) -> Seq<u8> {
    seq![
        (v / 0x100_0000) as u8,
        ((v / 0x1_0000) % 256) as u8,
        ((v / 0x100) % 256) as u8,
        (v % 256) as u8,
    ]
}

/// The eight bytes of `v`, highest first.
pub open spec fn be64_bytes(v: u64) -> Seq<u8> {
    be32_bytes((v / 0x1_0000_0000) as u32) + be32_bytes((v % 0x1_0000_0000) as u32)
}

/// What a transaction file says of itself.
pub struct FileHeader {
    /// The page size of the database.
    pub page_size: u32,
    /// The size of the database after the transaction, in pages.
    pub commit: u32,
    /// The transaction's id; the file holds this one transaction.
    pub txid: u64,
    /// When the file was made, in milliseconds since the epoch.
    pub timestamp: u64,
    /// The database's checksum before the transaction, where there was a database.
    pub pre_apply_checksum: Option<u64>,
}

/// The hundred bytes at the start of a transaction file: the magic "LTX1", no flags, the
/// page size, the commit size, the transaction id twice (as the lowest and the highest id
/// in the file), the timestamp, the checksum before the transaction or zero, and zeros to
/// the end.
pub open spec fn header_bytes(h: FileHeader) -> Seq<u8> {
    seq![0x4cu8, 0x54u8, 0x58u8, 0x31u8] + be32_bytes(0) + be32_bytes(h.page_size) + be32_bytes(
        h.commit,
    ) + be64_bytes(h.txid) + be64_bytes(h.txid) + be64_bytes(h.timestamp) + be64_bytes(
        match h.pre_apply_checksum {
            Some(c) => c,
            None => 0,
        },
    ) + Seq::new(52, |i: int| 0u8)
}

/// The bytes of the pages of a transaction file: each page's number, then its content.
pub open spec fn page_bytes(pages: Seq<Page>) -> Seq<u8>
    decreases pages.len(),
{
    if pages.len() == 0 {
        Seq::empty()
    } else {
        page_bytes(pages.drop_last()) + be32_bytes(pages.last().number_spec()) + pages.last().data_spec()
    }
}

/// A transaction file: the header, the pages, four zeros for the end of the pages, the
/// database's checksum after the transaction, and the checksum of all that, flagged.
pub open spec fn file_bytes(h: FileHeader, pages: Seq<Page>, post_apply_checksum: u64) -> Seq<u8> {
    let body = file_body(h, pages, post_apply_checksum);
    body + be64_bytes(flagged(file_checksum(body)))
}

/// A transaction file without its last eight bytes.
pub open spec fn file_body(h: FileHeader, pages: Seq<Page>, post_apply_checksum: u64) -> Seq<u8> {
    header_bytes(h) + page_bytes(pages) + be32_bytes(0) + be64_bytes(post_apply_checksum)
}

/// Whether `litetx` takes the pages. None is the lock page and each has the database's
/// page size. The first transaction of a database is a snapshot: it starts with page 1 and
/// leaves no page out. Any other transaction holds its pages in ascending order.
pub open spec fn pages_accepted(h: FileHeader, pages: Seq<Page>) -> bool {
    &&& forall|i: int|
        0 <= i < pages.len() ==> (#[trigger] pages[i]).number_spec() != lock_page_of(h.page_size)
            && pages[i].data_spec().len() == h.page_size
    &&& h.txid == 1 ==> forall|i: int|
        0 <= i < pages.len() ==> (#[trigger] pages[i]).number_spec() == i + 1
    &&& h.txid != 1 ==> forall|i: int, j: int|
        0 <= i < j < pages.len() ==> (#[trigger] pages[i]).number_spec() < (
        #[trigger] pages[j]).number_spec()
}

/// Whether `litetx` takes the header: a snapshot has no checksum before it, and any other
/// transaction has one.
pub open spec fn header_accepted(h: FileHeader) -> bool {
    h.txid == 1 <==> h.pre_apply_checksum is None
}

/// `Encoder::new`, `Encoder::encode_page` for each page and `Encoder::finish`: writes a
/// transaction file into memory. The encoder keeps a running checksum and gives its output
/// up only as a whole, so the three calls stand together. There is no file where `litetx`
/// refuses the header or a page.
#[verifier::external_body]
pub(crate) fn ltx_encode(h: &FileHeader, pages: &Vec<Page>, sum: u64) -> (r: Option<Vec<u8>>)
    requires
        is_page_size(h.page_size),
        h.commit >= 1,
        1 <= h.txid,
        h.timestamp <= 0x7FFF_FFFF_FFFF,
        sum == flagged(sum),
        h.pre_apply_checksum matches Some(c) ==> c == flagged(c),
        forall|i: int| 0 <= i < pages@.len() ==> 1 <= (#[trigger] pages@[i]).number_spec() < u32::MAX,
    ensures
        r is Some <==> (header_accepted(*h) && pages_accepted(*h, pages@)),
        r is Some ==> r->0@ == file_body(*h, pages@, sum) + be64_bytes(
            flagged(file_checksum(file_body(*h, pages@, sum))),
        ),
{
    let mut out = Vec::new();
    let header = Header {
        flags: HeaderFlags::empty(),
        page_size: LtxPageSize::new(h.page_size).unwrap(),
        commit: LtxPageNum::new(h.commit).unwrap(),
        min_txid: LtxTxid::new(h.txid).unwrap(),
        max_txid: LtxTxid::new(h.txid).unwrap(),
        timestamp: UNIX_EPOCH + Duration::from_millis(h.timestamp),
        pre_apply_checksum: h.pre_apply_checksum.map(LtxChecksum::new),
    };
    let mut enc = Encoder::new(&mut out, &header).ok()?;
    for p in pages.iter() {
        enc.encode_page(LtxPageNum::new(p.number.into_inner()).unwrap(), &p.data).ok()?;
    }
    enc.finish(LtxChecksum::new(sum)).ok().map(|_| out)
}

} // verus!
