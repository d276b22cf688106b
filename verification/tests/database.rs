use litevfs::database::{Batch, CommitPlan, Database};
use litevfs::error::ErrorKind;
use litevfs::leaser::{Lease, Leaser};
use litevfs::locks::LockKind;
use litevfs::page_set::PageSet;
use litevfs::pager::{Page, Pager};
use litevfs::syncer::Syncer;
use litevfs::types::{Checksum, PageNum, PageSize, Pos, TXID};

const MAGIC: [u8; 8] = [0xd9, 0xd5, 0x05, 0xf9, 0x20, 0xa1, 0x63, 0xd7];
const FLAG: u64 = 1 << 63;

fn pgno(n: u32) -> PageNum {
    PageNum::new(n).unwrap()
}

fn pos(txid: u64, sum: u64) -> Pos {
    Pos { txid: TXID::new(txid).unwrap(), post_apply_checksum: Checksum::new(sum) }
}

fn pages(numbers: &[u32]) -> PageSet {
    let mut set = PageSet::new();
    for n in numbers {
        set.insert(pgno(*n));
    }
    set
}

fn numbers(pages: &[PageNum]) -> Vec<u32> {
    pages.iter().map(|p| p.into_inner()).collect()
}

/// Page 1 of a database with pages of `page_size` bytes and `commit` pages.
fn page1(page_size: u32, commit: u32) -> Vec<u8> {
    let mut page = vec![0u8; page_size as usize];
    page[..16].copy_from_slice(b"SQLite format 3\0");
    let raw: u16 = if page_size == 65536 { 1 } else { page_size as u16 };
    page[16..18].copy_from_slice(&raw.to_be_bytes());
    page[18] = 1;
    page[19] = 1;
    page[28..32].copy_from_slice(&commit.to_be_bytes());
    page[100] = 0x0d;
    page
}

fn page(n: u32, fill: u8) -> Vec<u8> {
    if n == 1 {
        let mut p = page1(512, 1);
        p[200] = fill;
        p
    } else {
        vec![fill; 512]
    }
}

fn leased(db: &str) -> Leaser {
    let mut leaser = Leaser::new(1_000_000_000);
    leaser.acquire_lease(db, Lease { id: "lease-1".to_string(), expires_at: 0 });
    leaser
}

fn checksum(n: u32, data: &[u8]) -> u64 {
    litetx::PageChecksum::page_checksum(&data, litetx::PageNum::new(n).unwrap()).into_inner()
}

#[test]
fn the_header_tells_what_a_database_is() {
    let header = page1(4096, 7);
    assert!(!Database::parse_wal(&header));
    assert_eq!(Ok(false), Database::parse_autovacuum(&header));
    assert_eq!(4096, Database::parse_page_size_database(&header).unwrap().into_inner());
    assert_eq!(7, Database::parse_commit_database(&header, 28).unwrap().into_inner());
    assert_eq!(65536, Database::parse_page_size_database(&page1(65536, 1)).unwrap().into_inner());

    let mut wal = header.clone();
    wal[18] = 2;
    assert!(Database::parse_wal(&wal));
    wal[18] = 1;
    wal[19] = 2;
    assert!(Database::parse_wal(&wal));
    let mut vacuum = header.clone();
    vacuum[55] = 1;
    assert_eq!(Ok(true), Database::parse_autovacuum(&vacuum));
}

#[test]
fn a_malformed_header_is_refused() {
    let mut header = page1(4096, 7);
    header[16] = 0x03;
    assert_eq!(Err(ErrorKind::InvalidData), Database::parse_page_size_database(&header).map(|s| s.into_inner()));
    assert_eq!(Err(ErrorKind::InvalidData), Database::parse_commit_database(&page1(4096, 0), 28).map(|n| n.into_inner()));
    assert_eq!(Err(ErrorKind::InvalidData), Database::parse_commit_database(&[0, 0, 1], 0).map(|n| n.into_inner()));
    assert_eq!(Err(ErrorKind::InvalidData), Database::parse_autovacuum(&[0u8; 55]));
    assert_eq!(Err(ErrorKind::InvalidData), Database::parse_page_size_database(&[0u8; 17]).map(|s| s.into_inner()));
    assert!(!Database::parse_wal(&[2u8; 19]));
    assert!(Database::new("db1", None, Some(&page1(4096, 0))).is_err());
    assert!(Database::new("db1", None, Some(&[0u8; 40])).is_err());
}

#[test]
fn the_journal_header_tells_the_page_size() {
    let mut hdr = vec![0u8; 28];
    hdr[24..28].copy_from_slice(&8192u32.to_be_bytes());
    assert_eq!(8192, Database::parse_page_size_journal(&hdr).unwrap().into_inner());
    hdr[27] = 1;
    assert!(Database::parse_page_size_journal(&hdr).is_err());
    assert!(Database::parse_page_size_journal(&hdr[..27]).is_err());

    let mut db = Database::new("db1", None, None).unwrap();
    assert_eq!(Err(ErrorKind::Other), db.page_size().map(|s| s.into_inner()));
    db.learn_page_size(PageSize::new(8192).unwrap());
    db.learn_page_size(PageSize::new(512).unwrap());
    assert_eq!(8192, db.page_size().unwrap().into_inner());
}

#[test]
fn a_database_is_opened_with_what_its_first_page_says() {
    let db = Database::new("db1", Some(pos(3, 5)), Some(&page1(1024, 9))).unwrap();
    assert_eq!("db1", db.name());
    assert_eq!(Some(pos(3, 5)), db.pos());
    assert_eq!(1024, db.page_size().unwrap().into_inner());
    assert_eq!(Ok(9 * 1024), db.size());
    assert!(!db.is_wal());
    assert!(!db.is_auto_vacuum());
    assert_eq!(32, db.prefetch_limit());
    assert!(db.dirty_pages().is_empty());
    assert_eq!(0, db.readers());

    let db = Database::new("db2", None, None).unwrap();
    assert_eq!(Ok(0), db.size());
    assert_eq!(None, db.pos());
}

#[test]
fn reads_and_writes_take_whole_pages() {
    let db = Database::new("db1", None, Some(&page1(512, 3))).unwrap();
    assert_eq!(Ok(()), db.ensure_aligned(512, 1024));
    assert_eq!(Err(ErrorKind::InvalidInput), db.ensure_aligned(512, 1000));
    assert_eq!(Err(ErrorKind::InvalidInput), db.ensure_aligned(100, 1024));
    assert_eq!(3, db.page_num_for(1024).unwrap().into_inner());
    assert_eq!(1, db.page_num_for(0).unwrap().into_inner());
    assert_eq!(1, db.page_num_for(511).unwrap().into_inner());
    assert_eq!(u32::MAX, db.page_num_for(512 * 0xffff_fffe).unwrap().into_inner());
    assert_eq!(Err(ErrorKind::InvalidInput), db.page_num_for(512 * 0xffff_ffff).map(|n| n.into_inner()));
    assert_eq!(Err(ErrorKind::InvalidInput), db.page_num_for(512 * 0x1_0000_0001).map(|n| n.into_inner()));
    assert_eq!(Err(ErrorKind::InvalidInput), db.page_num_for(u64::MAX).map(|n| n.into_inner()));
    assert!(matches!(db.read_target(512, 512 * 0x1_0000_0001), Err(ErrorKind::InvalidInput)));

    let unknown = Database::new("db2", None, None).unwrap();
    assert_eq!(Err(ErrorKind::Other), unknown.ensure_aligned(512, 1024));
    assert_eq!(Err(ErrorKind::Other), unknown.page_num_for(0).map(|n| n.into_inner()));
    assert_eq!(Err(ErrorKind::Other), unknown.truncate(0).map(|n| n.into_inner()));
}

#[test]
fn a_read_of_the_header_reads_page_one() {
    let db = Database::new("db1", None, Some(&page1(512, 3))).unwrap();
    let t = db.read_target(100, 0).unwrap();
    assert_eq!((1, 0), (t.number.into_inner(), t.page_offset));
    let t = db.read_target(16, 24).unwrap();
    assert_eq!((1, 24), (t.number.into_inner(), t.page_offset));
    let t = db.read_target(1, 100).unwrap();
    assert_eq!((1, 100), (t.number.into_inner(), t.page_offset));
    let t = db.read_target(512, 512).unwrap();
    assert_eq!((2, 0), (t.number.into_inner(), t.page_offset));
    assert!(t.prefetch.is_none());
    assert!(matches!(db.read_target(16, 101), Err(ErrorKind::InvalidInput)));
    assert!(matches!(db.read_target(511, 512), Err(ErrorKind::InvalidInput)));
    let unknown = Database::new("db2", None, None).unwrap();
    assert!(unknown.read_target(100, 0).is_ok());
    assert!(matches!(unknown.read_target(512, 512), Err(ErrorKind::Other)));
}

#[test]
fn a_read_in_wal_mode_hides_the_mode() {
    let mut header = page1(512, 3);
    header[18] = 2;
    header[19] = 2;
    let mut db = Database::new("db1", None, Some(&header)).unwrap();
    assert!(db.is_wal());

    let mut buf = header.clone();
    assert_eq!(Ok(()), db.after_read(&mut buf, 0, None));
    assert_eq!((1, 1), (buf[18], buf[19]));
    let mut buf = header[16..24].to_vec();
    assert_eq!(Ok(()), db.after_read(&mut buf, 16, None));
    assert_eq!(vec![2, 0, 1, 1, 0, 0, 0, 0], buf);
    // the versions are not both there
    let mut buf = header[..19].to_vec();
    assert_eq!(Ok(()), db.after_read(&mut buf, 0, None));
    assert_eq!(2, buf[18]);
    let mut buf = header[19..24].to_vec();
    assert_eq!(Ok(()), db.after_read(&mut buf, 19, None));
    assert_eq!(2, buf[0]);

    // any write is refused, with a lease and without, whatever is written and where
    let leaser = leased("db1");
    assert!(matches!(db.before_write(&vec![0u8; 512], 512, &leaser), Err(ErrorKind::Unsupported)));
    assert!(matches!(db.before_write(&vec![0u8; 512], 512, &Leaser::new(1)), Err(ErrorKind::Unsupported)));
    assert!(matches!(db.before_write(&[1, 2, 3], 7, &leaser), Err(ErrorKind::Unsupported)));
    assert!(matches!(db.before_write(&page1(512, 0), 0, &leaser), Err(ErrorKind::Unsupported)));
    assert!(matches!(db.before_write(&page1(512, 9), 0, &leaser), Err(ErrorKind::Unsupported)));
    assert_eq!(Ok(3 * 512), db.size());
    assert!(db.dirty_pages().is_empty());
}

#[test]
fn a_read_of_the_header_refreshes_the_committed_size() {
    let leaser = leased("db1");
    let mut db = Database::new("db1", None, Some(&page1(512, 3))).unwrap();
    let mut buf = page1(512, 5);
    assert_eq!(Ok(()), db.after_read(&mut buf, 0, None));
    // page 4 exists in the database as committed, so its earlier content counts
    assert!(db.before_write(&vec![0u8; 512], 3 * 512, &leaser).unwrap().read_previous);
    assert!(db.before_write(&vec![0u8; 512], 4 * 512, &leaser).unwrap().read_previous);
    assert!(!db.before_write(&vec![0u8; 512], 5 * 512, &leaser).unwrap().read_previous);

    let mut buf = page1(512, 0);
    assert_eq!(Err(ErrorKind::InvalidData), db.after_read(&mut buf, 0, None));
    assert!(!db.before_write(&vec![0u8; 512], 5 * 512, &leaser).unwrap().read_previous);
    let mut part = buf[28..32].to_vec();
    assert_eq!(Err(ErrorKind::InvalidData), db.after_read(&mut part, 28, None));
    let mut part = buf[29..40].to_vec();
    assert_eq!(Ok(()), db.after_read(&mut part, 29, None));

    // once page 1 is written, what is read is no longer what is committed
    assert_eq!(Ok(()), db.after_write(pgno(1), None));
    let mut buf = page1(512, 9);
    assert_eq!(Ok(()), db.after_read(&mut buf, 0, None));
    assert!(!db.before_write(&vec![0u8; 512], 5 * 512, &leaser).unwrap().read_previous);
}

#[test]
fn pages_that_a_page_leads_to_are_fetched_along() {
    let mut db = Database::new("db1", Some(pos(1, 1)), Some(&page1(512, 30))).unwrap();
    let mut interior = vec![0u8; 512];
    interior[0] = 0x05;
    interior[3..5].copy_from_slice(&2u16.to_be_bytes());
    interior[8..12].copy_from_slice(&9u32.to_be_bytes());
    interior[12..14].copy_from_slice(&300u16.to_be_bytes());
    interior[14..16].copy_from_slice(&310u16.to_be_bytes());
    interior[300..304].copy_from_slice(&7u32.to_be_bytes());
    interior[310..314].copy_from_slice(&3u32.to_be_bytes());

    assert!(db.can_prefetch(512));
    assert!(!db.can_prefetch(100));
    let found = db.prefetch_candidates(&interior, pgno(2)).unwrap();
    assert_eq!(vec![3, 7, 9], numbers(&found.to_vec()));
    assert!(db.prefetch_candidates(&interior[..100], pgno(2)).is_none());

    // page 7 is cached already
    let uncached = found.retain(&vec![true, false, true]);
    let mut buf = interior.clone();
    assert_eq!(Ok(()), db.after_read(&mut buf, 512, Some(uncached)));
    assert_eq!(interior, buf);

    assert_eq!(vec![9], numbers(&db.prefetch_pages(pgno(3)).unwrap()));
    assert!(db.prefetch_pages(pgno(7)).is_none());
    let t = db.read_target(512, 8 * 512).unwrap();
    assert_eq!(9, t.number.into_inner());
    assert_eq!(vec![3], numbers(&t.prefetch.unwrap()));
}

#[test]
fn a_write_needs_a_lease_and_a_page() {
    let mut db = Database::new("db1", None, Some(&page1(512, 3))).unwrap();
    let nobody = Leaser::new(1);
    assert!(matches!(db.before_write(&vec![0u8; 512], 512, &nobody), Err(ErrorKind::PermissionDenied)));
    assert!(matches!(db.before_write(&vec![0u8; 512], 512, &leased("other")), Err(ErrorKind::PermissionDenied)));
    let leaser = leased("db1");
    assert!(matches!(db.before_write(&vec![0u8; 512], 100, &leaser), Err(ErrorKind::InvalidInput)));
    assert!(matches!(db.before_write(&vec![0u8; 100], 512, &leaser), Err(ErrorKind::InvalidInput)));
    let plan = db.before_write(&vec![0u8; 512], 512, &leaser).unwrap();
    assert_eq!(2, plan.number.into_inner());
    assert!(plan.read_previous);
    assert!(db.dirty_pages().is_empty());
}

#[test]
fn a_write_of_the_header_tells_the_size() {
    let leaser = leased("db1");
    let mut db = Database::new("db1", None, None).unwrap();
    assert!(matches!(db.before_write(&vec![0u8; 512], 512, &leaser), Err(ErrorKind::Other)));
    assert!(matches!(db.before_write(&page1(1024, 0), 0, &leaser), Err(ErrorKind::InvalidData)));
    assert_eq!(1024, db.page_size().unwrap().into_inner());
    assert_eq!(Ok(0), db.size());
    let mut bad = page1(1024, 2);
    bad[16] = 0x7f;
    let mut fresh = Database::new("db1", None, None).unwrap();
    assert!(matches!(fresh.before_write(&bad, 0, &leaser), Err(ErrorKind::InvalidData)));
    assert!(fresh.page_size().is_err());

    let plan = db.before_write(&page1(1024, 2), 0, &leaser).unwrap();
    assert_eq!(1, plan.number.into_inner());
    assert!(plan.read_previous);
    assert_eq!(Ok(2048), db.size());
    // the page size is told once
    assert!(matches!(db.before_write(&page1(512, 4), 0, &leaser), Err(ErrorKind::InvalidInput)));
    assert_eq!(1024, db.page_size().unwrap().into_inner());
    assert_eq!(Ok(4096), db.size());
    // a header is told without a lease too
    assert!(matches!(db.before_write(&page1(1024, 6), 0, &Leaser::new(1)), Err(ErrorKind::PermissionDenied)));
    assert_eq!(Ok(6 * 1024), db.size());
}

#[test]
fn written_pages_are_remembered_with_their_earlier_checksum() {
    let mut db = Database::new("db1", None, Some(&page1(512, 3))).unwrap();
    assert_eq!(Ok(()), db.after_write(pgno(3), Some(Checksum::new(7))));
    assert_eq!(Ok(()), db.after_write(pgno(1), None));
    assert_eq!(Ok(()), db.after_write(pgno(3), Some(Checksum::new(8))));
    assert_eq!(Ok(()), db.after_write(pgno(2), None));
    assert_eq!(vec![1, 2, 3], numbers(&db.dirty_pages()));

    // the lock page is written and forgotten
    let lock_page = 0x4000_0000 / 512 + 1;
    assert_eq!(lock_page, PageNum::lock_page(PageSize::new(512).unwrap()).into_inner());
    assert_eq!(Ok(()), db.after_write(pgno(lock_page), None));
    assert_eq!(vec![1, 2, 3], numbers(&db.dirty_pages()));

    let mut unknown = Database::new("db2", None, None).unwrap();
    assert_eq!(Err(ErrorKind::Other), unknown.after_write(pgno(1), None));
}

#[test]
fn a_database_is_cut_at_a_page() {
    let db = Database::new("db1", None, Some(&page1(512, 3))).unwrap();
    assert_eq!(2, db.truncate(1024).unwrap().into_inner());
    assert_eq!(Err(ErrorKind::InvalidInput), db.truncate(1000).map(|n| n.into_inner()));
    assert_eq!(Err(ErrorKind::InvalidInput), db.truncate(0).map(|n| n.into_inner()));
    assert_eq!(u32::MAX, db.truncate(512 * 0xffff_ffff).unwrap().into_inner());
    assert_eq!(Err(ErrorKind::InvalidInput), db.truncate(512 * 0x1_0000_0000).map(|n| n.into_inner()));
    assert_eq!(Err(ErrorKind::InvalidInput), db.truncate(512 * 0x1_0000_0001).map(|n| n.into_inner()));
}

#[test]
fn journal_magic() {
    assert!(Database::is_journal_header_valid(&MAGIC));
    let mut longer = MAGIC.to_vec();
    longer.extend_from_slice(&[1, 2, 3]);
    assert!(Database::is_journal_header_valid(&longer));
    assert!(!Database::is_journal_header_valid(&[0u8; 28]));
    assert!(!Database::is_journal_header_valid(&MAGIC[..7]));
    assert!(!Database::is_journal_header_valid(&[]));
    let mut off = MAGIC;
    off[7] ^= 1;
    assert!(!Database::is_journal_header_valid(&off));
}

#[test]
fn rollback() {
    let leaser = leased("db1");
    let mut db = Database::new("db1", Some(pos(4, 4)), Some(&page1(512, 3))).unwrap();
    let mut pager = Pager::new();
    db.page_written(&mut pager, pgno(2), None).unwrap();
    assert!(matches!(db.begin_commit(&[0u8; 28], &leaser, &mut pager), CommitPlan::Rollback));
    assert!(db.dirty_pages().is_empty());
    // a rollback leaves the index alone
    assert_eq!(1, pager.cached_pages());
    assert!(pager.del_page("db1", pgno(2)));
    assert_eq!(Some(pos(4, 4)), db.pos());
    assert_eq!(Ok(3 * 512), db.size());
}

#[test]
fn a_commit_that_cannot_be_submitted_is_given_up() {
    let mut db = Database::new("db1", Some(pos(4, 4)), Some(&page1(512, 3))).unwrap();
    let mut pager = Pager::new();
    pager.put_page("db1", pgno(1));
    pager.put_page("db2", pgno(2));
    db.page_written(&mut pager, pgno(2), None).unwrap();
    db.page_written(&mut pager, pgno(5), None).unwrap();
    assert_eq!(4, pager.cached_pages());
    match db.begin_commit(&MAGIC, &Leaser::new(1), &mut pager) {
        CommitPlan::Abort { error, discard } => {
            assert_eq!(ErrorKind::PermissionDenied, error);
            assert_eq!(vec![2, 5], numbers(&discard));
        }
        _ => panic!("not given up"),
    }
    assert!(db.dirty_pages().is_empty());
    // none of the pages written is in the index any more, and the others are
    assert_eq!(2, pager.cached_pages());
    assert!(!pager.del_page("db1", pgno(2)));
    assert!(!pager.del_page("db1", pgno(5)));
    assert!(pager.del_page("db1", pgno(1)));
    assert!(pager.del_page("db2", pgno(2)));

    // the database has shrunk
    let leaser = leased("db1");
    db.before_write(&page1(512, 2), 0, &leaser).unwrap();
    db.after_write(pgno(1), None).unwrap();
    match db.begin_commit(&MAGIC, &leaser, &mut pager) {
        CommitPlan::Abort { error, discard } => {
            assert_eq!(ErrorKind::Unsupported, error);
            assert_eq!(vec![1], numbers(&discard));
        }
        _ => panic!("not given up"),
    }

    let mut unknown = Database::new("db1", None, None).unwrap();
    assert!(matches!(
        unknown.begin_commit(&MAGIC, &leaser, &mut pager),
        CommitPlan::Abort { error: ErrorKind::Other, .. }
    ));
    db.page_written(&mut pager, pgno(2), None).unwrap();
    db.after_write(pgno(3), None).unwrap();
    pager.put_page("db1", pgno(4));
    assert_eq!(vec![2, 3], numbers(&db.commit_failed(&mut pager)));
    assert_eq!(1, pager.cached_pages());
    assert!(db.commit_failed(&mut pager).is_empty());
    assert_eq!(1, pager.cached_pages());
    assert!(pager.del_page("db1", pgno(4)));
}

/// Writes the pages through the database as the engine would, commits them, and returns
/// the transaction file and the position.
fn commit(db: &mut Database, syncer: &mut Syncer, writes: &[(u32, Vec<u8>, Option<Vec<u8>>)], size: u32) -> (Vec<u8>, Pos) {
    let leaser = leased("db1");
    let mut header = writes.iter().find(|w| w.0 == 1).map(|w| w.1.clone()).unwrap();
    header[28..32].copy_from_slice(&size.to_be_bytes());
    let mut stored = Vec::new();
    for (n, data, before) in writes {
        let data = if *n == 1 { header.clone() } else { data.clone() };
        let plan = db.before_write(&data, (*n as u64 - 1) * 512, &leaser).unwrap();
        assert_eq!(*n, plan.number.into_inner());
        let earlier = match before {
            Some(old) if plan.read_previous => Some(Page::new(pgno(*n), old.clone()).checksum()),
            _ => None,
        };
        db.after_write(plan.number, earlier).unwrap();
        stored.push((*n, data));
    }
    let (txid, commit, lease, pages) = match db.begin_commit(&MAGIC, &leaser, &mut Pager::new()) {
        CommitPlan::Submit { txid, commit, lease, pages } => (txid, commit, lease, pages),
        _ => panic!("not submitted"),
    };
    assert_eq!("lease-1", lease);
    assert_eq!(size, commit.into_inner());
    let pages: Vec<Page> = pages
        .iter()
        .map(|p| Page::new(*p, stored.iter().find(|s| s.0 == p.into_inner()).unwrap().1.clone()))
        .collect();
    let (bytes, at) = db.encode_commit(txid, commit, 1_700_000_000_000, &pages).unwrap();
    db.commit_succeeded(at, syncer, 77);
    (bytes, at)
}

#[test]
fn create_insert_read_back() {
    let mut syncer = Syncer::new(1_000_000_000);
    syncer.open_conn("db1", None, 0);
    let mut db = Database::new("db1", None, None).unwrap();
    let first = page(1, 1);
    let second = page(2, 2);
    let third = page(3, 3);
    let writes = vec![(1, first.clone(), None), (2, second.clone(), None), (3, third.clone(), None)];
    let (bytes, at) = commit(&mut db, &mut syncer, &writes, 3);

    assert_eq!(1, at.txid.into_inner());
    assert_eq!(Some(at), db.pos());
    assert_eq!(Some(at), syncer.position("db1"));
    assert!(db.dirty_pages().is_empty());
    assert_eq!(Ok(3 * 512), db.size());

    let mut first = first;
    first[28..32].copy_from_slice(&3u32.to_be_bytes());
    let expected = checksum(1, &first) ^ checksum(2, &second) ^ checksum(3, &third);
    assert_eq!(expected | FLAG, at.post_apply_checksum.into_inner());

    // the file is one that the format's own reader takes
    let (mut dec, header) = litetx::Decoder::new(&bytes[..]).unwrap();
    assert_eq!(512, header.page_size.into_inner());
    assert_eq!(3, header.commit.into_inner());
    assert_eq!(1, header.min_txid.into_inner());
    assert_eq!(1, header.max_txid.into_inner());
    assert!(header.pre_apply_checksum.is_none());
    let mut buf = vec![0u8; 512];
    let mut seen = Vec::new();
    while let Some(n) = dec.decode_page(&mut buf).unwrap() {
        seen.push((n.into_inner(), buf.clone()));
    }
    assert_eq!(vec![(1, first), (2, second), (3, third)], seen);
    let trailer = dec.finish().unwrap();
    assert_eq!(at.post_apply_checksum.into_inner(), trailer.post_apply_checksum.into_inner());
    assert_eq!(100 + 3 * 516 + 4 + 16, bytes.len());
    assert_eq!(b"LTX1", &bytes[..4]);
}

#[test]
fn the_checksum_is_that_of_all_pages_after_every_commit() {
    let mut syncer = Syncer::new(1_000_000_000);
    syncer.open_conn("db1", None, 0);
    let mut db = Database::new("db1", None, None).unwrap();
    let mut content: Vec<Vec<u8>> = vec![page(1, 1), page(2, 2)];
    let writes = vec![(1, content[0].clone(), None), (2, content[1].clone(), None)];
    let (_, first) = commit(&mut db, &mut syncer, &writes, 2);
    content[0][28..32].copy_from_slice(&2u32.to_be_bytes());

    // the second transaction rewrites page 2 and adds pages 3 and 4
    let old = content.clone();
    content[1] = page(2, 9);
    content.push(page(3, 3));
    content.push(page(4, 4));
    let writes = vec![
        (4, content[3].clone(), None),
        (1, content[0].clone(), Some(old[0].clone())),
        (2, content[1].clone(), Some(old[1].clone())),
        (3, content[2].clone(), None),
    ];
    let (bytes, second) = commit(&mut db, &mut syncer, &writes, 4);
    content[0][28..32].copy_from_slice(&4u32.to_be_bytes());

    assert_eq!(2, second.txid.into_inner());
    let mut expected = 0;
    for (i, data) in content.iter().enumerate() {
        expected ^= checksum(i as u32 + 1, data);
    }
    assert_eq!(expected | FLAG, second.post_apply_checksum.into_inner());
    assert_ne!(first.post_apply_checksum, second.post_apply_checksum);

    let (dec, header) = litetx::Decoder::new(&bytes[..]).unwrap();
    assert_eq!(2, header.min_txid.into_inner());
    assert_eq!(Some(first.post_apply_checksum.into_inner()), header.pre_apply_checksum.map(|c| c.into_inner()));
    drop(dec);
}

#[test]
fn pages_behind_the_end_are_not_shipped() {
    let leaser = leased("db1");
    let mut db = Database::new("db1", Some(pos(4, 4)), Some(&page1(512, 3))).unwrap();
    db.after_write(pgno(2), None).unwrap();
    db.after_write(pgno(3), None).unwrap();
    db.after_write(pgno(4), None).unwrap();
    db.after_write(pgno(9), None).unwrap();
    let (txid, commit, pages) = match db.begin_commit(&MAGIC, &leaser, &mut Pager::new()) {
        CommitPlan::Submit { txid, commit, pages, .. } => (txid, commit, pages),
        _ => panic!("not submitted"),
    };
    assert_eq!(5, txid.into_inner());
    assert_eq!(vec![2, 3], numbers(&pages));

    let shipped = || vec![Page::new(pgno(2), page(2, 2)), Page::new(pgno(3), page(3, 3))];
    let (_, at) = db.encode_commit(txid, commit, 1, &shipped()).unwrap();
    let expected = (4 | FLAG) ^ checksum(2, &page(2, 2)) ^ checksum(3, &page(3, 3));
    assert_eq!(expected | FLAG, at.post_apply_checksum.into_inner());

    // other pages than those to ship, a page of another size, or a time that no file holds
    assert!(db.encode_commit(txid, commit, 1, &shipped()[..1].to_vec_pages()).is_err());
    let mut wrong = shipped();
    wrong.push(Page::new(pgno(4), page(4, 4)));
    assert!(db.encode_commit(txid, commit, 1, &wrong).is_err());
    let wrong = vec![Page::new(pgno(2), page(2, 2)), Page::new(pgno(3), vec![0u8; 10])];
    assert!(db.encode_commit(txid, commit, 1, &wrong).is_err());
    assert_eq!(Err(ErrorKind::Other), db.encode_commit(txid, commit, u64::MAX, &shipped()).map(|_| ()));
    // a transaction that is not the first must not claim to be
    assert!(db.encode_commit(TXID::one(), commit, 1, &shipped()).is_err());
}

trait ToVecPages {
    fn to_vec_pages(&self) -> Vec<Page>;
}

impl ToVecPages for [Page] {
    fn to_vec_pages(&self) -> Vec<Page> {
        self.iter().map(|p| Page::new(p.number(), p.as_ref().to_vec())).collect()
    }
}

#[test]
fn a_first_commit_ships_the_whole_database() {
    let leaser = leased("db1");
    let mut db = Database::new("db1", None, None).unwrap();
    db.before_write(&page1(512, 3), 0, &leaser).unwrap();
    db.after_write(pgno(1), None).unwrap();
    db.after_write(pgno(3), None).unwrap();
    let (txid, commit, pages) = match db.begin_commit(&MAGIC, &leaser, &mut Pager::new()) {
        CommitPlan::Submit { txid, commit, pages, .. } => (txid, commit, pages),
        _ => panic!("not submitted"),
    };
    assert_eq!(vec![1, 3], numbers(&pages));
    let shipped = vec![Page::new(pgno(1), page1(512, 3)), Page::new(pgno(3), page(3, 3))];
    assert_eq!(Err(ErrorKind::Other), db.encode_commit(txid, commit, 1, &shipped).map(|_| ()));
    assert_eq!(vec![1, 3], numbers(&db.commit_failed(&mut Pager::new())));
}

#[test]
fn all_pages_have_changed() {
    let mut db = Database::new("db1", Some(pos(2, 2)), Some(&page1(512, 3))).unwrap();
    assert_eq!(Ok(()), db.set_prefetch_limit(2));
    let mut pager = Pager::new();
    for n in [2, 7, 9] {
        pager.put_page("db1", pgno(n));
        pager.put_page("db2", pgno(n));
    }
    db.apply_all_changed(&mut pager, &vec![pgno(7), pgno(2), pgno(9)]);
    // no page of the database is in the index, and those of the other database are
    assert_eq!(3, pager.cached_pages());
    for n in [2, 7, 9] {
        assert!(!pager.del_page("db1", pgno(n)));
        assert!(pager.del_page("db2", pgno(n)));
    }
    assert_eq!(vec![7], numbers(&db.prefetch_pages(pgno(2)).unwrap()));
    assert!(db.prefetch_pages(pgno(9)).is_none());
    // the committed size is not known any more
    let leaser = leased("db1");
    assert!(db.before_write(&vec![0u8; 512], 50 * 512, &leaser).unwrap().read_previous);
    db.set_pos(Some(pos(5, 5)));
    assert_eq!(Some(pos(5, 5)), db.pos());
    // a sync does not move a database back
    db.set_pos(Some(pos(4, 9)));
    assert_eq!(Some(pos(5, 5)), db.pos());
    db.set_pos(None);
    assert_eq!(Some(pos(5, 5)), db.pos());
    db.set_pos(Some(pos(5, 6)));
    assert_eq!(Some(pos(5, 6)), db.pos());
    let mut empty = Database::new("db2", None, None).unwrap();
    empty.set_pos(None);
    assert_eq!(None, empty.pos());
    empty.set_pos(Some(pos(1, 1)));
    assert_eq!(Some(pos(1, 1)), empty.pos());
}

#[test]
fn cross_host_converge() {
    let mut db = Database::new("db1", Some(pos(2, 2)), Some(&page1(512, 12))).unwrap();
    let stale = pages(&[1, 3, 9]);
    let mut pager = Pager::new();
    for n in [1, 2, 9] {
        pager.put_page("db1", pgno(n));
    }
    // page 3 was not cached
    db.apply_pages_changed(&mut pager, &stale, &vec![true, false, true]);
    assert_eq!(1, pager.cached_pages());
    assert!(!pager.del_page("db1", pgno(1)));
    assert!(!pager.del_page("db1", pgno(9)));
    assert!(pager.del_page("db1", pgno(2)));
    db.set_pos(Some(pos(5, 5)));
    assert_eq!(Some(pos(5, 5)), db.pos());
    assert_eq!(vec![9], numbers(&db.prefetch_pages(pgno(1)).unwrap()));
    assert!(db.prefetch_pages(pgno(3)).is_none());
    let leaser = leased("db1");
    assert!(db.before_write(&vec![0u8; 512], 50 * 512, &leaser).unwrap().read_previous);
}

#[test]
fn some_pages_have_changed() {
    let mut db = Database::new("db1", Some(pos(2, 2)), Some(&page1(512, 12))).unwrap();
    let leaser = leased("db1");
    assert_eq!(Ok(()), db.set_prefetch_limit(2));
    let mut pager = Pager::new();
    for n in 1..=5 {
        pager.put_page("db1", pgno(n));
    }
    db.apply_pages_changed(&mut pager, &pages(&[2, 3, 4, 5]), &vec![true, true, true, true]);
    assert_eq!(1, pager.cached_pages());
    pager.put_page("db1", pgno(2));
    assert_eq!(vec![3], numbers(&db.prefetch_pages(pgno(2)).unwrap()));
    assert!(db.prefetch_pages(pgno(4)).is_none());
    // page 1 was not among them: the committed size stands
    assert!(!db.before_write(&vec![0u8; 512], 50 * 512, &leaser).unwrap().read_previous);

    // the removal of page 1 failed, so page 1 was not dealt with
    db.apply_pages_changed(&mut pager, &pages(&[1, 2]), &vec![]);
    assert_eq!(2, pager.cached_pages());
    assert!(!db.before_write(&vec![0u8; 512], 50 * 512, &leaser).unwrap().read_previous);
    assert!(db.prefetch_pages(pgno(2)).is_none());
    db.apply_pages_changed(&mut pager, &pages(&[1, 2]), &vec![false]);
    // only the first page was dealt with
    assert_eq!(1, pager.cached_pages());
    assert!(pager.del_page("db1", pgno(2)));
    assert!(db.before_write(&vec![0u8; 512], 50 * 512, &leaser).unwrap().read_previous);
}

fn flat(batches: &[Batch]) -> Vec<Vec<u32>> {
    batches
        .iter()
        .map(|b| {
            let mut all = numbers(&b.prefetch);
            all.push(b.pgno.into_inner());
            all
        })
        .collect()
}

#[test]
fn the_whole_database_is_brought_in_batches() {
    assert!(Database::cache_batches(pgno(3), &vec![true, true, true]).is_empty());
    let batches = Database::cache_batches(pgno(5), &vec![true, false, false, true, false]);
    assert_eq!(vec![vec![2, 3, 5]], flat(&batches));
    // the last page is there, the ones before it are not
    let batches = Database::cache_batches(pgno(4), &vec![false, false, true, true]);
    assert_eq!(vec![vec![1, 2]], flat(&batches));

    let batches = Database::cache_batches(pgno(300), &vec![false; 300]);
    let expected: Vec<Vec<u32>> = vec![(1..=129).collect(), (130..=258).collect(), (259..=300).collect()];
    assert_eq!(expected, flat(&batches));
    assert_eq!(128, batches[0].prefetch.len());
    assert_eq!(129, batches[0].pgno.into_inner());
    assert_eq!(128, batches[1].prefetch.len());
    assert_eq!(41, batches[2].prefetch.len());
    let batches = Database::cache_batches(pgno(258), &vec![false; 258]);
    assert_eq!(vec![128, 128], batches.iter().map(|b| b.prefetch.len()).collect::<Vec<_>>());
}

#[test]
fn connections_share_the_lock_of_their_database() {
    let mut db = Database::new("db1", None, None).unwrap();
    let mut reader = db.conn_lock();
    let mut writer = db.conn_lock();
    assert!(db.acquire(&mut reader, LockKind::Shared));
    assert!(db.acquire(&mut writer, LockKind::Shared));
    assert_eq!(2, db.readers());
    assert!(db.acquire(&mut writer, LockKind::Reserved));
    assert!(!db.acquire(&mut writer, LockKind::Exclusive));
    assert_eq!(LockKind::Pending, writer.state());
    assert!(db.reserved(&reader));
    assert!(db.acquire(&mut reader, LockKind::Unlocked));
    assert!(db.reserved(&reader));
    assert!(db.acquire(&mut writer, LockKind::Exclusive));
}

#[test]
fn the_prefetch_list_is_bounded() {
    let mut db = Database::new("db1", Some(pos(1, 1)), Some(&page1(512, 300))).unwrap();
    let many: Vec<u32> = (2..=100).collect();
    let mut buf = vec![0u8; 512];
    assert_eq!(Ok(()), db.after_read(&mut buf, 512, Some(pages(&many))));
    let listed = db.prefetch_pages(pgno(2)).unwrap();
    assert_eq!((3..=33).collect::<Vec<u32>>(), numbers(&listed));
    assert!(db.prefetch_pages(pgno(34)).is_none());

    // a lower limit cuts the list, a higher one does not bring pages back
    assert_eq!(Ok(()), db.set_prefetch_limit(3));
    assert_eq!(vec![3, 4], numbers(&db.prefetch_pages(pgno(2)).unwrap()));
    assert!(db.prefetch_pages(pgno(5)).is_none());
    assert_eq!(Ok(()), db.set_prefetch_limit(128));
    assert_eq!(vec![3, 4], numbers(&db.prefetch_pages(pgno(2)).unwrap()));
    assert_eq!(Err(ErrorKind::InvalidInput), db.set_prefetch_limit(129));
    assert_eq!(128, db.prefetch_limit());

    let all: Vec<u32> = (1..=200).collect();
    assert_eq!(Ok(()), db.after_read(&mut buf, 512, Some(pages(&all))));
    assert_eq!(127, db.prefetch_pages(pgno(1)).unwrap().len());
    assert!(db.prefetch_pages(pgno(129)).is_none());
    assert_eq!(Ok(()), db.set_prefetch_limit(0));
    assert_eq!(Ok(()), db.after_read(&mut buf, 512, Some(pages(&all))));
    assert!(db.prefetch_pages(pgno(1)).is_none());
    assert_eq!(vec![1, 2], numbers(&pages(&[1, 2, 3]).first(2).to_vec()));
    assert_eq!(vec![1, 2, 3], numbers(&pages(&[1, 2, 3]).first(7).to_vec()));
}

#[test]
fn written_pages_are_in_the_index() {
    let mut pager = Pager::new();
    let mut db = Database::new("db1", None, Some(&page1(512, 3))).unwrap();
    assert_eq!(Ok(()), db.page_written(&mut pager, pgno(2), None));
    assert_eq!(Ok(()), db.page_written(&mut pager, pgno(3), Some(Checksum::new(1))));
    assert_eq!(Ok(()), db.page_written(&mut pager, pgno(2), None));
    assert_eq!(vec![2, 3], numbers(&db.dirty_pages()));
    assert_eq!(2, pager.cached_pages());
    for n in db.dirty_pages() {
        assert!(pager.del_page("db1", n));
    }
    // the lock page is cached and not remembered
    let lock_page = pgno(0x4000_0000 / 512 + 1);
    assert_eq!(Ok(()), db.page_written(&mut pager, lock_page, None));
    assert_eq!(vec![2, 3], numbers(&db.dirty_pages()));
    assert!(pager.del_page("db1", lock_page));

    let mut unknown = Database::new("db2", None, None).unwrap();
    assert_eq!(Err(ErrorKind::Other), unknown.page_written(&mut pager, pgno(1), None));
    assert!(pager.del_page("db2", pgno(1)));
}

#[test]
fn a_full_index_may_push_out_a_written_page() {
    // the pages of another database are the oldest: the pages written stay in the index
    let mut pager = Pager::new();
    let mut db = Database::new("db1", None, Some(&page1(512, 3))).unwrap();
    for n in 1..=6500 {
        pager.put_page("db2", pgno(n));
    }
    assert_eq!(Ok(()), db.page_written(&mut pager, pgno(2), None));
    assert_eq!(Ok(()), db.page_written(&mut pager, pgno(3), None));
    assert_eq!(6500, pager.cached_pages());
    assert!(!pager.del_page("db2", pgno(1)));
    assert!(!pager.del_page("db2", pgno(2)));
    assert!(pager.del_page("db1", pgno(2)));
    assert!(pager.del_page("db1", pgno(3)));

    // a page written is the oldest: it is the one that leaves
    let mut pager = Pager::new();
    let mut db = Database::new("db1", None, Some(&page1(512, 3))).unwrap();
    assert_eq!(Ok(()), db.page_written(&mut pager, pgno(2), None));
    for n in 1..=6499 {
        pager.put_page("db2", pgno(n));
    }
    assert_eq!(Ok(()), db.page_written(&mut pager, pgno(3), None));
    assert_eq!(vec![2, 3], numbers(&db.dirty_pages()));
    assert_eq!(6500, pager.cached_pages());
    assert!(!pager.del_page("db1", pgno(2)));
    assert!(pager.del_page("db1", pgno(3)));
    assert!(pager.del_page("db2", pgno(1)));
}
