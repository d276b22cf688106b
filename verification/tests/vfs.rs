use litevfs::database::Database;
use litevfs::error::ErrorKind;
use litevfs::locks::LockKind;
use litevfs::pager::{Fetch, PageSource, Pager};
use litevfs::syncer::Syncer;
use litevfs::types::{Checksum, PageNum, Pos, TXID};
use litevfs::vfs::{
    check_access, database_name_kind, get_database, journal_write_commits,
    journal_write_tells_page_size, open, parse_pragma, temporary_name, Found, LiteDatabaseHandle,
    OpenAccess, OpenKind, Pragma, PragmaOutcome,
};

const SECOND: u128 = 1_000_000_000;

fn pos(txid: u64, sum: u64) -> Pos {
    Pos { txid: TXID::new(txid).unwrap(), post_apply_checksum: Checksum::new(sum) }
}

fn header(write_version: u8, auto_vacuum: u8) -> Vec<u8> {
    let mut page = vec![0u8; 512];
    page[16..18].copy_from_slice(&512u16.to_be_bytes());
    page[18] = write_version;
    page[19] = 1;
    page[31] = 1;
    page[55] = auto_vacuum;
    page
}

#[test]
fn file_names_tell_the_kind_of_file() {
    assert_eq!(("db1", OpenKind::MainDb), database_name_kind("db1"));
    assert_eq!(("db1", OpenKind::MainJournal), database_name_kind("db1-journal"));
    assert_eq!(("db1", OpenKind::Wal), database_name_kind("db1-wal"));
    assert_eq!(("db1", OpenKind::Wal), database_name_kind("db1-wal-wal-wal"));
    assert_eq!(("db1-wal", OpenKind::MainJournal), database_name_kind("db1-wal-journal"));
    assert_eq!(("sfvetil-1_2.db", OpenKind::TempDb), database_name_kind("sfvetil-1_2.db"));
    assert_eq!(("sfvetil-1_2.db", OpenKind::MainJournal), database_name_kind("sfvetil-1_2.db-journal"));
    assert_eq!(("", OpenKind::MainDb), database_name_kind(""));
    assert_eq!(("", OpenKind::MainJournal), database_name_kind("-journal"));
    assert_eq!(("journal", OpenKind::MainDb), database_name_kind("journal"));
}

#[test]
fn only_databases_and_journals_are_opened() {
    assert_eq!(Ok(("db1", OpenKind::MainDb)), open("db1", OpenKind::MainDb));
    assert_eq!(Ok(("db1", OpenKind::MainJournal)), open("db1-journal", OpenKind::MainJournal));
    assert_eq!(Ok(("sfvetil-a.db", OpenKind::TempDb)), open("sfvetil-a.db", OpenKind::TempDb));
    assert_eq!(Ok(("sfvetil-a.db", OpenKind::TempDb)), open("sfvetil-a.db", OpenKind::MainDb));
    assert_eq!(Ok(("db1", OpenKind::MainJournal)), open("db1-journal", OpenKind::TempJournal));
    assert_eq!(Err(ErrorKind::InvalidInput), open("db1-wal", OpenKind::Wal));
    assert_eq!(Err(ErrorKind::InvalidInput), open("db1-wal", OpenKind::MainDb));
    assert_eq!(Err(ErrorKind::InvalidInput), open("db1", OpenKind::MainJournal));
    assert_eq!(Err(ErrorKind::InvalidInput), open("db1-journal", OpenKind::MainDb));
    assert_eq!(Err(ErrorKind::InvalidInput), open("db1", OpenKind::TransientDb));
    assert_eq!(Err(ErrorKind::InvalidInput), open("db1", OpenKind::SubJournal));
    assert_eq!(Err(ErrorKind::InvalidInput), open("db1", OpenKind::SuperJournal));
    assert_eq!(Err(ErrorKind::InvalidInput), open("db1-wal", OpenKind::TempJournal));
}

#[test]
fn temporary_names() {
    assert_eq!("sfvetil-1_0.db", temporary_name(1, 0));
    assert_eq!("sfvetil-4d2_ff.db", temporary_name(1234, 255));
    assert_eq!("sfvetil-ffffffff_ffffffffffffffff.db", temporary_name(u32::MAX, u64::MAX));
    assert_eq!(OpenKind::TempDb, database_name_kind(&temporary_name(77, 3)).1);
}

#[test]
fn a_database_that_exists_is_not_created_anew() {
    let (read, write, create, create_new) =
        (OpenAccess::Read, OpenAccess::Write, OpenAccess::Create, OpenAccess::CreateNew);
    for access in [read, write, create] {
        assert_eq!(Ok(None), get_database(Found::Open, access));
        assert_eq!(Ok(None), get_database(Found::OnDisk, access));
        assert_eq!(Ok(Some(Some(pos(2, 2)))), get_database(Found::Remote(Some(pos(2, 2))), access));
        assert_eq!(Ok(Some(None)), get_database(Found::Remote(None), access));
    }
    assert_eq!(Err(ErrorKind::AlreadyExists), get_database(Found::Open, create_new));
    assert_eq!(Err(ErrorKind::AlreadyExists), get_database(Found::OnDisk, create_new));
    assert_eq!(Err(ErrorKind::AlreadyExists), get_database(Found::Remote(None), create_new));
    assert_eq!(Err(ErrorKind::NotFound), get_database(Found::Nowhere, read));
    assert_eq!(Err(ErrorKind::NotFound), get_database(Found::Nowhere, write));
    assert_eq!(Ok(Some(None)), get_database(Found::Nowhere, create));
    assert_eq!(Ok(Some(None)), get_database(Found::Nowhere, create_new));
}

#[test]
fn wal_refusal() {
    let plain = Database::new("db1", None, Some(&header(1, 0))).unwrap();
    let wal = Database::new("db1", None, Some(&header(2, 0))).unwrap();
    let vacuum = Database::new("db1", None, Some(&header(1, 1))).unwrap();
    for access in [OpenAccess::Write, OpenAccess::Create, OpenAccess::CreateNew] {
        assert_eq!(Ok(()), check_access(&plain, access));
        assert_eq!(Err(ErrorKind::Unsupported), check_access(&wal, access));
        assert_eq!(Err(ErrorKind::Unsupported), check_access(&vacuum, access));
    }
    assert_eq!(Ok(()), check_access(&wal, OpenAccess::Read));
    assert_eq!(Ok(()), check_access(&vacuum, OpenAccess::Read));
}

#[test]
fn journal_magic_recognition() {
    assert!(journal_write_commits(&[0u8; 28], 0));
    assert!(!journal_write_commits(&[0u8; 28], 28));
    assert!(!journal_write_commits(&[0u8; 27], 0));
    assert!(!journal_write_commits(&[0u8; 29], 0));
    let mut started = vec![0xd9, 0xd5, 0x05, 0xf9, 0x20, 0xa1, 0x63, 0xd7];
    started.resize(28, 0);
    assert!(!journal_write_commits(&started, 0));
    let mut almost = [0u8; 28];
    almost[27] = 1;
    assert!(!journal_write_commits(&almost, 0));
    assert!(journal_write_tells_page_size(&started, 0));
    assert!(journal_write_tells_page_size(&[0u8; 512], 0));
    assert!(!journal_write_tells_page_size(&[0u8; 27], 0));
    assert!(!journal_write_tells_page_size(&started, 1));
}

#[test]
fn per_query_budget() {
    let mut db = Database::new("db1", Some(pos(1, 1)), None).unwrap();
    let mut pager = Pager::new();
    let mut handle = LiteDatabaseHandle::new(&db);
    assert_eq!("db1", handle.handle_name());
    assert!(handle.lock(&mut db, LockKind::Shared));
    let page = PageNum::new(2).unwrap();
    let miss = Err(ErrorKind::NotFound);
    for _ in 0..64 {
        assert!(!handle.local_only());
        let got = pager.get_page_slice("db1", db.pos(), page, miss, handle.local_only(), None);
        assert!(matches!(got, Ok(Fetch::Remote { .. })));
        handle.read_exact_at(PageSource::Remote);
    }
    for _ in 0..3 {
        assert!(handle.local_only());
        let got = pager.get_page_slice("db1", db.pos(), page, miss, handle.local_only(), None);
        assert!(matches!(got, Err(ErrorKind::WouldBlock)));
        let got = pager.get_page_slice("db1", db.pos(), page, Ok(()), handle.local_only(), None);
        assert!(matches!(got, Ok(Fetch::Local)));
        handle.read_exact_at(PageSource::Local);
    }
    assert!(handle.lock(&mut db, LockKind::Reserved));
    assert!(handle.local_only());
    assert!(handle.lock(&mut db, LockKind::Unlocked));
    assert!(!handle.local_only());
}

#[test]
fn a_connection_takes_the_lock_alone() {
    let mut db = Database::new("db1", None, None).unwrap();
    let mut reader = LiteDatabaseHandle::new(&db);
    let mut syncing = LiteDatabaseHandle::new(&db);
    let mut third = LiteDatabaseHandle::new(&db);

    assert!(syncing.wants_sync(LockKind::Shared, true));
    assert!(!syncing.wants_sync(LockKind::Shared, false));
    assert!(!syncing.wants_sync(LockKind::Reserved, true));
    assert!(reader.lock(&mut db, LockKind::Shared));
    assert!(!reader.wants_sync(LockKind::Shared, true));

    // the reader is in the way: the connection waits as the one writer
    assert_eq!(Ok(false), syncing.acquire_exclusive(&mut db));
    assert_eq!(LockKind::Pending, syncing.current_lock());
    assert_eq!(Ok(false), syncing.acquire_exclusive(&mut db));
    // nobody else gets in meanwhile
    assert_eq!(Ok(false), third.acquire_exclusive(&mut db));
    assert_eq!(LockKind::Unlocked, third.current_lock());
    assert!(third.reserved(&db));
    assert!(reader.lock(&mut db, LockKind::Unlocked));
    assert_eq!(Ok(true), syncing.acquire_exclusive(&mut db));
    assert_eq!(LockKind::Exclusive, syncing.current_lock());
    assert_eq!(Err(ErrorKind::Other), syncing.acquire_exclusive(&mut db));
    syncing.release_exclusive(&mut db);
    assert_eq!(LockKind::Unlocked, syncing.current_lock());
    assert!(!third.reserved(&db));
    assert_eq!(Ok(true), third.acquire_exclusive(&mut db));
}

#[test]
fn a_second_writer_steps_back() {
    let mut db = Database::new("db1", None, None).unwrap();
    let mut writer = LiteDatabaseHandle::new(&db);
    let mut other = LiteDatabaseHandle::new(&db);
    assert!(writer.lock(&mut db, LockKind::Shared));
    assert!(writer.lock(&mut db, LockKind::Reserved));
    assert_eq!(Ok(false), other.acquire_exclusive(&mut db));
    assert_eq!(LockKind::Unlocked, other.current_lock());
    assert_eq!(0, db.readers());
    assert_eq!(Err(ErrorKind::Other), {
        let mut reading = LiteDatabaseHandle::new(&db);
        assert!(reading.lock(&mut db, LockKind::Shared));
        let r = reading.acquire_exclusive(&mut db);
        assert!(reading.lock(&mut db, LockKind::Unlocked));
        r
    });
}

#[test]
fn pragmas_are_read() {
    assert_eq!(Pragma::Refused, parse_pragma("journal_mode", Some("wal")));
    assert_eq!(Pragma::Refused, parse_pragma("journal_mode", Some("WAL")));
    assert_eq!(Pragma::Unknown, parse_pragma("journal_mode", Some("delete")));
    assert_eq!(Pragma::Unknown, parse_pragma("journal_mode", None));
    assert_eq!(Pragma::Unknown, parse_pragma("page_size", Some("512")));
    assert_eq!(Pragma::GetMinAvailableSpace, parse_pragma("litevfs_min_available_space", None));
    assert_eq!(Pragma::SetMinAvailableSpace(1_000_000), parse_pragma("litevfs_min_available_space", Some("1MB")));
    assert_eq!(Pragma::SetMinAvailableSpace(10 * 1024 * 1024), parse_pragma("litevfs_min_available_space", Some("10 MiB")));
    assert_eq!(Pragma::SetMinAvailableSpace(512), parse_pragma("litevfs_min_available_space", Some("512")));
    assert_eq!(Pragma::Invalid, parse_pragma("litevfs_min_available_space", Some("much")));
    assert_eq!(Pragma::GetMaxCachedPages, parse_pragma("litevfs_max_cached_pages", None));
    assert_eq!(Pragma::SetMaxCachedPages(100000), parse_pragma("litevfs_max_cached_pages", Some("100000")));
    assert_eq!(Pragma::Invalid, parse_pragma("litevfs_max_cached_pages", Some("-1")));
    assert_eq!(Pragma::Invalid, parse_pragma("litevfs_max_cached_pages", Some("")));
    assert_eq!(Pragma::SetMaxReqsPerQuery(1024), parse_pragma("litevfs_max_reqs_per_query", Some("1024")));
    assert_eq!(Pragma::SetMaxReqsPerQuery(0), parse_pragma("litevfs_max_reqs_per_query", Some("0")));
    assert_eq!(Pragma::Invalid, parse_pragma("litevfs_max_reqs_per_query", Some("1025")));
    assert_eq!(Pragma::GetMaxReqsPerQuery, parse_pragma("litevfs_max_reqs_per_query", None));
    assert_eq!(Pragma::SetMaxPrefetchPages(128), parse_pragma("litevfs_max_prefetch_pages", Some("128")));
    assert_eq!(Pragma::Invalid, parse_pragma("litevfs_max_prefetch_pages", Some("129")));
    assert_eq!(Pragma::GetMaxPrefetchPages, parse_pragma("litevfs_max_prefetch_pages", None));
    assert_eq!(Pragma::GetCacheSyncPeriod, parse_pragma("litevfs_cache_sync_period", None));
    assert_eq!(Pragma::SetCacheSyncPeriod(5 * SECOND), parse_pragma("litevfs_cache_sync_period", Some("5")));
    assert_eq!(Pragma::SetCacheSyncPeriod(SECOND / 2), parse_pragma("litevfs_cache_sync_period", Some("500ms")));
    assert_eq!(Pragma::SetCacheSyncPeriod(90 * SECOND), parse_pragma("litevfs_cache_sync_period", Some("1m 30s")));
    assert_eq!(Pragma::SetCacheSyncPeriod(0), parse_pragma("litevfs_cache_sync_period", Some("0")));
    assert_eq!(Pragma::Invalid, parse_pragma("litevfs_cache_sync_period", Some("soon")));
    // words with eleven digits are read, words with more are not
    assert_eq!(
        Pragma::SetCacheSyncPeriod(99_999_999_999 * SECOND),
        parse_pragma("litevfs_cache_sync_period", Some("99999999999s"))
    );
    assert_eq!(
        Pragma::SetCacheSyncPeriod(12345 * 60 * SECOND + 678_901 * 1_000_000),
        parse_pragma("litevfs_cache_sync_period", Some("12345m 678901ms"))
    );
    assert_eq!(Pragma::Invalid, parse_pragma("litevfs_cache_sync_period", Some("100000000000s")));
    assert_eq!(Pragma::Invalid, parse_pragma("litevfs_cache_sync_period", Some("123456m 678901ms")));
    assert_eq!(
        Pragma::Invalid,
        parse_pragma("litevfs_cache_sync_period", Some("18446744073709551615s 1000000000ns"))
    );
    assert_eq!(Pragma::Invalid, parse_pragma("litevfs_cache_sync_period", Some("")));
    assert_eq!(Pragma::AcquireLease, parse_pragma("litevfs_acquire_lease", None));
    assert_eq!(Pragma::Unknown, parse_pragma("litevfs_acquire_lease", Some("1")));
    assert_eq!(Pragma::ReleaseLease, parse_pragma("litevfs_release_lease", None));
    assert_eq!(Pragma::CacheDb, parse_pragma("litevfs_cache_db", None));
    assert_eq!(Pragma::Unknown, parse_pragma("litevfs_cache_db", Some("")));
}

fn value(outcome: PragmaOutcome) -> String {
    match outcome {
        PragmaOutcome::Value(v) => v,
        other => panic!("{:?}", other),
    }
}

#[test]
fn pragmas_are_carried_out() {
    let mut db = Database::new("db1", None, None).unwrap();
    let mut pager = Pager::new();
    let mut syncer = Syncer::new(SECOND);
    syncer.open_conn("db1", None, 0);
    let mut handle = LiteDatabaseHandle::new(&db);
    let mut ask = |name: &str, val: Option<&str>| handle.pragma(&mut pager, &mut syncer, &mut db, name, val);

    assert_eq!("10.0 MiB", value(ask("litevfs_min_available_space", None)));
    assert!(matches!(ask("litevfs_min_available_space", Some("1023")), PragmaOutcome::Done));
    assert_eq!("1023 B", value(ask("litevfs_min_available_space", None)));
    assert!(matches!(ask("litevfs_min_available_space", Some("0")), PragmaOutcome::Done));
    assert_eq!("0 B", value(ask("litevfs_min_available_space", None)));
    assert!(matches!(ask("litevfs_min_available_space", Some("2GiB")), PragmaOutcome::Done));
    assert_eq!("2.0 GiB", value(ask("litevfs_min_available_space", None)));
    assert_eq!("0", value(ask("litevfs_max_cached_pages", None)));
    assert!(matches!(ask("litevfs_max_cached_pages", Some("25")), PragmaOutcome::Done));
    assert_eq!("25", value(ask("litevfs_max_cached_pages", None)));
    assert_eq!("64", value(ask("litevfs_max_reqs_per_query", None)));
    assert!(matches!(ask("litevfs_max_reqs_per_query", Some("2")), PragmaOutcome::Done));
    assert_eq!("2", value(ask("litevfs_max_reqs_per_query", None)));
    assert!(matches!(ask("litevfs_max_reqs_per_query", Some("2000")), PragmaOutcome::Failed(ErrorKind::InvalidInput)));
    assert_eq!("2", value(ask("litevfs_max_reqs_per_query", None)));
    assert_eq!("1s", value(ask("litevfs_cache_sync_period", None)));
    assert!(matches!(ask("litevfs_cache_sync_period", Some("90")), PragmaOutcome::Done));
    assert_eq!("1m 30s", value(ask("litevfs_cache_sync_period", None)));
    assert_eq!("32", value(ask("litevfs_max_prefetch_pages", None)));
    assert!(matches!(ask("litevfs_max_prefetch_pages", Some("8")), PragmaOutcome::Done));
    assert_eq!("8", value(ask("litevfs_max_prefetch_pages", None)));
    assert!(matches!(ask("journal_mode", Some("Wal")), PragmaOutcome::Failed(ErrorKind::InvalidInput)));
    assert!(matches!(ask("litevfs_acquire_lease", None), PragmaOutcome::AcquireLease));
    assert!(matches!(ask("litevfs_release_lease", None), PragmaOutcome::ReleaseLease));
    assert!(matches!(ask("litevfs_cache_db", None), PragmaOutcome::CacheDb));
    assert!(matches!(ask("synchronous", Some("off")), PragmaOutcome::Unknown));

    assert_eq!(2 * 1024 * 1024 * 1024, pager.min_available_space());
    assert_eq!(25, pager.max_cached_pages());
    assert_eq!(90 * SECOND, syncer.sync_period("db1"));
    assert_eq!(8, db.prefetch_limit());
    // a budget of two
    handle.read_exact_at(PageSource::Remote);
    assert!(!handle.local_only());
    handle.read_exact_at(PageSource::Remote);
    assert!(handle.local_only());
}

#[test]
fn a_budget_of_zero_is_no_budget() {
    let mut db = Database::new("db1", None, None).unwrap();
    let mut pager = Pager::new();
    let mut syncer = Syncer::new(SECOND);
    syncer.open_conn("db1", None, 0);
    let mut handle = LiteDatabaseHandle::new(&db);
    handle.pragma(&mut pager, &mut syncer, &mut db, "litevfs_max_reqs_per_query", Some("0"));
    for _ in 0..2000 {
        handle.read_exact_at(PageSource::Remote);
    }
    assert!(!handle.local_only());
}

#[test]
fn a_journal_header_tells_the_page_size() {
    let mut db = Database::new("db1", None, None).unwrap();
    let mut hdr = vec![0xd9, 0xd5, 0x05, 0xf9, 0x20, 0xa1, 0x63, 0xd7];
    hdr.resize(28, 0);
    hdr[24..28].copy_from_slice(&4096u32.to_be_bytes());
    assert_eq!(Ok(false), litevfs::vfs::journal_write(&mut db, &[1, 2, 3], 512));
    assert!(db.page_size().is_err());
    // a header of zeros ends the transaction, whatever the database knows
    assert_eq!(Ok(true), litevfs::vfs::journal_write(&mut db, &[0u8; 28], 0));
    assert!(db.page_size().is_err());
    // a longer header must name a page size
    assert_eq!(Err(ErrorKind::InvalidData), litevfs::vfs::journal_write(&mut db, &[0u8; 29], 0));
    assert_eq!(Ok(false), litevfs::vfs::journal_write(&mut db, &hdr, 0));
    assert_eq!(4096, db.page_size().unwrap().into_inner());
    // the transaction ends with a header of zeros
    assert_eq!(Ok(true), litevfs::vfs::journal_write(&mut db, &[0u8; 28], 0));
    assert_eq!(4096, db.page_size().unwrap().into_inner());
    hdr[27] = 1;
    assert_eq!(Ok(false), litevfs::vfs::journal_write(&mut db, &hdr, 0));
}

#[test]
fn deleting_a_journal_ends_the_transaction() {
    use_deletion();
}

fn use_deletion() {
    assert_eq!(litevfs::vfs::Deletion::Journal("db1"), litevfs::vfs::delete("db1-journal"));
    assert_eq!(litevfs::vfs::Deletion::Nothing, litevfs::vfs::delete("db1"));
    assert_eq!(litevfs::vfs::Deletion::Nothing, litevfs::vfs::delete("db1-wal"));
    assert_eq!(litevfs::vfs::Deletion::Nothing, litevfs::vfs::delete("sfvetil-1_1.db"));
    assert_eq!(litevfs::vfs::Existence::Database("db1"), litevfs::vfs::file_exists("db1"));
    assert_eq!(litevfs::vfs::Existence::Journal("db1"), litevfs::vfs::file_exists("db1-journal"));
    assert_eq!(litevfs::vfs::Existence::Nowhere, litevfs::vfs::file_exists("db1-wal"));
    assert_eq!(litevfs::vfs::Existence::Nowhere, litevfs::vfs::file_exists("sfvetil-1_1.db"));
}

#[test]
fn the_sizes_of_a_database() {
    let mut db = Database::new("db1", None, Some(&header(1, 0))).unwrap();
    assert_eq!(Some(1), db.committed_db_size().map(|n| n.into_inner()));
    assert_eq!(Some(1), db.current_db_size().map(|n| n.into_inner()));
    db.apply_all_changed(&mut litevfs::pager::Pager::new(), &vec![]);
    assert_eq!(None, db.committed_db_size());
    assert_eq!(Some(1), db.current_db_size().map(|n| n.into_inner()));
}
