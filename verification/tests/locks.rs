use litevfs::locks::{LockKind, VfsLock};

#[test]
fn muiltiple_readers() {
    let mut vfs_lock = VfsLock::new();

    let mut conn1_lock = vfs_lock.conn_lock();
    let mut conn2_lock = vfs_lock.conn_lock();

    assert!(conn1_lock.acquire(&mut vfs_lock, LockKind::Shared));
    assert!(conn2_lock.acquire(&mut vfs_lock, LockKind::Shared));
    assert_eq!(2, vfs_lock.readers());
    assert_eq!(LockKind::Shared, conn1_lock.state());
    assert_eq!(LockKind::Shared, conn2_lock.state());
}

#[test]
fn reader_while_reserved() {
    let mut vfs_lock = VfsLock::new();

    let mut conn1_lock = vfs_lock.conn_lock();
    let mut conn2_lock = vfs_lock.conn_lock();

    assert!(conn1_lock.acquire(&mut vfs_lock, LockKind::Shared));
    assert!(conn1_lock.acquire(&mut vfs_lock, LockKind::Reserved));
    assert!(conn2_lock.acquire(&mut vfs_lock, LockKind::Shared));
    assert_eq!(1, vfs_lock.readers());
    assert!(vfs_lock.has_writer());
    assert_eq!(LockKind::Reserved, conn1_lock.state());
    assert_eq!(LockKind::Shared, conn2_lock.state());
}

#[test]
fn only_one_reserved() {
    let mut vfs_lock = VfsLock::new();

    let mut conn1_lock = vfs_lock.conn_lock();
    let mut conn2_lock = vfs_lock.conn_lock();

    assert!(conn1_lock.acquire(&mut vfs_lock, LockKind::Shared));
    assert!(conn1_lock.acquire(&mut vfs_lock, LockKind::Reserved));
    assert!(conn2_lock.acquire(&mut vfs_lock, LockKind::Shared));
    assert!(!conn2_lock.acquire(&mut vfs_lock, LockKind::Reserved));
    assert_eq!(1, vfs_lock.readers());
    assert!(vfs_lock.has_writer());
    assert_eq!(LockKind::Reserved, conn1_lock.state());
    assert_eq!(LockKind::Shared, conn2_lock.state());
}

#[test]
fn pending_if_readers() {
    let mut vfs_lock = VfsLock::new();

    let mut conn1_lock = vfs_lock.conn_lock();
    let mut conn2_lock = vfs_lock.conn_lock();

    assert!(conn1_lock.acquire(&mut vfs_lock, LockKind::Shared));
    assert!(conn2_lock.acquire(&mut vfs_lock, LockKind::Shared));
    assert!(conn1_lock.acquire(&mut vfs_lock, LockKind::Reserved));
    assert!(!conn1_lock.acquire(&mut vfs_lock, LockKind::Exclusive));
    assert_eq!(1, vfs_lock.readers());
    assert!(vfs_lock.has_writer());
    assert_eq!(LockKind::Pending, conn1_lock.state());
    assert_eq!(LockKind::Shared, conn2_lock.state());
}

#[test]
fn exclusive_if_no_readers() {
    let mut vfs_lock = VfsLock::new();

    let mut conn1_lock = vfs_lock.conn_lock();

    assert!(conn1_lock.acquire(&mut vfs_lock, LockKind::Shared));
    assert!(conn1_lock.acquire(&mut vfs_lock, LockKind::Reserved));
    assert!(conn1_lock.acquire(&mut vfs_lock, LockKind::Exclusive));
    assert_eq!(0, vfs_lock.readers());
    assert!(vfs_lock.has_writer());
    assert_eq!(LockKind::Exclusive, conn1_lock.state());
}

#[test]
fn pending_to_exclusive() {
    let mut vfs_lock = VfsLock::new();

    let mut conn1_lock = vfs_lock.conn_lock();
    let mut conn2_lock = vfs_lock.conn_lock();

    assert!(conn1_lock.acquire(&mut vfs_lock, LockKind::Shared));
    assert!(conn2_lock.acquire(&mut vfs_lock, LockKind::Shared));
    assert!(conn1_lock.acquire(&mut vfs_lock, LockKind::Reserved));
    assert!(!conn1_lock.acquire(&mut vfs_lock, LockKind::Exclusive));
    assert_eq!(1, vfs_lock.readers());
    assert!(vfs_lock.has_writer());
    assert_eq!(LockKind::Pending, conn1_lock.state());
    assert_eq!(LockKind::Shared, conn2_lock.state());

    assert!(conn2_lock.acquire(&mut vfs_lock, LockKind::Unlocked));
    assert!(conn1_lock.acquire(&mut vfs_lock, LockKind::Exclusive));
    assert_eq!(0, vfs_lock.readers());
    assert!(vfs_lock.has_writer());
    assert_eq!(LockKind::Exclusive, conn1_lock.state());
    assert_eq!(LockKind::Unlocked, conn2_lock.state());
}

#[test]
fn no_new_readers_while_pending() {
    let mut vfs_lock = VfsLock::new();

    let mut conn1_lock = vfs_lock.conn_lock();
    let mut conn2_lock = vfs_lock.conn_lock();

    assert!(conn1_lock.acquire(&mut vfs_lock, LockKind::Shared));
    assert!(conn2_lock.acquire(&mut vfs_lock, LockKind::Shared));
    assert!(conn1_lock.acquire(&mut vfs_lock, LockKind::Reserved));
    assert!(!conn1_lock.acquire(&mut vfs_lock, LockKind::Exclusive));

    let mut conn3_lock = vfs_lock.conn_lock();

    assert!(!conn3_lock.acquire(&mut vfs_lock, LockKind::Shared));
    assert_eq!(LockKind::Unlocked, conn3_lock.state());
}

#[test]
fn no_new_readers_while_exclusive() {
    let mut vfs_lock = VfsLock::new();

    let mut conn1_lock = vfs_lock.conn_lock();

    assert!(conn1_lock.acquire(&mut vfs_lock, LockKind::Shared));
    assert!(conn1_lock.acquire(&mut vfs_lock, LockKind::Reserved));
    assert!(conn1_lock.acquire(&mut vfs_lock, LockKind::Exclusive));

    let mut conn2_lock = vfs_lock.conn_lock();

    assert!(!conn2_lock.acquire(&mut vfs_lock, LockKind::Shared));
    assert_eq!(LockKind::Unlocked, conn2_lock.state());
}

#[test]
fn exclusive_from_shared() {
    let mut vfs_lock = VfsLock::new();

    let mut conn1_lock = vfs_lock.conn_lock();

    assert!(conn1_lock.acquire(&mut vfs_lock, LockKind::Shared));
    assert!(conn1_lock.acquire(&mut vfs_lock, LockKind::Exclusive));
    assert_eq!(0, vfs_lock.readers());
    assert!(vfs_lock.has_writer());
    assert_eq!(LockKind::Exclusive, conn1_lock.state());
}

#[test]
fn drop_unlocks() {
    let mut vfs_lock = VfsLock::new();

    {
        let mut conn1_lock = vfs_lock.conn_lock();
        assert!(conn1_lock.acquire(&mut vfs_lock, LockKind::Shared));
        assert_eq!(1, vfs_lock.readers());
        conn1_lock.release(&mut vfs_lock);
    }
    assert_eq!(0, vfs_lock.readers());

    {
        let mut conn1_lock = vfs_lock.conn_lock();
        assert!(conn1_lock.acquire(&mut vfs_lock, LockKind::Shared));
        assert!(conn1_lock.acquire(&mut vfs_lock, LockKind::Exclusive));
        assert!(vfs_lock.has_writer());
        conn1_lock.release(&mut vfs_lock);
    }
    assert!(!vfs_lock.has_writer());
}

#[test]
fn reserved_sees_other_writer() {
    let mut vfs_lock = VfsLock::new();
    let mut writer = vfs_lock.conn_lock();
    let idle = vfs_lock.conn_lock();

    assert!(!idle.reserved(&vfs_lock));
    assert!(writer.acquire(&mut vfs_lock, LockKind::Shared));
    assert!(writer.reserved(&vfs_lock));
    assert!(!idle.reserved(&vfs_lock));
    assert!(writer.acquire(&mut vfs_lock, LockKind::Reserved));
    assert!(idle.reserved(&vfs_lock));
    assert_eq!(0, idle.readers(&vfs_lock));
}

#[test]
fn pending_is_never_granted_on_request() {
    let mut vfs_lock = VfsLock::new();
    let mut conn = vfs_lock.conn_lock();

    assert!(!conn.acquire(&mut vfs_lock, LockKind::Pending));
    assert_eq!(LockKind::Unlocked, conn.state());
    assert!(conn.acquire(&mut vfs_lock, LockKind::Shared));
    assert!(!conn.acquire(&mut vfs_lock, LockKind::Pending));
    assert_eq!(LockKind::Shared, conn.state());
}

#[test]
fn writer_downgrades_to_reader() {
    let mut vfs_lock = VfsLock::new();
    let mut conn = vfs_lock.conn_lock();

    assert!(conn.acquire(&mut vfs_lock, LockKind::Shared));
    assert!(conn.acquire(&mut vfs_lock, LockKind::Exclusive));
    assert!(conn.acquire(&mut vfs_lock, LockKind::Shared));
    assert_eq!(1, vfs_lock.readers());
    assert!(!vfs_lock.has_writer());
}

#[test]
fn two_connections_never_both_exclusive() {
    let mut vfs_lock = VfsLock::new();
    let mut a = vfs_lock.conn_lock();
    let mut b = vfs_lock.conn_lock();

    assert!(a.acquire(&mut vfs_lock, LockKind::Exclusive));
    assert!(!b.acquire(&mut vfs_lock, LockKind::Exclusive));
    assert_eq!(LockKind::Unlocked, b.state());
    assert!(!b.acquire(&mut vfs_lock, LockKind::Shared));
    assert!(a.acquire(&mut vfs_lock, LockKind::Unlocked));
    assert!(b.acquire(&mut vfs_lock, LockKind::Exclusive));
    assert_eq!(LockKind::Unlocked, a.state());
}
