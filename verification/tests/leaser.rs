use litevfs::error::ErrorKind;
use litevfs::leaser::{Lease, Leaser, Unleased};

const SECOND: i128 = 1_000_000_000;

fn lease(id: &str, expires_at: i128) -> Lease {
    Lease { id: id.to_string(), expires_at }
}

#[test]
fn a_write_needs_a_lease() {
    let mut leaser = Leaser::new(SECOND as u128);
    assert_eq!(SECOND as u128, leaser.lease_duration());
    assert_eq!(Err(ErrorKind::PermissionDenied), leaser.get_lease("db1"));
    leaser.acquire_lease("db1", lease("l1", 10 * SECOND));
    assert_eq!(Ok("l1".to_string()), leaser.get_lease("db1"));
    assert_eq!(Err(ErrorKind::PermissionDenied), leaser.get_lease("db2"));
    leaser.acquire_lease("db1", lease("l2", 11 * SECOND));
    assert_eq!(Ok("l2".to_string()), leaser.get_lease("db1"));
}

#[test]
fn a_released_lease_is_handed_out() {
    let mut leaser = Leaser::new(SECOND as u128);
    leaser.acquire_lease("db1", lease("l1", 10 * SECOND));
    leaser.acquire_lease("db2", lease("l2", 10 * SECOND));
    let released = leaser.release_lease("db1").unwrap();
    assert_eq!("l1", released.id);
    assert_eq!(10 * SECOND, released.expires_at);
    assert!(leaser.release_lease("db1").is_none());
    assert_eq!(Err(ErrorKind::PermissionDenied), leaser.get_lease("db1"));
    assert_eq!(Ok("l2".to_string()), leaser.get_lease("db2"));
}

#[test]
fn the_lease_that_ends_first_is_refreshed_first() {
    let mut leaser = Leaser::new(3 * SECOND as u128);
    assert!(leaser.next_refresh(0).is_none());
    leaser.acquire_lease("db1", lease("l1", 20 * SECOND));
    leaser.acquire_lease("db2", lease("l2", 10 * SECOND));
    leaser.acquire_lease("db3", lease("l3", 30 * SECOND));

    let (db, next, wait) = leaser.next_refresh(4 * SECOND).unwrap();
    assert_eq!("db2", db);
    assert_eq!("l2", next.id);
    // 10 s - 4 s - 3 s / 3
    assert_eq!(5 * SECOND as u128, wait);

    let (_, _, wait) = leaser.next_refresh(9 * SECOND).unwrap();
    assert_eq!(0, wait);
    let (_, _, wait) = leaser.next_refresh(9 * SECOND - 1).unwrap();
    assert_eq!(1, wait);
    let (_, _, wait) = leaser.next_refresh(50 * SECOND).unwrap();
    assert_eq!(0, wait);
    let (_, _, wait) = leaser.next_refresh(-5 * SECOND).unwrap();
    assert_eq!(14 * SECOND as u128, wait);
}

#[test]
fn a_refreshed_lease_replaces_the_old_one() {
    let mut leaser = Leaser::new(SECOND as u128);
    leaser.acquire_lease("db1", lease("l1", 10 * SECOND));
    leaser.refreshed("db1", "l1", Some(lease("l1", 11 * SECOND)));
    let (_, held, _) = leaser.next_refresh(0).unwrap();
    assert_eq!(11 * SECOND, held.expires_at);

    // a lease that was released meanwhile is not taken up again
    leaser.release_lease("db1");
    leaser.refreshed("db1", "l1", Some(lease("l1", 12 * SECOND)));
    assert_eq!(Err(ErrorKind::PermissionDenied), leaser.get_lease("db1"));
}

#[test]
fn a_failed_refresh_gives_up_that_lease_only() {
    let mut leaser = Leaser::new(SECOND as u128);
    leaser.acquire_lease("db1", lease("l1", 10 * SECOND));
    leaser.refreshed("db1", "l1", None);
    assert_eq!(Err(ErrorKind::PermissionDenied), leaser.get_lease("db1"));

    leaser.acquire_lease("db1", lease("l2", 10 * SECOND));
    leaser.refreshed("db1", "l1", None);
    assert_eq!(Ok("l2".to_string()), leaser.get_lease("db1"));
    leaser.refreshed("other", "l1", None);
    assert_eq!(Ok("l2".to_string()), leaser.get_lease("db1"));
}

#[test]
fn a_build_without_leases_refuses_them() {
    let leaser = Unleased;
    assert_eq!(Err(ErrorKind::Unsupported), leaser.acquire_lease("db1"));
    assert_eq!(Err(ErrorKind::Unsupported), leaser.release_lease("db1"));
    assert_eq!(Err(ErrorKind::Unsupported), leaser.get_lease("db1"));
}
