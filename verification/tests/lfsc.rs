use litevfs::error::ErrorKind;
use litevfs::lfsc::{
    deserialize, pgnos_to_string, pos_to_string, serialize, status_error, Client, Error, LeaseOp,
    LfscError, LfscErrorRepr,
};
use litevfs::types::{Checksum, PageNum, Pos, TXID};

fn pos(txid: u64, sum: u64) -> Pos {
    Pos { txid: TXID::new(txid).unwrap(), post_apply_checksum: Checksum::new(sum) }
}

fn client() -> Client {
    Client::builder().token("secret").build()
}

fn header<'a>(headers: &'a [(String, String)], name: &str) -> Option<&'a str> {
    headers.iter().find(|h| h.0 == name).map(|h| h.1.as_str())
}

#[test]
fn positions_on_the_wire() {
    let (txid, sum) = serialize(&Some(pos(0x123, 0x456)));
    assert_eq!("0000000000000123", txid);
    assert_eq!("8000000000000456", sum);
    let (txid, sum) = serialize(&None);
    assert_eq!("0000000000000000", txid);
    assert_eq!("0000000000000000", sum);
    assert_eq!("0000000000000005/8000000000000abc", pos_to_string(&pos(5, 0xabc)));
}

#[test]
fn positions_from_the_wire() {
    assert_eq!(Ok(Some(pos(0x123, 0x456))), deserialize("0000000000000123", "8000000000000456"));
    assert_eq!(Ok(Some(pos(0x123, 0x456))), deserialize("123", "456"));
    assert_eq!(Ok(None), deserialize("0000000000000000", "0000000000000000"));
    assert_eq!(Ok(None), deserialize("0", "0"));
    assert_eq!(Err(ErrorKind::InvalidData), deserialize("0", "1"));
    assert_eq!(Err(ErrorKind::InvalidData), deserialize("", "1"));
    assert_eq!(Err(ErrorKind::InvalidData), deserialize("1", "xyz"));
    assert_eq!(Err(ErrorKind::InvalidData), deserialize("10000000000000000", "1"));
    assert_eq!(Ok(Some(pos(1, 0))), deserialize("1", "0"));
}

#[test]
fn failures_are_reported_as_io_failures() {
    let refused = |http_code| {
        Error::Lfsc(LfscError { http_code, code: "E".to_string(), error: "e".to_string() })
    };
    assert_eq!(ErrorKind::Other, Error::Transport("down".to_string()).kind());
    assert_eq!(ErrorKind::InvalidData, Error::PosMismatch(pos(1, 1)).kind());
    assert_eq!(ErrorKind::NotFound, refused(404).kind());
    assert_eq!(ErrorKind::AlreadyExists, refused(409).kind());
    assert_eq!(ErrorKind::Other, refused(500).kind());
    assert_eq!(ErrorKind::WouldBlock, Error::Body(ErrorKind::WouldBlock).kind());
    assert_eq!(ErrorKind::Other, Error::Env("unset".to_string()).kind());
}

#[test]
fn refusals_in_words() {
    let e = LfscError { http_code: 404, code: "ENOTFOUND".to_string(), error: "no such database".to_string() };
    assert_eq!("notfound", e.label());
    assert_eq!("notfound (ENOTFOUND): no such database", e.describe());
    for (code, label) in [(400, "validation"), (401, "auth"), (409, "conflict"), (422, "unprocessable"), (500, "unknown")] {
        let e = LfscError { http_code: code, code: String::new(), error: String::new() };
        assert_eq!(label, e.label());
    }
}

#[test]
fn a_mismatch_of_positions_is_told_apart() {
    let repr = |code: &str, pos| LfscErrorRepr { code: code.to_string(), error: "e".to_string(), pos };
    match status_error(409, repr("EPOSMISMATCH", Some(pos(7, 1)))) {
        Error::PosMismatch(at) => assert_eq!(pos(7, 1), at),
        other => panic!("{:?}", other),
    }
    match status_error(409, repr("EPOSMISMATCH", None)) {
        Error::Lfsc(e) => {
            assert_eq!(409, e.http_code);
            assert_eq!("EPOSMISMATCH", e.code);
            assert_eq!("e", e.error);
        }
        other => panic!("{:?}", other),
    }
    assert!(matches!(status_error(404, repr("ENOTFOUND", Some(pos(7, 1)))), Error::Lfsc(_)));
}

#[test]
fn page_numbers_in_a_request() {
    let pgno = |n| PageNum::new(n).unwrap();
    assert_eq!("", pgnos_to_string(&vec![]));
    assert_eq!("7", pgnos_to_string(&vec![pgno(7)]));
    assert_eq!("1,20,4294967295", pgnos_to_string(&vec![pgno(1), pgno(20), pgno(u32::MAX)]));
}

#[test]
fn the_request_for_positions() {
    let req = client().pos_map().unwrap();
    assert_eq!("GET", req.method);
    assert_eq!("https://litefs.fly.io/pos", req.url);
    assert_eq!(vec![("Authorization".to_string(), "secret".to_string())], req.headers);
    assert_eq!("https://litefs.fly.io/info", client().info().unwrap().url);
    let req = client().sync().unwrap();
    assert_eq!("POST", req.method);
    assert_eq!("https://litefs.fly.io/sync", req.url);
}

#[test]
fn the_request_for_pages() {
    let client = Client::builder().host("http://localhost:20202/base").cluster("c 1").build();
    let pgnos = vec![PageNum::new(1).unwrap(), PageNum::new(2).unwrap()];
    let req = client.get_pages("db&1", &pos(5, 0xabc), &pgnos).unwrap();
    assert_eq!("GET", req.method);
    assert_eq!(
        "http://localhost:20202/db/page?db=db%261&pos=0000000000000005%2F8000000000000abc&pgno=1%2C2&cluster=c+1",
        req.url
    );
    assert!(req.headers.is_empty());
}

#[test]
fn the_request_that_submits_a_transaction() {
    let req = client().write_tx("db1", 4196, "lease-1").unwrap();
    assert_eq!("POST", req.method);
    assert_eq!("https://litefs.fly.io/db/tx?db=db1", req.url);
    assert_eq!(Some("secret"), header(&req.headers, "Authorization"));
    assert_eq!(Some("4196"), header(&req.headers, "Content-Length"));
    assert_eq!(Some("lease-1"), header(&req.headers, "Lfsc-Lease-Id"));
}

#[test]
fn the_requests_for_changes_and_leases() {
    let c = client();
    assert_eq!("https://litefs.fly.io/db/sync?db=db1", c.sync_db("db1", &None).unwrap().url);
    assert_eq!(
        "https://litefs.fly.io/db/sync?db=db1&pos=0000000000000002%2F8000000000000001",
        c.sync_db("db1", &Some(pos(2, 1))).unwrap().url
    );
    let req = c.acquire_lease("db1", &LeaseOp::Acquire(1000)).unwrap();
    assert_eq!("POST", req.method);
    assert_eq!("https://litefs.fly.io/lease?db=db1&duration=1000", req.url);
    let req = c.acquire_lease("db1", &LeaseOp::Refresh("abc".to_string(), 1500)).unwrap();
    assert_eq!("https://litefs.fly.io/lease?db=db1&id=abc&duration=1500", req.url);
    let req = c.release_lease("db1", "abc").unwrap();
    assert_eq!("DELETE", req.method);
    assert_eq!("https://litefs.fly.io/lease?db=db1&id=abc", req.url);
}

#[test]
fn a_host_that_is_no_url_gives_no_request() {
    let client = Client::builder().host("not a url").build();
    assert!(matches!(client.pos_map(), Err(Error::Env(_))));
}

#[test]
fn requests_follow_the_instance_that_answered() {
    let mut c = client();
    c.set_cluster_id("LFSC0123456789ABCDEF".to_string());
    c.process_response(Some("instance-1"));
    let req = c.pos_map().unwrap();
    assert_eq!(
        vec![
            ("Authorization".to_string(), "secret".to_string()),
            ("fly-force-instance-id".to_string(), "instance-1".to_string()),
            ("Litefs-Cluster-Id".to_string(), "LFSC0123456789ABCDEF".to_string()),
        ],
        req.headers
    );
    c.process_response(Some("instance-2"));
    assert_eq!(Some("instance-2"), header(&c.pos_map().unwrap().headers, "fly-force-instance-id"));
    c.process_response(None);
    assert_eq!(None, header(&c.pos_map().unwrap().headers, "fly-force-instance-id"));
}

#[test]
fn the_client_of_the_environment() {
    assert!(matches!(Client::from_env(None, None, None), Err(Error::Env(_))));
    assert!(matches!(Client::from_env(Some("t"), None, Some("::")), Err(Error::Env(_))));
    let c = Client::from_env(Some("t"), Some("cl"), Some("http://localhost:1")).unwrap();
    let req = c.pos_map().unwrap();
    assert_eq!("http://localhost:1/pos?cluster=cl", req.url);
    assert_eq!(Some("t"), header(&req.headers, "Authorization"));
    let id = header(&req.headers, "Litefs-Cluster-Id").unwrap();
    assert_eq!(20, id.len());
    assert!(id.starts_with("LFSC"));
    assert!(id[4..].chars().all(|c| c.is_ascii_digit() || ('A'..='F').contains(&c)));
}

#[test]
fn cluster_ids_are_upper_case_hex() {
    assert_eq!("LFSC00FF10ABCDEF0199", Client::cluster_id_from(&[0x00, 0xff, 0x10, 0xab, 0xcd, 0xef, 0x01, 0x99]));
    assert_eq!("LFSC", Client::cluster_id_from(&[]));
    assert_eq!(20, Client::generate_cluster_id().len());
}
