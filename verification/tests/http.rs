use litevfs::http::Header;

fn header(name: &str, value: &str) -> Header {
    let combined = format!("{}\0{}\0", name, value);
    Header(combined.into_bytes(), name.len() + 1)
}

#[test]
fn a_header_has_a_name_and_a_value() {
    let h = header("Lfsc-Instance-Id", "  abc \r\n");
    assert_eq!(Some("Lfsc-Instance-Id"), h.name());
    assert_eq!(Some("abc \r\n\0"), h.value());
    let h = Header(b"Name\0 value ".to_vec(), 5);
    assert_eq!(Some("Name"), h.name());
    assert_eq!(Some("value"), h.value());
}

#[test]
fn a_header_that_is_not_text() {
    let h = Header(vec![0xff, 0xfe, 0, b'v', 0], 3);
    assert_eq!(None, h.name());
    assert_eq!(Some("v\0"), h.value());
    let h = Header(vec![b'n', 0, 0xff], 2);
    assert_eq!(Some("n"), h.name());
    assert_eq!(None, h.value());
}

#[test]
fn a_header_with_a_wrong_place_for_the_value() {
    let h = Header(b"n\0v\0".to_vec(), 0);
    assert_eq!(None, h.name());
    assert_eq!(Some("n\0v\0"), h.value());
    let h = Header(b"n\0v\0".to_vec(), 5);
    assert_eq!(None, h.name());
    assert_eq!(None, h.value());
    let h = Header(b"n\0v\0".to_vec(), 4);
    assert_eq!(Some("n\0v"), h.name());
    assert_eq!(Some(""), h.value());
}
