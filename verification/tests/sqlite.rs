use litevfs::sqlite::{
    interior_table_or_index, master_table, prefetch_candidates, read_be16, read_be32,
    read_varint, type_size, varint_at,
};
use litevfs::types::PageNum;

fn pgno(n: u32) -> PageNum {
    PageNum::new(n).unwrap()
}

#[test]
fn big_endian_fields() {
    let data = [0x12u8, 0x34, 0x56, 0x78, 0x9a];
    assert_eq!(0x1234, read_be16(&data, 0));
    assert_eq!(0x789a, read_be16(&data, 3));
    assert_eq!(0x12345678, read_be32(&data, 0));
    assert_eq!(0x3456789a, read_be32(&data, 1));
}

#[test]
fn varint_of_one_byte() {
    let data = [0x7fu8, 0x01];
    let (n, rest) = read_varint(&data).unwrap();
    assert_eq!(127, n);
    assert_eq!(&[0x01u8][..], rest);
}

#[test]
fn varint_of_two_bytes() {
    let data = [0x81u8, 0x00];
    let (n, rest) = read_varint(&data).unwrap();
    assert_eq!(128, n);
    assert!(rest.is_empty());
    assert_eq!(Some((16383, 2)), varint_at(&[0xff, 0x7f], 0));
}

#[test]
fn varint_of_nine_bytes_uses_all_bits_of_the_last() {
    let data = [0xffu8; 9];
    let (n, rest) = read_varint(&data).unwrap();
    assert_eq!(-1, n);
    assert!(rest.is_empty());

    let data = [0x80u8, 0x80, 0x80, 0x80, 0x80, 0x80, 0x80, 0x80, 0xff, 0x55];
    let (n, rest) = read_varint(&data).unwrap();
    assert_eq!(255, n);
    assert_eq!(&[0x55u8][..], rest);
}

#[test]
fn varint_that_is_cut_off() {
    assert!(read_varint(&[]).is_none());
    assert!(read_varint(&[0x80]).is_none());
    assert!(read_varint(&[0xff, 0xff, 0xff]).is_none());
    assert_eq!(None, varint_at(&[0x01], 1));
    assert_eq!(None, varint_at(&[0x01], 7));
}

#[test]
fn sizes_of_serial_types() {
    assert_eq!(Some(0), type_size(0));
    assert_eq!(Some(1), type_size(1));
    assert_eq!(Some(2), type_size(2));
    assert_eq!(Some(3), type_size(3));
    assert_eq!(Some(4), type_size(4));
    assert_eq!(Some(6), type_size(5));
    assert_eq!(Some(8), type_size(6));
    assert_eq!(Some(8), type_size(7));
    assert_eq!(Some(0), type_size(8));
    assert_eq!(Some(0), type_size(9));
    assert_eq!(None, type_size(10));
    assert_eq!(None, type_size(11));
    assert_eq!(Some(0), type_size(12));
    assert_eq!(Some(0), type_size(13));
    assert_eq!(Some(1), type_size(14));
    assert_eq!(Some(1), type_size(15));
    assert_eq!(Some(44), type_size(100));
    assert_eq!(Some(44), type_size(101));
    assert_eq!(None, type_size(-1));
}

fn interior_page(kind: u8, header: usize, cells: &[(usize, u32)], rightmost: u32) -> Vec<u8> {
    let mut page = vec![0u8; 512];
    page[header] = kind;
    page[header + 3..header + 5].copy_from_slice(&(cells.len() as u16).to_be_bytes());
    page[header + 8..header + 12].copy_from_slice(&rightmost.to_be_bytes());
    for (i, (at, child)) in cells.iter().enumerate() {
        page[header + 12 + 2 * i..header + 14 + 2 * i].copy_from_slice(&(*at as u16).to_be_bytes());
        if at + 4 <= page.len() {
            page[*at..*at + 4].copy_from_slice(&child.to_be_bytes());
        }
    }
    page
}

#[test]
fn children_of_an_interior_table_page() {
    let page = interior_page(0x05, 0, &[(400, 7), (410, 3), (420, 0), (430, 7)], 9);
    let found = prefetch_candidates(&page, pgno(2)).unwrap();
    let got: Vec<u32> = found.to_vec().iter().map(|p| p.into_inner()).collect();
    assert_eq!(vec![3, 7, 9], got);
}

#[test]
fn children_of_an_interior_index_page_on_page_one() {
    let page = interior_page(0x02, 100, &[(300, 12)], 0);
    let found = prefetch_candidates(&page, pgno(1)).unwrap();
    let got: Vec<u32> = found.to_vec().iter().map(|p| p.into_inner()).collect();
    assert_eq!(vec![12], got);
}

#[test]
fn cells_outside_the_page_are_skipped() {
    let page = interior_page(0x05, 0, &[(510, 5), (600, 6), (100, 8)], 2);
    let found = interior_table_or_index(&page, 12, 3);
    let got: Vec<u32> = found.to_vec().iter().map(|p| p.into_inner()).collect();
    assert_eq!(vec![8], got);
}

#[test]
fn leaf_pages_lead_nowhere() {
    let mut page = vec![0u8; 512];
    page[0] = 0x0d;
    assert!(prefetch_candidates(&page, pgno(2)).is_none());
    page[0] = 0x0a;
    assert!(prefetch_candidates(&page, pgno(2)).is_none());
    assert!(prefetch_candidates(&[0x05, 0, 0], pgno(2)).is_none());
}

#[test]
fn a_pointer_array_that_does_not_fit_leads_nowhere() {
    let mut page = vec![0u8; 64];
    page[0] = 0x05;
    page[3] = 0x01;
    page[4] = 0x00;
    assert!(prefetch_candidates(&page, pgno(2)).is_none());
}

/// A schema table leaf on page 1 with one row per root page: type "table", name "t",
/// table name "t", root page, and an empty SQL text.
fn schema_page(roots: &[u32]) -> Vec<u8> {
    let mut page = vec![0u8; 1024];
    page[100] = 0x0d;
    page[103..105].copy_from_slice(&(roots.len() as u16).to_be_bytes());
    let mut at = 900usize;
    for (i, root) in roots.iter().enumerate() {
        // header: size 6, then the types text(5), text(1), text(1), int8, text(0)
        let record = [6u8, 23, 15, 15, 1, 13, b't', b'a', b'b', b'l', b'e', b't', b't', *root as u8];
        let mut cell = vec![record.len() as u8, (i + 1) as u8];
        cell.extend_from_slice(&record);
        page[at..at + cell.len()].copy_from_slice(&cell);
        page[108 + 2 * i..110 + 2 * i].copy_from_slice(&(at as u16).to_be_bytes());
        at += cell.len();
    }
    page
}

#[test]
fn roots_of_the_schema_table() {
    let page = schema_page(&[2, 5, 3, 5]);
    let found = prefetch_candidates(&page, pgno(1)).unwrap();
    let got: Vec<u32> = found.to_vec().iter().map(|p| p.into_inner()).collect();
    assert_eq!(vec![2, 3, 5], got);

    let again = master_table(&page, 108, 4);
    assert_eq!(3, again.len());
    assert!(again.contains(pgno(5)));
    assert!(!again.contains(pgno(4)));
}

#[test]
fn a_schema_row_with_a_reserved_type_is_skipped() {
    let mut page = schema_page(&[2, 4]);
    // the first row's first column gets the reserved type 10
    page[903] = 10;
    let found = prefetch_candidates(&page, pgno(1)).unwrap();
    let got: Vec<u32> = found.to_vec().iter().map(|p| p.into_inner()).collect();
    assert_eq!(vec![4], got);
}

#[test]
fn the_schema_table_is_only_read_on_page_one() {
    let page = schema_page(&[2]);
    assert!(prefetch_candidates(&page, pgno(3)).is_none());
}
