use rwmem::errors::Error;
use rwmem::maps::MapsEntry;
use rwmem::phys::{check_phy_range, decode_phy_response, encode_phy_request, physical_subranges};

#[test]
fn unaligned_begin_is_rejected() {
    assert_eq!(check_phy_range(0x1001, 0x5000), Err(Error::NotAligned));
}

#[test]
fn unaligned_end_is_rejected() {
    assert_eq!(check_phy_range(0x1000, 0x5fff), Err(Error::NotAligned));
}

#[test]
fn inverted_range_is_rejected() {
    assert_eq!(
        check_phy_range(0x5000, 0x1000),
        Err(Error::BeginLargerThanEnd(0x5000, 0x1000))
    );
    assert_eq!(
        check_phy_range(0x1000, 0x1000),
        Err(Error::BeginLargerThanEnd(0x1000, 0x1000))
    );
}

#[test]
fn page_count_is_exact() {
    assert_eq!(check_phy_range(0x1000, 0x5000), Ok(4));
    assert_eq!(check_phy_range(0, 0x1000), Ok(1));
    assert_eq!(check_phy_range(0x1000, 0x0010_0000), Ok(255));
}

#[test]
fn phy_request_layout() {
    let buf = encode_phy_request(9, 0x1000, 0x5000);
    assert_eq!(buf.len(), 24);
    assert_eq!(&buf[0..8], &(9i64).to_le_bytes());
    assert_eq!(&buf[8..16], &0x1000u64.to_le_bytes());
    assert_eq!(&buf[16..24], &0x5000u64.to_le_bytes());
}

#[test]
fn phy_request_sized_for_many_pages() {
    // 400 pages need 50 bytes of bitmap, above the 24-byte request floor.
    let buf = encode_phy_request(9, 0, 400 * 0x1000);
    assert_eq!(buf.len(), 50);
}

#[test]
fn bitmap_has_one_bit_per_page() {
    let response = vec![0b0000_1011u8];
    let bitmap = decode_phy_response(0x1000, 0x5000, response);
    assert_eq!(bitmap.len(), 4);
    assert_eq!(bitmap.to_bools(), vec![true, true, false, true]);
}

#[test]
fn bitmap_crosses_byte_boundary() {
    let response = vec![0b1000_0000u8, 0b0000_0001u8];
    let bitmap = decode_phy_response(0, 9 * 0x1000, response);
    assert_eq!(bitmap.len(), 9);
    let bools = bitmap.to_bools();
    assert_eq!(
        bools,
        vec![false, false, false, false, false, false, false, true, true]
    );
}

fn rw_region(start: u64, end: u64) -> MapsEntry {
    MapsEntry {
        start,
        end,
        read_permission: true,
        write_permission: true,
        execute_permission: false,
        shared: false,
        name: String::from("anon"),
    }
}

#[test]
fn subranges_follow_the_bitmap() {
    let response = vec![0b0000_1011u8];
    let bitmap = decode_phy_response(0x1000, 0x5000, response);
    let entry = rw_region(0x1000, 0x5000);
    let subs = physical_subranges(&entry, &bitmap).expect("bitmap spans the region");
    assert_eq!(subs.len(), 2);
    assert_eq!((subs[0].start, subs[0].end), (0x1000, 0x3000));
    assert_eq!((subs[1].start, subs[1].end), (0x4000, 0x5000));
    assert_eq!(subs[0].name, "anon");
}

#[test]
fn subranges_reject_a_mismatched_bitmap() {
    let response = vec![0b0000_1011u8];
    let bitmap = decode_phy_response(0x1000, 0x5000, response);
    let entry = rw_region(0x1000, 0x6000);
    assert!(physical_subranges(&entry, &bitmap).is_none());
}
