use thumbsim::memory::Memory;
use thumbsim::memory::MemoryAccessError;

#[test]
fn bytes_round_trip_through_a_writable_page() {
    let mut m = Memory::default();
    m.mmap(0x100, vec![0; 16], true);
    m.write_byte(0x104, 0xAB).unwrap();
    assert_eq!(m.read_byte(0x104).unwrap(), 0xAB);
    assert_eq!(m.read_byte(0x105).unwrap(), 0);
}

#[test]
fn unmapped_addresses_report_bad_address() {
    let m = Memory::default();
    assert_eq!(m.read_byte(4), Err(MemoryAccessError::BadAddress(4)));
    let mut m = Memory::default();
    assert_eq!(m.write_byte(9, 1), Err(MemoryAccessError::BadAddress(9)));
}

#[test]
fn read_only_pages_reject_writes() {
    let mut m = Memory::default();
    m.mmap(0x200, vec![1, 2, 3, 4], false);
    assert_eq!(m.read_byte(0x201).unwrap(), 2);
    assert_eq!(
        m.write_byte(0x201, 9),
        Err(MemoryAccessError::ReadOnlyAddress(0x201))
    );
}

#[test]
fn words_and_halfwords_are_little_endian() {
    let mut m = Memory::default();
    m.mmap(0x40, vec![0x78, 0x56, 0x34, 0x12], true);
    assert_eq!(m.read_u32(0x40).unwrap(), 0x1234_5678);
    assert_eq!(m.read_u16(0x40).unwrap(), 0x5678);
    assert_eq!(m.read_u16(0x42).unwrap(), 0x1234);
    m.write_bytes(0x40, &0xAABB_CCDDu32.to_le_bytes()).unwrap();
    assert_eq!(m.read_u32(0x40).unwrap(), 0xAABB_CCDD);
}

#[test]
fn reads_crossing_page_ends_fail() {
    let mut m = Memory::default();
    m.mmap(0x10, vec![0; 4], true);
    assert!(m.read_u32(0x10).is_ok());
    assert!(m.read_u32(0x12).is_err());
    assert!(m.read_bytes(0x10, 4).is_ok());
    assert!(m.read_bytes(0x10, 5).is_err());
}
