use near_rust_allocator_proxy::header::{
    header_offset, padded_size, AllocHeader, HEADER_SIZE, MAGIC_ALLOCATED, MAGIC_FREED,
};

#[test]
fn header_encodes_little_endian_words() {
    let h = AllocHeader::allocated(0x0102, 7, 0x55555555a000);
    let b = h.encode();
    assert_eq!(b.len(), HEADER_SIZE);
    assert_eq!(&b[0..8], &MAGIC_ALLOCATED.to_le_bytes());
    assert_eq!(&b[8..16], &[0x02, 0x01, 0, 0, 0, 0, 0, 0]);
    assert_eq!(&b[16..24], &[7, 0, 0, 0, 0, 0, 0, 0]);
    assert_eq!(&b[24..32], &0x55555555a000u64.to_le_bytes());
}

#[test]
fn header_read_back_after_allocation_and_free() {
    let mut h = AllocHeader::allocated(4096, 42, 0x401000);
    let back = AllocHeader::decode(&h.encode(), 0);
    assert!(back.is_allocated());
    assert!(!back.is_freed());
    assert!(back.is_valid());
    assert_eq!(back.size(), 4096);
    assert_eq!(back.tid(), 42);
    assert_eq!(back.frame(), 0x401000);
    h.mark_freed();
    let back = AllocHeader::decode(&h.encode(), 0);
    assert!(back.is_freed());
    assert!(!back.is_allocated());
    assert!(back.is_valid());
    assert_eq!(back.magic, MAGIC_FREED);
    assert_eq!(back.size(), 4096);
}

#[test]
fn header_decodes_at_offset() {
    let mut buf = vec![0xffu8; 8];
    buf.extend(AllocHeader::allocated(10, 3, 99).encode());
    let h = AllocHeader::decode(&buf, 8);
    assert_eq!(h, AllocHeader::allocated(10, 3, 99));
}

#[test]
fn foreign_bytes_are_not_a_valid_header() {
    let h = AllocHeader::decode(&[0u8; 32], 0);
    assert!(!h.is_valid());
    assert!(!h.is_allocated());
    assert!(!h.is_freed());
}

#[test]
fn padded_size_adds_header_and_checks_layout() {
    assert_eq!(padded_size(100, 8), Some(132));
    assert_eq!(padded_size(1, 1), Some(33));
    assert_eq!(padded_size(100, 0), None);
    assert_eq!(padded_size(100, 24), None);
    assert_eq!(padded_size(isize::MAX as usize, 8), None);
    assert_eq!(padded_size(isize::MAX as usize - 32, 1), Some(isize::MAX as usize));
    assert_eq!(padded_size(isize::MAX as usize - 32, 2), None);
    // A larger alignment moves the payload by a whole alignment unit.
    assert_eq!(padded_size(100, 64), Some(164));
    assert_eq!(padded_size(100, 4096), Some(4196));
}

#[test]
fn header_offset_keeps_alignment() {
    assert_eq!(header_offset(1), 32);
    assert_eq!(header_offset(16), 32);
    assert_eq!(header_offset(32), 32);
    assert_eq!(header_offset(64), 64);
    assert_eq!(header_offset(4096), 4096);
}
