use near_rust_allocator_proxy::smaps::{
    parse_region_line, read_smaps, region_pages, select_regions, Counter, Smap,
};

#[test]
fn region_line_with_mapped_file() {
    let s = parse_region_line("7f34d3290000-7f34e3a00000 r--p 00000000 00:00 0 /usr/bin/example")
        .unwrap();
    assert_eq!(s.from, 0x7f34d3290000);
    assert_eq!(s.to, 0x7f34e3a00000);
    assert_eq!(s.offset, 0);
    assert_eq!(s.mapped_file, Some("/usr/bin/example".to_string()));
}

#[test]
fn region_line_with_padding_and_offset() {
    let s = parse_region_line(
        "55d0c8e00000-55d0c8e21000 r-xp 0001a000 08:01 1048602                    /usr/bin/my tool",
    )
    .unwrap();
    assert_eq!(s.from, 0x55d0c8e00000);
    assert_eq!(s.to, 0x55d0c8e21000);
    assert_eq!(s.offset, 0x1a000);
    assert_eq!(s.mapped_file, Some("/usr/bin/my tool".to_string()));
}

#[test]
fn anonymous_region_has_no_file() {
    let s = parse_region_line("7ffd5a000000-7ffd5a021000 rw-p 00000000 00:00 0").unwrap();
    assert_eq!(s.mapped_file, None);
    let s = parse_region_line("7ffd5a000000-7ffd5a021000 rw-p 00000000 00:00 0    ").unwrap();
    assert_eq!(s.mapped_file, None);
}

#[test]
fn other_lines_are_not_regions() {
    assert!(parse_region_line("Size:                132 kB").is_none());
    assert!(parse_region_line("VmFlags: rd wr mr mw me ac sd").is_none());
    assert!(parse_region_line("7f34d3290000-7f34e3a00000 r--p").is_none());
    assert!(parse_region_line("").is_none());
}

#[test]
fn bad_hex_reads_as_zero() {
    let s = parse_region_line("zz-10 r--p 1g 00:00 0").unwrap();
    assert_eq!(s.from, 0);
    assert_eq!(s.to, 0x10);
    assert_eq!(s.offset, 0);
}

#[test]
fn listing_keeps_region_lines_in_order() {
    let lines = vec![
        "1000-3000 r--p 00000000 00:00 0 /bin/a".to_string(),
        "Rss:                  4 kB".to_string(),
        "4000-5000 rw-p 00000000 00:00 0".to_string(),
    ];
    let r = read_smaps(&lines);
    assert_eq!(r.len(), 2);
    assert_eq!(r[0].from, 0x1000);
    assert_eq!(r[0].mapped_file, Some("/bin/a".to_string()));
    assert_eq!(r[1].from, 0x4000);
    assert_eq!(r[1].mapped_file, None);
    let anon = select_regions(&r, false);
    assert_eq!(anon.len(), 1);
    assert_eq!(anon[0].from, 0x4000);
    let mapped = select_regions(&r, true);
    assert_eq!(mapped.len(), 1);
    assert_eq!(mapped[0].to, 0x3000);
}

#[test]
fn resident_pages_from_table_entries() {
    let region = Smap::new(0x10000, 0x14000, None, 0);
    assert_eq!(region.page_count(4096), 4);
    assert_eq!(region.pagemap_offset(4096), Some(0x10 * 8));
    let mut entries = vec![0u8; 32];
    entries[7] = 0x80;
    entries[23] = 0x81;
    entries[31] = 0x7f;
    assert_eq!(region_pages(&region, 4096, &entries), vec![0x10000, 0x12000]);
    // A short read leaves the later pages unknown.
    assert_eq!(region_pages(&region, 4096, &entries[..20]), vec![0x10000]);
}

#[test]
fn counters_merge_pointwise() {
    let mut c = Counter::default();
    c.merge(Counter::with_size(10));
    c.merge(Counter::with_size(5));
    assert_eq!(c, Counter { cnt: 2, size: 15 });
    let mut big = Counter { cnt: usize::MAX, size: 1 };
    big.merge(Counter::with_size(1));
    assert_eq!(big, Counter { cnt: usize::MAX, size: 2 });
}
