use near_rust_allocator_proxy::analyze::{
    attributed_bytes, attribute, get_mmaped_exe_regions, report, resolve_address, scan_page,
    sort_by_size, summarize, NameStyle, Resolution, Summary, SymbolKey,
};
use near_rust_allocator_proxy::header::{AllocHeader, HEADER_SIZE, MISSING_TRACE, SKIPPED_TRACE};
use near_rust_allocator_proxy::smaps::{Counter, Smap};
use near_rust_allocator_proxy::symbols::Symbol;
use std::collections::HashMap;

fn sym(offset: u64, raw: &str, name: &str) -> Symbol {
    Symbol::from_parts(offset, "T".to_string(), raw.to_string(), name.to_string())
}

fn put(buf: &mut [u8], at: usize, h: AllocHeader) {
    buf[at..at + HEADER_SIZE].copy_from_slice(&h.encode());
}

#[test]
fn page_scan_tallies_live_sampled_headers() {
    let mut buf = vec![0u8; 4096 + HEADER_SIZE];
    put(&mut buf, 0, AllocHeader::allocated(100, 1, 0x401000));
    put(&mut buf, 64, AllocHeader::allocated(50, 2, 0x401000));
    put(&mut buf, 128, AllocHeader::allocated(7, 2, 0x402000));
    let mut freed = AllocHeader::allocated(1000, 1, 0x401000);
    freed.mark_freed();
    put(&mut buf, 192, freed);
    put(&mut buf, 256, AllocHeader::allocated(1000, 1, SKIPPED_TRACE));
    put(&mut buf, 320, AllocHeader::allocated(1000, 1, MISSING_TRACE));
    put(&mut buf, 384, AllocHeader::allocated(1000, 1, 0));
    put(&mut buf, 448, AllocHeader::allocated(1000, 1, u64::MAX));
    put(&mut buf, 512, AllocHeader::allocated(0xffff_ffff, 1, 0x403000));
    // A header at the page's tail is read from the extra bytes.
    put(&mut buf, 4088, AllocHeader::allocated(9, 1, 0x404000));
    let mut tally: HashMap<u64, Counter> = HashMap::new();
    scan_page(&buf, 4096, &mut tally);
    assert_eq!(tally.len(), 3);
    assert_eq!(tally[&0x401000], Counter { cnt: 2, size: 150 });
    assert_eq!(tally[&0x402000], Counter { cnt: 1, size: 7 });
    assert_eq!(tally[&0x404000], Counter { cnt: 1, size: 9 });
    let entries: Vec<(u64, Counter)> = vec![(0x401000, tally[&0x401000]), (0x402000, tally[&0x402000])];
    assert_eq!(attributed_bytes(&entries), 157);
}

#[test]
fn one_mebibyte_block_is_attributed() {
    let mut buf = vec![0u8; 4096 + HEADER_SIZE];
    put(&mut buf, 0, AllocHeader::allocated(1 << 20, 1, 0x401500));
    let mut tally: HashMap<u64, Counter> = HashMap::new();
    scan_page(&buf, 4096, &mut tally);
    let entries: Vec<(u64, Counter)> = tally.into_iter().collect();
    let regions = vec![Smap::new(0x400000, 0x500000, Some("/bin/t".to_string()), 0)];
    let symbols = vec![sym(0x1000, "_ZN1t4mainE", "t::main"), sym(0x1400, "_ZN1t4workE", "t::work")];
    let rows = attribute(&entries, &regions, &symbols, NameStyle::Demangled);
    assert_eq!(rows.len(), 1);
    assert!(matches!(&rows[0].0, SymbolKey::Name(n) if n == "t::work"));
    assert_eq!(rows[0].1, Counter { cnt: 1, size: 1 << 20 });
    // 300 resident pages of 4 KiB hold the block; the rest is unaccounted.
    let s = summarize(300, 10, 4096, attributed_bytes(&entries)).unwrap();
    assert_eq!(
        s,
        Summary {
            resident_but_unaccounted_mb: (300 * 4096 - (1 << 20)) / (1 << 20),
            allocated_with_proxy_mb: 1,
            mapped_files_mb: 0,
            total_size_mb: 1,
        }
    );
}

#[test]
fn resolution_through_file_offsets() {
    let regions = vec![
        Smap::new(0x400000, 0x401000, Some("/bin/t".to_string()), 0),
        Smap::new(0x401000, 0x403000, Some("/bin/t".to_string()), 0x1000),
    ];
    let symbols = vec![sym(0x1000, "foo", "foo"), sym(0x2000, "bar", "bar")];
    assert_eq!(resolve_address(0x401500, &regions, &symbols, true), Resolution::Symbol(0));
    assert_eq!(resolve_address(0x401500, &regions, &symbols, false), Resolution::Symbol(0));
    assert_eq!(resolve_address(0x402000, &regions, &symbols, true), Resolution::Symbol(1));
    // Before the first symbol, and outside every region.
    assert_eq!(resolve_address(0x400500, &regions, &symbols, true), Resolution::Unresolved);
    assert_eq!(resolve_address(0x900000, &regions, &symbols, true), Resolution::Unresolved);
    let overlapping = vec![
        Smap::new(0x400000, 0x403000, Some("/bin/t".to_string()), 0x1000),
        Smap::new(0x401000, 0x403000, Some("/bin/t".to_string()), 0x1000),
    ];
    assert_eq!(resolve_address(0x401500, &overlapping, &symbols, true), Resolution::Ambiguous);
}

#[test]
fn report_keys_follow_the_style_and_merge() {
    let regions = vec![Smap::new(0x400000, 0x410000, Some("/bin/t".to_string()), 0)];
    let symbols = vec![sym(0x1000, "_ZN1t1fE", "t::f"), sym(0x2000, "_ZN1t1gE", "t::g")];
    let entries = vec![
        (0x401100u64, Counter { cnt: 1, size: 10 }),
        (0x402100u64, Counter { cnt: 2, size: 500 }),
        (0x401200u64, Counter { cnt: 3, size: 30 }),
        (0x900000u64, Counter { cnt: 1, size: 1 }),
    ];
    let rows = attribute(&entries, &regions, &symbols, NameStyle::Raw);
    assert_eq!(rows.len(), 3);
    let sorted = sort_by_size(&rows);
    assert!(matches!(&sorted[0].0, SymbolKey::Name(n) if n == "_ZN1t1gE"));
    assert_eq!(sorted[0].1, Counter { cnt: 2, size: 500 });
    assert!(matches!(&sorted[1].0, SymbolKey::Name(n) if n == "_ZN1t1fE"));
    assert_eq!(sorted[1].1, Counter { cnt: 4, size: 40 });
    assert!(matches!(sorted[2].0, SymbolKey::Address(0x900000)));
    let full = report(&entries, &regions, &symbols, NameStyle::Demangled);
    assert!(matches!(&full[0].0, SymbolKey::Name(n) if n == "t::g"));
    assert!(matches!(&full[1].0, SymbolKey::Name(n) if n == "t::f"));
    let by_address = attribute(&entries, &regions, &symbols, NameStyle::Address);
    assert_eq!(by_address.len(), 4);
    assert!(matches!(by_address[0].0, SymbolKey::Address(0x401100)));
}

#[test]
fn exe_regions_match_the_path() {
    let smaps = vec![
        Smap::new(0x1000, 0x2000, Some("/bin/t".to_string()), 0),
        Smap::new(0x2000, 0x3000, None, 0),
        Smap::new(0x3000, 0x4000, Some("/lib/libc.so".to_string()), 0),
        Smap::new(0x4000, 0x5000, Some("/bin/t".to_string()), 0x3000),
    ];
    let r = get_mmaped_exe_regions(&smaps, "/bin/t");
    assert_eq!(r.len(), 2);
    assert_eq!(r[0].from, 0x1000);
    assert_eq!(r[1].offset, 0x3000);
}

#[test]
fn summary_overflow_and_saturation() {
    assert_eq!(summarize(u64::MAX, 0, 4096, 0), None);
    let s = summarize(1, 0, 4096, 1 << 30).unwrap();
    assert_eq!(s.resident_but_unaccounted_mb, 0);
    assert_eq!(s.allocated_with_proxy_mb, 1024);
    assert_eq!(s.total_size_mb, 1024);
}
