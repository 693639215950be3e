use near_rust_allocator_proxy::symbols::{
    get_symbols, offsets_sorted, owner_linear, owner_sorted, parse_symbol_line, Symbol,
};

fn sym(offset: u64, name: &str) -> Symbol {
    Symbol::from_parts(offset, "T".to_string(), name.to_string(), name.to_string())
}

#[test]
fn symbol_line_is_parsed_and_demangled() {
    let s = parse_symbol_line("0000000000001000 T _ZN7example4main17h0123456789abcdefE").unwrap();
    assert_eq!(s.offset, 0x1000);
    assert_eq!(s.unk, "T");
    assert_eq!(s.raw_symbol, "_ZN7example4main17h0123456789abcdefE");
    assert_eq!(s.symbol, "example::main::h0123456789abcdef");
    let plain = parse_symbol_line("0000000000002000 t frame_dummy").unwrap();
    assert_eq!(plain.symbol, "frame_dummy");
}

#[test]
fn short_lines_are_passed_over() {
    assert!(parse_symbol_line("0000000000001000 T").is_none());
    assert!(parse_symbol_line("").is_none());
    let lines = vec![
        "                 U free@GLIBC_2.2.5".to_string(),
        "".to_string(),
        "0000000000001000 T foo".to_string(),
    ];
    let s = get_symbols(&lines);
    assert_eq!(s.len(), 2);
    assert_eq!(s[0].offset, 0);
    assert_eq!(s[0].unk, "U");
    assert_eq!(s[0].raw_symbol, "free@GLIBC_2.2.5");
    assert_eq!(s[1].raw_symbol, "foo");
}

#[test]
fn nearest_preceding_symbol() {
    let symbols = vec![sym(0x1000, "foo"), sym(0x2000, "bar")];
    assert!(offsets_sorted(&symbols));
    assert_eq!(owner_sorted(&symbols, 0x1500), Some(0));
    assert_eq!(owner_linear(&symbols, 0x1500), Some(0));
    assert_eq!(symbols[owner_sorted(&symbols, 0x1500).unwrap()].symbol, "foo");
    assert_eq!(owner_sorted(&symbols, 0x0500), None);
    assert_eq!(owner_linear(&symbols, 0x0500), None);
    assert_eq!(owner_sorted(&symbols, 0x2000), Some(1));
    assert_eq!(owner_sorted(&symbols, 0xffff), Some(1));
    assert_eq!(owner_sorted(&symbols, 0x1fff), Some(0));
}

#[test]
fn equal_offsets_resolve_to_the_last() {
    let symbols = vec![sym(0x1000, "a"), sym(0x1000, "b"), sym(0x3000, "c")];
    assert_eq!(owner_sorted(&symbols, 0x1000), Some(1));
    assert_eq!(owner_linear(&symbols, 0x1000), Some(1));
}

#[test]
fn unsorted_list_resolves_to_nearest() {
    let symbols = vec![sym(0x2000, "b"), sym(0x1000, "a")];
    assert!(!offsets_sorted(&symbols));
    assert_eq!(owner_linear(&symbols, 0x1800), Some(1));
    assert_eq!(owner_linear(&symbols, 0x2800), Some(0));
    assert_eq!(owner_linear(&symbols, 0x0800), None);
    assert!(offsets_sorted(&vec![]));
}
