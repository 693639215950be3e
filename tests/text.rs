use near_rust_allocator_proxy::text::split;

#[test]
fn split_keeps_empty_pieces() {
    assert_eq!(split("a b  c", ' '), vec!["a", "b", "", "c"]);
    assert_eq!(split("", ','), vec![""]);
    assert_eq!(split(",", ','), vec!["", ""]);
    assert_eq!(split("héllo wörld", 'ö'), vec!["héllo w", "rld"]);
}
