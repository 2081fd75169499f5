use frontmatter_gen::text::decimal_string;
use frontmatter_gen::parse_usize;

#[test]
fn decimal_text_of_numbers() {
    assert_eq!(decimal_string(0), "0");
    assert_eq!(decimal_string(7), "7");
    assert_eq!(decimal_string(42), "42");
    assert_eq!(decimal_string(1000), "1000");
    assert_eq!(decimal_string(usize::MAX), usize::MAX.to_string());
}

#[test]
fn decimal_text_reads_back() {
    for n in [0usize, 9, 10, 65535, 1048576, usize::MAX] {
        assert_eq!(parse_usize(&decimal_string(n)), Some(n));
    }
}
