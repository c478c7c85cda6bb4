use grafo::{convert_vector_string_to_u64, inputline_vector_u64, parse_u64, splitline};

#[test]
fn splitline_drops_all_white_space() {
    assert_eq!(
        splitline("  12 7\t3\n".to_string()),
        vec!["12".to_string(), "7".to_string(), "3".to_string()]
    );
    assert_eq!(splitline("".to_string()), Vec::<String>::new());
    assert_eq!(splitline(" \u{3000} ".to_string()), Vec::<String>::new());
    assert_eq!(
        splitline("a\u{a0}bc".to_string()),
        vec!["a".to_string(), "bc".to_string()]
    );
}

#[test]
fn parse_u64_reads_decimal_text() {
    assert_eq!(parse_u64("0"), Some(0));
    assert_eq!(parse_u64("+5"), Some(5));
    assert_eq!(parse_u64("0042"), Some(42));
    assert_eq!(parse_u64("18446744073709551615"), Some(u64::MAX));
    assert_eq!(parse_u64("18446744073709551616"), None);
    assert_eq!(parse_u64("-5"), None);
    assert_eq!(parse_u64("+"), None);
    assert_eq!(parse_u64(""), None);
    assert_eq!(parse_u64("1x"), None);
}

#[test]
fn convert_vector_string_to_u64_reads_each() {
    let items = vec!["3".to_string(), "10".to_string()];
    assert_eq!(convert_vector_string_to_u64(items), Some(vec![3, 10]));
    let bad = vec!["3".to_string(), "ten".to_string()];
    assert_eq!(convert_vector_string_to_u64(bad), None);
}

#[test]
fn inputline_vector_u64_reads_a_line() {
    assert_eq!(inputline_vector_u64("4 0 1\n".to_string()), Some(vec![4, 0, 1]));
    assert_eq!(inputline_vector_u64("\n".to_string()), Some(vec![]));
    assert_eq!(inputline_vector_u64("1 2 x".to_string()), None);
}
