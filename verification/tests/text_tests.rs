use eastmoney::text::{
    decimal_string, fmt_zero_padded, join_strings, parse_i64, split_str, trim_end_str, trim_str,
};

fn strings(v: &[&str]) -> Vec<String> {
    v.iter().map(|s| s.to_string()).collect()
}

#[test]
fn split_on_a_separator() {
    assert_eq!(split_str("a,b,,c", ','), strings(&["a", "b", "", "c"]));
    assert_eq!(split_str("", ','), strings(&[""]));
    assert_eq!(split_str(",", ','), strings(&["", ""]));
    assert_eq!(split_str("2024-01-02,10.5,11", ','), strings(&["2024-01-02", "10.5", "11"]));
}

#[test]
fn joining_the_parts_gives_the_text_back() {
    for s in ["a,b,,c", "", ",", "润和,软件", "no separator"] {
        let parts = split_str(s, ',');
        assert_eq!(join_strings(&parts, ","), s);
    }
}

#[test]
fn join_with_a_separator() {
    assert_eq!(join_strings(&strings(&["0.300339", "1.600570"]), ","), "0.300339,1.600570");
    assert_eq!(join_strings(&Vec::new(), ","), "");
    assert_eq!(join_strings(&strings(&["a"]), ", "), "a");
}

#[test]
fn trimming() {
    assert_eq!(trim_str("  a b \n"), "a b");
    assert_eq!(trim_str("\u{3000}全角\u{3000}"), "全角");
    assert_eq!(trim_str("   "), "");
    assert_eq!(trim_end_str("  x  "), "  x");
    let once = trim_str(" \t cookie=1; \n");
    assert_eq!(trim_str(&once), once);
}

#[test]
fn parsing_integers() {
    assert_eq!(parse_i64("123"), Some(123));
    assert_eq!(parse_i64("-5"), Some(-5));
    assert_eq!(parse_i64("+7"), Some(7));
    assert_eq!(parse_i64("007"), Some(7));
    assert_eq!(parse_i64("9223372036854775807"), Some(i64::MAX));
    assert_eq!(parse_i64("-9223372036854775808"), Some(i64::MIN));
    assert_eq!(parse_i64("9223372036854775808"), None);
    assert_eq!(parse_i64(""), None);
    assert_eq!(parse_i64("-"), None);
    assert_eq!(parse_i64("1a"), None);
    assert_eq!(parse_i64(" 1"), None);
    assert_eq!(parse_i64("1.0"), None);
}

#[test]
fn decimal_text() {
    assert_eq!(decimal_string(0), "0");
    assert_eq!(decimal_string(12345), "12345");
    assert_eq!(decimal_string(u64::MAX), "18446744073709551615");
}

#[test]
fn zero_padded_text() {
    assert_eq!(fmt_zero_padded(5, 3), "005");
    assert_eq!(fmt_zero_padded(-5, 3), "-05");
    assert_eq!(fmt_zero_padded(1234, 2), "1234");
    assert_eq!(fmt_zero_padded(-7, 0), "-7");
    assert_eq!(fmt_zero_padded(0, 0), "0");
    assert_eq!(fmt_zero_padded(i64::MIN, 0), "-9223372036854775808");
    for n in [0i64, 7, -7, 93015, -123456, 2024] {
        assert_eq!(fmt_zero_padded(n, 6), format!("{:06}", n));
    }
}
