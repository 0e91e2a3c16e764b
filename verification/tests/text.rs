use newton::text::{parse_int_chars, split_chars, split_once_chars, trim_chars};

fn cs(s: &str) -> Vec<char> {
    s.chars().collect()
}

#[test]
fn trimming_and_splitting() {
    assert_eq!(trim_chars(&cs("  a b \t\u{3000}")), cs("a b"));
    assert_eq!(trim_chars(&cs(" \n ")), cs(""));
    assert_eq!(split_chars(&cs("a,,b"), ','), vec![cs("a"), cs(""), cs("b")]);
    assert_eq!(split_chars(&cs(""), ','), vec![cs("")]);
    assert_eq!(split_once_chars(&cs("x = 5 = 6"), &cs(" = ")), Some((cs("x"), cs("5 = 6"))));
    assert_eq!(split_once_chars(&cs("x=5"), &cs(" = ")), None);
}

#[test]
fn integers_parse_like_std() {
    assert_eq!(parse_int_chars(&cs("+12"), 10, 0, 255), Some(12));
    assert_eq!(parse_int_chars(&cs("-1"), 10, 0, 255), None);
    assert_eq!(parse_int_chars(&cs("256"), 10, 0, 255), None);
    assert_eq!(parse_int_chars(&cs("-128"), 10, -128, 127), Some(-128));
    assert_eq!(parse_int_chars(&cs("-129"), 10, -128, 127), None);
    assert_eq!(parse_int_chars(&cs("-"), 10, -128, 127), None);
    assert_eq!(parse_int_chars(&cs(""), 10, -128, 127), None);
    assert_eq!(parse_int_chars(&cs("fF"), 16, 0, 255), Some(255));
    assert_eq!(parse_int_chars(&cs("1 "), 10, 0, 255), None);
    assert_eq!(parse_int_chars(&cs("00000000000000000000000000007"), 10, 0, 255), Some(7));
}
