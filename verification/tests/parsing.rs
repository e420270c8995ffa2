use mandelbrot::parse::{find_char, parse_i32, parse_pair, split_at_separator};

#[test]
fn test_parse_pair() {
    assert_eq!(parse_pair("", ','), None);
    assert_eq!(parse_pair("10,", ','), None);
    assert_eq!(parse_pair("10,12", ','), Some((10, 12)));
    assert_eq!(parse_pair("8x,12", ','), None);
}

#[test]
fn parse_pair_uses_first_separator() {
    assert_eq!(parse_pair("1,2,3", ','), None);
    assert_eq!(parse_pair("400x300", 'x'), Some((400, 300)));
    assert_eq!(parse_pair(",10", ','), None);
    assert_eq!(parse_pair("-3,+4", ','), Some((-3, 4)));
}

#[test]
fn parse_i32_grammar() {
    assert_eq!(parse_i32(""), None);
    assert_eq!(parse_i32("+"), None);
    assert_eq!(parse_i32("-"), None);
    assert_eq!(parse_i32("0"), Some(0));
    assert_eq!(parse_i32("-0"), Some(0));
    assert_eq!(parse_i32("00123"), Some(123));
    assert_eq!(parse_i32("+10"), Some(10));
    assert_eq!(parse_i32("10.2"), None);
    assert_eq!(parse_i32("1 2"), None);
    assert_eq!(parse_i32("--5"), None);
}

#[test]
fn parse_i32_range_edges() {
    assert_eq!(parse_i32("2147483647"), Some(i32::MAX));
    assert_eq!(parse_i32("2147483648"), None);
    assert_eq!(parse_i32("-2147483648"), Some(i32::MIN));
    assert_eq!(parse_i32("-2147483649"), None);
    assert_eq!(parse_i32("99999999999999999999"), None);
}

#[test]
fn find_char_first_occurrence() {
    assert_eq!(find_char("a,b,c", ','), Some(1));
    assert_eq!(find_char(",abc", ','), Some(0));
    assert_eq!(find_char("abc", ','), None);
    assert_eq!(find_char("", ','), None);
}

#[test]
fn split_complex_halves() {
    let parts = split_at_separator("1.2,-2.2", ',');
    assert_eq!(parts, Some(("1.2".to_string(), "-2.2".to_string())));
    let parts = split_at_separator(",3.3", ',');
    assert_eq!(parts, Some(("".to_string(), "3.3".to_string())));
    assert_eq!(split_at_separator("3.3", ','), None);
}
