use hadith_api::{page_bounds, parse_i32, query_bounds, PageError};

#[test]
fn parse_i32_reads_decimal_numbers() {
    assert_eq!(parse_i32("0"), Some(0));
    assert_eq!(parse_i32("42"), Some(42));
    assert_eq!(parse_i32("-7"), Some(-7));
    assert_eq!(parse_i32("+3"), Some(3));
    assert_eq!(parse_i32("007"), Some(7));
    assert_eq!(parse_i32("2147483647"), Some(i32::MAX));
    assert_eq!(parse_i32("-2147483648"), Some(i32::MIN));
}

#[test]
fn parse_i32_refuses_what_is_no_i32() {
    assert_eq!(parse_i32(""), None);
    assert_eq!(parse_i32("-"), None);
    assert_eq!(parse_i32("+"), None);
    assert_eq!(parse_i32("abc"), None);
    assert_eq!(parse_i32("12a"), None);
    assert_eq!(parse_i32(" 12"), None);
    assert_eq!(parse_i32("1.5"), None);
    assert_eq!(parse_i32("2147483648"), None);
    assert_eq!(parse_i32("-2147483649"), None);
    assert_eq!(parse_i32("99999999999999999999"), None);
    assert_eq!(parse_i32("99999999999x"), None);
}

#[test]
fn parse_i32_agrees_with_std() {
    for s in ["1", "-1", "+0", "-0", "65536", "--1", "+-1", "1-", "\u{663}", "2147483650"] {
        assert_eq!(parse_i32(s), s.parse::<i32>().ok(), "{}", s);
    }
}

#[test]
fn page_bounds_default_to_zero_and_five() {
    assert_eq!(page_bounds(&None, &None), Ok((0, 5)));
    assert_eq!(page_bounds(&Some("10".to_string()), &None), Ok((10, 5)));
    assert_eq!(page_bounds(&None, &Some("3".to_string())), Ok((0, 3)));
    assert_eq!(page_bounds(&Some("-2".to_string()), &Some("0".to_string())), Ok((-2, 0)));
}

#[test]
fn page_bounds_refuse_malformed_values() {
    assert_eq!(page_bounds(&Some("ten".to_string()), &None), Err(PageError::Malformed));
    assert_eq!(page_bounds(&None, &Some("".to_string())), Err(PageError::Malformed));
}

#[test]
fn query_bounds_reads_the_query_string() {
    assert_eq!(query_bounds(""), Ok((0, 5)));
    assert_eq!(query_bounds("offset=10&limit=5"), Ok((10, 5)));
    assert_eq!(query_bounds("?limit=3"), Ok((0, 3)));
    assert_eq!(query_bounds("limit=2&offset=4&foo=bar"), Ok((4, 2)));
    assert_eq!(query_bounds("limit=%31%32"), Ok((0, 12)));
    assert_eq!(query_bounds("limit=x"), Err(PageError::Malformed));
    assert_eq!(query_bounds("offset"), Err(PageError::Malformed));
}

#[test]
fn query_bounds_refuses_a_query_that_is_not_ascii() {
    assert_eq!(query_bounds("a=1&\u{e9}=2"), Err(PageError::Malformed));
}
