use p1meter::decimal::parse_thousandths;
use p1meter::lookup::{get_values_by_id, ParseError};

const TELEGRAM: &str = "\u{0}\n/KFM5KAIFA-METER\r\n\r\n1-3:0.2.8(42)\r\n0-0:1.0.0(210212094443W)\r\n0-0:96.1.1(4530303235303030303634383435373136)\r\n1-0:1.8.1(007392.132*kWh)\r\n1-0:1.8.2(007139.800*kWh)\r\n1-0:2.8.1(001795.226*kWh)\r\n1-0:2.8.2(004446.275*kWh)\r\n0-0:96.14.0(0002)\r\n1-0:1.7.0(00.131*kW)\r\n1-0:2.7.0(00.000*kW)\r\n0-0:96.7.21(00001)\r\n0-0:96.7.9(00001)\r\n1-0:99.97.0(2)(0-0:96.7.19)(181206112732W)(0000007692*s)(000101000001W)(2147483647*s)\r\n1-0:32.32.0(00000)\r\n1-0:32.36.0(00000)\r\n0-0:96.13.1()\r\n0-0:96.13.0()\r\n1-0:31.7.0(002*A)\r\n1-0:21.7.0(00.123*kW)\r\n1-0:22.7.0(00.000*kW)\r\n0-1:24.1.0(003)\r\n0-1:96.1.0(4730303331303033333930303231353136)\r\n0-1:24.2.1(210205130000W)(07025.512*m3)\r\n!8234\r\n";

fn num(s: &str) -> Option<i64> {
    let cs: Vec<char> = s.chars().collect();
    parse_thousandths(&cs)
}

#[test]
fn lookup_returns_all_groups_in_order() {
    let v = get_values_by_id("0-1:24.2.1", TELEGRAM).unwrap();
    assert_eq!(v, vec!["210205130000W".to_string(), "07025.512*m3".to_string()]);
}

#[test]
fn lookup_single_group() {
    let v = get_values_by_id("1-0:1.7.0", TELEGRAM).unwrap();
    assert_eq!(v, vec!["00.131*kW".to_string()]);
}

#[test]
fn lookup_many_groups() {
    let v = get_values_by_id("1-0:99.97.0", TELEGRAM).unwrap();
    assert_eq!(v.len(), 6);
    assert_eq!(v[1], "0-0:96.7.19");
    assert_eq!(v[5], "2147483647*s");
}

#[test]
fn lookup_missing_tag() {
    assert_eq!(get_values_by_id("9-9:9.9.9", TELEGRAM), Err(ParseError::TagNotFound));
}

#[test]
fn lookup_empty_group_is_no_values() {
    assert_eq!(get_values_by_id("0-0:96.13.1", TELEGRAM), Err(ParseError::NoValues));
    assert_eq!(get_values_by_id("A", "A\r\nB(1)\r\n"), Err(ParseError::NoValues));
}

#[test]
fn lookup_takes_first_line_by_prefix() {
    let t = "1-0:1.7.0x(1)\r\n1-0:1.7.0(2)\r\n";
    assert_eq!(get_values_by_id("1-0:1.7.0", t).unwrap(), vec!["1".to_string()]);
    assert_eq!(get_values_by_id("1-0:1", t).unwrap(), vec!["1".to_string()]);
}

#[test]
fn lookup_ignores_text_outside_parentheses() {
    let t = "T(a)x(b)(c\n";
    assert_eq!(get_values_by_id("T", t).unwrap(), vec!["a".to_string(), "b".to_string()]);
}

#[test]
fn lookup_is_repeatable() {
    let first = get_values_by_id("1-0:1.8.2", TELEGRAM);
    let second = get_values_by_id("1-0:1.8.2", TELEGRAM);
    assert_eq!(first, second);
    assert_eq!(first.unwrap(), vec!["007139.800*kWh".to_string()]);
}

#[test]
fn decimal_numbers_in_thousandths() {
    assert_eq!(num("00.131"), Some(131));
    assert_eq!(num("007392.132"), Some(7392132));
    assert_eq!(num("0002"), Some(2000));
    assert_eq!(num("-1.5"), Some(-1500));
    assert_eq!(num("+5"), Some(5000));
    assert_eq!(num(".5"), Some(500));
    assert_eq!(num("5."), Some(5000));
    assert_eq!(num("999999999999.999"), Some(999999999999999));
}

#[test]
fn malformed_decimal_numbers() {
    assert_eq!(num(""), None);
    assert_eq!(num("."), None);
    assert_eq!(num("-"), None);
    assert_eq!(num("1.2345"), None);
    assert_eq!(num("1234567890123"), None);
    assert_eq!(num("00.123*kVA"), None);
    assert_eq!(num("1.2.3"), None);
    assert_eq!(num("1e3"), None);
}
