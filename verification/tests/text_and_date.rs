use cdtree_csv::date::{convert_date_bytes, parse_i32_bytes, push_decimal, push_padded, write_timestamp};
use cdtree_csv::text::{bytes_eq, contains_bytes, find_bytes, matches_at, split_bytes};

fn s(v: &[u8]) -> String {
    String::from_utf8(v.to_vec()).unwrap()
}

#[test]
fn find_gives_first_occurrence() {
    assert_eq!(find_bytes(b"a<Name>b<Name>", b"<Name>"), Some(1));
    assert_eq!(find_bytes(b"abc", b"abcd"), None);
    assert_eq!(find_bytes(b"abc", b""), Some(0));
    assert_eq!(find_bytes(b"xyz", b"z"), Some(2));
    assert_eq!(find_bytes(b"xyz", b"q"), None);
}

#[test]
fn contains_and_matches() {
    assert!(contains_bytes(b"  <File>\n", b"<File>"));
    assert!(!contains_bytes(b"  </File>\n", b"<File>"));
    assert!(matches_at(b"ab<Cd>", b"<Cd>", 2));
    assert!(!matches_at(b"ab<Cd>", b"<Cd>", 3));
    assert!(!matches_at(b"ab", b"abc", 0));
    assert!(bytes_eq(b"PM", b"PM"));
    assert!(!bytes_eq(b"PM", b"AM"));
    assert!(!bytes_eq(b"PM", b"P"));
}

#[test]
fn split_keeps_empty_pieces() {
    let parts = split_bytes(b"a  b", b' ');
    assert_eq!(parts, vec![b"a".to_vec(), b"".to_vec(), b"b".to_vec()]);
    assert_eq!(split_bytes(b"", b'/'), vec![Vec::<u8>::new()]);
    assert_eq!(split_bytes(b"1/2/", b'/'), vec![b"1".to_vec(), b"2".to_vec(), b"".to_vec()]);
    assert_eq!(split_bytes(b"abc", b':'), vec![b"abc".to_vec()]);
}

#[test]
fn parse_reads_like_from_str() {
    let cases: Vec<&str> = vec![
        "0", "12", "+7", "-0", "-", "+", "", "2147483647", "2147483648", "-2147483648",
        "-2147483649", "12a", " 1", "007", "99999999999999999999", "1_0",
    ];
    for c in cases {
        let expected: Option<i32> = c.parse::<i32>().ok();
        assert_eq!(parse_i32_bytes(c.as_bytes()), expected, "case {:?}", c);
    }
}

#[test]
fn padding_matches_format() {
    let cases: Vec<(i32, usize)> = vec![
        (5, 4), (-5, 4), (12345, 2), (0, 2), (-12345, 2), (7, 0), (-7, 1), (i32::MIN, 4),
        (i32::MAX, 12), (42, 2),
    ];
    for (n, w) in cases {
        let mut out: Vec<u8> = Vec::new();
        push_padded(&mut out, n, w);
        assert_eq!(s(&out), format!("{:0w$}", n, w = w), "case {} {}", n, w);
    }
    let mut out: Vec<u8> = b"x".to_vec();
    push_decimal(&mut out, 18446744073709551615);
    assert_eq!(s(&out), "x18446744073709551615");
}

#[test]
fn timestamp_layout() {
    assert_eq!(s(&write_timestamp(2021, 3, 5, 13, 2, 3)), "2021-03-05 13:02:03.000");
    assert_eq!(s(&write_timestamp(-3, 1, 2, 3, 4, -5)), "-003-01-02 03:04:-5.000");
    assert_eq!(write_timestamp(9999, 99, 99, 99, 99, 99).len(), 23);
}

#[test]
fn afternoon_hours_gain_twelve() {
    let out = convert_date_bytes(b"3/5/2021 1:02:03 PM").unwrap();
    assert_eq!(s(&out), "2021-03-05 13:02:03.000");
}

#[test]
fn midnight_and_noon() {
    assert_eq!(s(&convert_date_bytes(b"12/31/1999 12:00:00 AM").unwrap()), "1999-12-31 00:00:00.000");
    assert_eq!(s(&convert_date_bytes(b"12/31/1999 12:00:00 PM").unwrap()), "1999-12-31 12:00:00.000");
    assert_eq!(s(&convert_date_bytes(b"1/1/2000 11:59:59 AM").unwrap()), "2000-01-01 11:59:59.000");
}

#[test]
fn dates_that_cannot_be_read() {
    assert!(convert_date_bytes(b"1/2/2003 4:05:06").is_none());
    assert!(convert_date_bytes(b"1/2/3 4 PM").is_none());
    assert!(convert_date_bytes(b"1/2/2003 4:05:06 XM").is_none());
    assert!(convert_date_bytes(b"1/2/2003 4:05:06 pm").is_none());
    assert!(convert_date_bytes(b"-9999/1/2000 1:00:00 AM").is_none());
    assert!(convert_date_bytes(b"1/2/2003  4:05:06 AM").is_none());
    assert!(convert_date_bytes(b"1/2/2003 4:05 AM").is_none());
    assert!(convert_date_bytes(b"1/x/2003 4:05:06 AM").is_none());
    assert!(convert_date_bytes(b"2021-03-05 13:02:03.000").is_none());
    assert!(convert_date_bytes(b"").is_none());
}

#[test]
fn odd_numbers_are_kept() {
    assert_eq!(s(&convert_date_bytes(b"+3/-5/21 13:0:7 PM").unwrap()), "0021-03--5 13:00:07.000");
    assert_eq!(s(&convert_date_bytes(b"1/2/2003 -5:05:06 PM").unwrap()), "2003-01-02 07:05:06.000");
}
