use llhls::number::{decimal, decimal_signed, parse_signed, parse_unsigned};
use llhls::order::{is_less, sort_texts, Lexical};
use llhls::table::Table;
use llhls::text::{
    before, contains, ends_with, lines_of, same, split_on, starts_with, strip_prefix,
    trim_end_matches, trim_start_matches, words_of,
};
use llhls::time::Timestamp;

#[test]
fn texts_agree_with_std() {
    let samples = [
        "", "a", "a,b,,c", ",", "é_ü", "one two\tthree\u{3000}four ", "x\r\ny\n\nz\r", "\n", "aaa",
        "#EXTINF:1,", "a\u{85}b", "tail\n",
    ];
    let marks = ["", "a", ",", "aa", "é", "#EXTINF:", "b"];
    for s in samples {
        assert_eq!(lines_of(s), s.lines().collect::<Vec<_>>());
        assert_eq!(words_of(s), s.split_whitespace().collect::<Vec<_>>());
        assert_eq!(split_on(s, ','), s.split(',').collect::<Vec<_>>());
        assert_eq!(before(s, ','), s.split(',').next().unwrap());
        for p in marks {
            assert_eq!(starts_with(s, p), s.starts_with(p));
            assert_eq!(ends_with(s, p), s.ends_with(p));
            assert_eq!(contains(s, p), s.contains(p));
            assert_eq!(same(s, p), s == p);
            assert_eq!(strip_prefix(s, p).as_deref(), s.strip_prefix(p));
            if !p.is_empty() {
                assert_eq!(trim_end_matches(s, p), s.trim_end_matches(p));
                assert_eq!(trim_start_matches(s, p), s.trim_start_matches(p));
            }
        }
        for t in samples {
            assert_eq!(is_less(s, t), s < t);
        }
    }
    let list: Vec<String> = samples.iter().map(|s| s.to_string()).collect();
    let mut expected = list.clone();
    expected.sort();
    assert_eq!(sort_texts::<Lexical>(list), expected);
}

#[test]
fn numbers_agree_with_std() {
    for n in [0u64, 9, 10, 123, u64::MAX] {
        assert_eq!(decimal(n), n.to_string());
    }
    for n in [0i64, -1, i64::MIN, i64::MAX] {
        assert_eq!(decimal_signed(n), n.to_string());
    }
    let samples = [
        "", "+", "-", "0", "007", "+5", "-5", "5x", "18446744073709551615",
        "18446744073709551616", "9223372036854775808", "-9223372036854775808", "٣",
    ];
    for s in samples {
        assert_eq!(parse_unsigned(s, u64::MAX), s.parse::<u64>().ok());
        assert_eq!(parse_unsigned(s, u32::MAX as u64), s.parse::<u32>().ok().map(|v| v as u64));
        assert_eq!(parse_signed(s), s.parse::<i64>().ok());
    }
}

#[test]
fn moments_have_texts() {
    let t = Timestamp::from_unix(1_700_000_000, 123_456_789).unwrap();
    assert_eq!(t.rfc3339_millis(), "2023-11-14T22:13:20.123Z");
    assert_eq!(t.rfc3339(), "2023-11-14T22:13:20.123456789+00:00");
    assert_eq!(t.date_stamp(), "20231114");
    assert_eq!(t.basic_date_time(), "20231114T221320Z");
    assert_eq!(t.subsec_nanos(), 123_456_789);
    assert!(Timestamp::from_unix(0, 1_000_000_000).is_none());
    assert!(Timestamp::from_unix(i64::MAX, 0).is_none());
    let first = Timestamp::from_unix(-8_334_601_228_800, 0).unwrap();
    let last = Timestamp::from_unix(8_210_266_876_799, 999_999_999).unwrap();
    assert!(first.rfc3339().starts_with("-262143-01-01T00:00:00"));
    assert!(last.rfc3339().starts_with("+262142-12-31T23:59:59"));
    assert!(first.is_before(&last));
    let now = Timestamp::now();
    assert!(now.unix_secs() > 1_600_000_000);
}

#[test]
fn spans_round_toward_zero() {
    let t = |s, n| Timestamp::from_unix(s, n).unwrap();
    assert_eq!(t(10, 500).seconds_until(&t(12, 400)), 1);
    assert_eq!(t(12, 400).seconds_until(&t(10, 500)), -1);
    assert_eq!(t(10, 0).seconds_until(&t(10, 999)), 0);
    assert_eq!(t(10, 999).seconds_until(&t(9, 0)), -1);
}

#[test]
fn tables_keep_names_once() {
    let mut table: Table<u8> = Table::new();
    table.insert("a".to_string(), 1);
    table.insert("b".to_string(), 2);
    table.insert("a".to_string(), 3);
    assert_eq!(table.len(), 2);
    assert_eq!(table.get("a"), Some(&3));
    assert_eq!(table.name_at(0), "a");
    *table.value_at_mut(1) = 9;
    assert_eq!(table.value_at(1), &9);
    assert_eq!(table.position("b"), Some(1));
    assert_eq!(table.remove("a"), Some(3));
    assert_eq!(table.remove("a"), None);
    assert!(!table.contains_key("a"));
    table.clear();
    assert_eq!(table.len(), 0);
}
