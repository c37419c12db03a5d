use eth_crawler::key::{
    parse_key_string, parse_key_string_short, stringify_key, stringify_key_range, ParseError,
};
use eth_crawler::types::{Account, TxHash};

fn account(b: u8) -> Account {
    Account::from_bytes(vec![b; 20]).unwrap()
}

fn hash(b: u8) -> TxHash {
    TxHash::from_bytes(vec![b; 32]).unwrap()
}

fn text(v: &[u8]) -> String {
    String::from_utf8(v.to_vec()).unwrap()
}

#[test]
fn key_has_exact_layout() {
    let mut a = vec![0u8; 20];
    a[0] = 0xab;
    a[19] = 0x01;
    let acc = Account::from_bytes(a).unwrap();
    let k = stringify_key(&acc, 1234, &hash(0xf0));
    let expected = format!(
        "0xab{}01_{}1234_0x{}",
        "00".repeat(18),
        "0".repeat(28),
        "f0".repeat(32)
    );
    assert_eq!(text(&k), expected);
    assert_eq!(k.len(), 142);
}

#[test]
fn key_range_has_exact_bounds() {
    let (lo, hi) = stringify_key_range(&account(0x11), 5, 7);
    let prefix = format!("0x{}_", "11".repeat(20));
    assert_eq!(text(&lo), format!("{}{}5", prefix, "0".repeat(31)));
    assert_eq!(text(&hi), format!("{}{}7_~~~", prefix, "0".repeat(31)));
}

#[test]
fn key_round_trip() {
    let acc = account(0x7e);
    for block in [0u64, 1, 57, 1_000_000, u64::MAX] {
        let k = stringify_key(&acc, block, &hash(0x3c));
        let (a, b) = parse_key_string_short(&k).unwrap();
        assert_eq!(a.bytes, acc.bytes);
        assert_eq!(b, block);
        let (a2, b2, h2) = parse_key_string(&k).unwrap();
        assert_eq!(a2.bytes, acc.bytes);
        assert_eq!(b2, block);
        assert_eq!(h2.bytes, vec![0x3c; 32]);
    }
}

#[test]
fn key_order_follows_block_number() {
    let acc = account(0x42);
    let k9 = stringify_key(&acc, 9, &hash(0xff));
    let k10 = stringify_key(&acc, 10, &hash(0x00));
    let k100 = stringify_key(&acc, 100, &hash(0x00));
    assert!(k9 < k10);
    assert!(k10 < k100);
    let (lo, hi) = stringify_key_range(&acc, 10, 10);
    assert!(lo <= k10 && k10 < hi);
    assert!(!(lo <= k9));
    assert!(!(k100 < hi));
}

#[test]
fn key_range_excludes_other_accounts() {
    let (lo, hi) = stringify_key_range(&account(0x42), 0, u64::MAX);
    let below = stringify_key(&account(0x41), 5, &hash(1));
    let above = stringify_key(&account(0x43), 5, &hash(1));
    let inside = stringify_key(&account(0x42), u64::MAX, &hash(0xff));
    assert!(below < lo);
    assert!(above >= hi);
    assert!(lo <= inside && inside < hi);
}

#[test]
fn short_key_parses_without_hash() {
    let (lo, _) = stringify_key_range(&account(0xAB), 77, 80);
    let (a, b) = parse_key_string_short(&lo).unwrap();
    assert_eq!(a.bytes, vec![0xab; 20]);
    assert_eq!(b, 77);
    assert_eq!(parse_key_string(&lo).err(), Some(ParseError::MalformedKey));
}

#[test]
fn upper_case_hex_is_read() {
    let s = format!("0x{}_{}12", "AB".repeat(20), "0".repeat(30));
    let (a, b) = parse_key_string_short(&s.into_bytes()).unwrap();
    assert_eq!(a.bytes, vec![0xab; 20]);
    assert_eq!(b, 12);
}

#[test]
fn malformed_keys_are_rejected() {
    let good = text(&stringify_key(&account(1), 3, &hash(2)));
    let cases = vec![
        String::new(),
        good[..74].to_string(),
        good.replacen("0x", "1x", 1),
        good.replacen("01", "0g", 1),
        format!("{}-{}", &good[..42], &good[43..]),
        format!("{}a{}", &good[..74], &good[75..]),
        format!("{}-{}", &good[..75], &good[76..]),
    ];
    for c in cases {
        assert_eq!(
            parse_key_string_short(&c.into_bytes()).err(),
            Some(ParseError::MalformedKey)
        );
    }
}

#[test]
fn block_number_overflow_is_rejected() {
    let at_max = format!("0x{}_{}18446744073709551615", "00".repeat(20), "0".repeat(12));
    assert_eq!(parse_key_string_short(&at_max.into_bytes()).unwrap().1, u64::MAX);
    let past_max = format!("0x{}_{}18446744073709551616", "00".repeat(20), "0".repeat(12));
    assert_eq!(
        parse_key_string_short(&past_max.into_bytes()).err(),
        Some(ParseError::MalformedKey)
    );
    let all_nines = format!("0x{}_{}", "00".repeat(20), "9".repeat(32));
    assert_eq!(
        parse_key_string_short(&all_nines.into_bytes()).err(),
        Some(ParseError::MalformedKey)
    );
}

#[test]
fn full_key_rejects_bad_hash() {
    let good = text(&stringify_key(&account(1), 3, &hash(2)));
    let bad = format!("{}z", &good[..141]);
    assert_eq!(parse_key_string(&bad.into_bytes()).err(), Some(ParseError::MalformedKey));
    let longer = format!("{}00", good);
    assert_eq!(parse_key_string(&longer.into_bytes()).err(), Some(ParseError::MalformedKey));
}
