use eth_crawler::coverage::{read_cache_keys, CoverageIndex};
use eth_crawler::key::{stringify_key, ParseError};
use eth_crawler::types::{Account, TxHash};

fn account(b: u8) -> Account {
    Account::from_bytes(vec![b; 20]).unwrap()
}

#[test]
fn borders_are_least_and_greatest_block() {
    let keys = vec![
        (account(1), 50),
        (account(2), 7),
        (account(1), 10),
        (account(1), 90),
        (account(1), 30),
    ];
    let index = CoverageIndex::calculate_borders(&keys);
    assert_eq!(index.get(&account(1)), Some((10, 90)));
    assert_eq!(index.get(&account(2)), Some((7, 7)));
    assert_eq!(index.get(&account(3)), None);
}

#[test]
fn set_replaces_window() {
    let mut index = CoverageIndex::new();
    index.set(&account(1), 100, 200);
    index.set(&account(2), 1, 2);
    index.set(&account(1), 150, 160);
    assert_eq!(index.get(&account(1)), Some((150, 160)));
    assert_eq!(index.get(&account(2)), Some((1, 2)));
}

#[test]
fn covers_needs_whole_range() {
    let mut index = CoverageIndex::new();
    index.set(&account(1), 100, 200);
    assert!(index.covers(&account(1), 100, 200));
    assert!(index.covers(&account(1), 120, 130));
    assert!(!index.covers(&account(1), 99, 130));
    assert!(!index.covers(&account(1), 120, 201));
    assert!(!index.covers(&account(2), 120, 130));
}

#[test]
fn rebuild_from_stored_keys() {
    let h = TxHash::from_bytes(vec![9; 32]).unwrap();
    let keys = vec![
        stringify_key(&account(5), 40, &h),
        stringify_key(&account(5), 12, &h),
        stringify_key(&account(6), 3, &h),
    ];
    let index = read_cache_keys(&keys).unwrap();
    assert_eq!(index.get(&account(5)), Some((12, 40)));
    assert_eq!(index.get(&account(6)), Some((3, 3)));
    let empty = read_cache_keys(&Vec::new()).unwrap();
    assert_eq!(empty.get(&account(5)), None);
}

#[test]
fn rebuild_fails_on_malformed_key() {
    let h = TxHash::from_bytes(vec![9; 32]).unwrap();
    let keys = vec![stringify_key(&account(5), 40, &h), b"not a key".to_vec()];
    assert_eq!(read_cache_keys(&keys).err(), Some(ParseError::MalformedKey));
}

#[test]
fn rebuild_fails_on_key_with_garbage_tail() {
    let h = TxHash::from_bytes(vec![9; 32]).unwrap();
    let good = stringify_key(&account(5), 40, &h);
    let mut bad = good[..76].to_vec();
    bad.push(0xff);
    assert_eq!(read_cache_keys(&vec![good.clone(), bad]).err(), Some(ParseError::MalformedKey));
    let short = good[..75].to_vec();
    assert_eq!(read_cache_keys(&vec![short]).err(), Some(ParseError::MalformedKey));
    assert!(read_cache_keys(&vec![good]).is_ok());
}
