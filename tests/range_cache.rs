use std::collections::BTreeMap;

use eth_crawler::cached::{CachedTransactions, QueryPlan};
use eth_crawler::fetch::{FetchAction, FetchEvent, FetchStage, RangeFetch};
use eth_crawler::types::{Account, BlockData, Quantity, ReceiptData, TxData, TxHash};

fn account(b: u8) -> Account {
    Account::from_bytes(vec![b; 20]).unwrap()
}

fn hash(b: u8) -> TxHash {
    TxHash::from_bytes(vec![b; 32]).unwrap()
}

fn zero() -> Quantity {
    Quantity { limbs: [0; 4] }
}

/// A ledger of blocks 0..=20: block n holds transactions 2n and 2n+1 (n odd has
/// none, block 13 is missing). Transaction t goes from account t % 3 to account 7.
struct Ledger {
    calls: usize,
}

impl Ledger {
    fn block(&mut self, n: u64) -> Option<BlockData> {
        self.calls += 1;
        if n > 20 || n == 13 {
            return None;
        }
        let transactions = if n % 2 == 1 {
            Vec::new()
        } else {
            vec![hash((2 * n) as u8), hash((2 * n + 1) as u8)]
        };
        Some(BlockData { timestamp: 1000 + 10 * n, transactions })
    }

    fn transaction(&mut self, h: &TxHash) -> Option<TxData> {
        self.calls += 1;
        let t = h.bytes[0];
        if t == 9 {
            return None;
        }
        Some(TxData {
            hash: hash(t),
            from: Some(account(t % 3)),
            to: Some(account(7)),
            value: Quantity { limbs: [t as u64, 0, 0, 0] },
            gas_price: None,
            gas: zero(),
            transaction_type: Some(2),
        })
    }

    fn receipt(&mut self, h: &TxHash) -> Option<ReceiptData> {
        self.calls += 1;
        if h.bytes[0] % 2 == 0 { Some(ReceiptData { status: Some(1) }) } else { None }
    }
}

/// The store: key to (block number, first byte of the hash).
type Store = BTreeMap<Vec<u8>, (u64, u8)>;

/// Runs a query to its end; returns (block, hash byte) of each record.
fn query(cache: &mut CachedTransactions, store: &mut Store, ledger: &mut Ledger, who: u8, s: u64, e: u64) -> Vec<(u64, u8)> {
    match cache.get_by_account(account(who), s, e) {
        QueryPlan::FromStore { start, end } => store.range(start..end).map(|(_, v)| *v).collect(),
        QueryPlan::FromLedger { mut fetch, first } => {
            let mut action = first;
            loop {
                let event = match action {
                    FetchAction::FetchBlock(n) => FetchEvent::Block(ledger.block(n)),
                    FetchAction::FetchTransaction(h) => FetchEvent::Transaction(ledger.transaction(&h)),
                    FetchAction::FetchReceipt(h) => FetchEvent::Receipt(ledger.receipt(&h)),
                    FetchAction::Store { key, index } => {
                        let r = &fetch.found[index];
                        store.insert(key, (r.block_number, r.transaction.hash.bytes[0]));
                        FetchEvent::Stored
                    }
                    FetchAction::Finished => break,
                };
                assert!(fetch.accepts(&event));
                action = fetch.step(event);
            }
            cache
                .complete_fetch(fetch)
                .iter()
                .map(|r| (r.block_number, r.transaction.hash.bytes[0]))
                .collect()
        }
    }
}

fn empty_cache() -> CachedTransactions {
    CachedTransactions::new(&Vec::new()).unwrap()
}

#[test]
fn uncovered_query_fetches_whole_range() {
    let mut cache = empty_cache();
    let mut store = Store::new();
    let mut ledger = Ledger { calls: 0 };
    let got = query(&mut cache, &mut store, &mut ledger, 1, 0, 20);
    // transactions t with t % 3 == 1, t = 2n or 2n + 1 for even n, t != 9 (unknown), n != 13
    assert_eq!(got, vec![(0, 1), (2, 4), (6, 13), (8, 16), (12, 25), (14, 28), (18, 37), (20, 40)]);
    assert_eq!(store.len(), got.len());
    assert_eq!(cache.coverage.get(&account(1)), Some((0, 20)));
    assert!(ledger.calls > 21);
}

#[test]
fn covered_query_reads_store_only() {
    let mut cache = empty_cache();
    let mut store = Store::new();
    let mut ledger = Ledger { calls: 0 };
    query(&mut cache, &mut store, &mut ledger, 1, 0, 20);
    let calls = ledger.calls;
    let got = query(&mut cache, &mut store, &mut ledger, 1, 6, 14);
    assert_eq!(ledger.calls, calls);
    assert_eq!(got, vec![(6, 13), (8, 16), (12, 25), (14, 28)]);
}

#[test]
fn covered_query_twice_gives_same_records() {
    let mut cache = empty_cache();
    let mut store = Store::new();
    let mut ledger = Ledger { calls: 0 };
    query(&mut cache, &mut store, &mut ledger, 1, 0, 20);
    let calls = ledger.calls;
    let first = query(&mut cache, &mut store, &mut ledger, 1, 2, 10);
    let second = query(&mut cache, &mut store, &mut ledger, 1, 2, 10);
    assert_eq!(first, second);
    assert_eq!(ledger.calls, calls);
}

#[test]
fn partly_covered_query_refetches_everything() {
    let mut cache = empty_cache();
    let mut store = Store::new();
    let mut ledger = Ledger { calls: 0 };
    query(&mut cache, &mut store, &mut ledger, 2, 4, 10);
    match cache.get_by_account(account(2), 2, 10) {
        QueryPlan::FromLedger { fetch, first } => {
            assert_eq!(fetch.block_start, 2);
            assert_eq!(fetch.block_end, 10);
            assert!(matches!(first, FetchAction::FetchBlock(2)));
        }
        QueryPlan::FromStore { .. } => panic!("range is not covered"),
    }
    let got = query(&mut cache, &mut store, &mut ledger, 2, 4, 12);
    assert_eq!(got, vec![(4, 8), (8, 17), (10, 20)]);
    // the window is replaced, not merged
    let narrower = query(&mut cache, &mut store, &mut ledger, 2, 6, 8);
    assert_eq!(narrower, vec![(8, 17)]);
    assert_eq!(cache.coverage.get(&account(2)), Some((4, 12)));
    let shifted = query(&mut cache, &mut store, &mut ledger, 2, 3, 5);
    assert_eq!(shifted, vec![(4, 8)]);
    assert_eq!(cache.coverage.get(&account(2)), Some((3, 5)));
    assert!(matches!(cache.get_by_account(account(2), 8, 10), QueryPlan::FromLedger { .. }));
}

#[test]
fn store_keeps_other_accounts_apart() {
    let mut cache = empty_cache();
    let mut store = Store::new();
    let mut ledger = Ledger { calls: 0 };
    query(&mut cache, &mut store, &mut ledger, 7, 0, 4);
    query(&mut cache, &mut store, &mut ledger, 0, 0, 4);
    let got = query(&mut cache, &mut store, &mut ledger, 0, 0, 4);
    assert_eq!(got, vec![(0, 0)]);
}

#[test]
fn rebuilt_cache_serves_stored_extent() {
    let mut cache = empty_cache();
    let mut store = Store::new();
    let mut ledger = Ledger { calls: 0 };
    query(&mut cache, &mut store, &mut ledger, 1, 0, 20);
    let keys: Vec<Vec<u8>> = store.keys().cloned().collect();
    let mut rebuilt = CachedTransactions::new(&keys).unwrap();
    assert_eq!(rebuilt.coverage.get(&account(1)), Some((0, 20)));
    let calls = ledger.calls;
    let got = query(&mut rebuilt, &mut store, &mut ledger, 1, 0, 20);
    assert_eq!(got.len(), 8);
    assert_eq!(ledger.calls, calls);
}

#[test]
fn empty_range_finishes_at_once() {
    let (fetch, action) = RangeFetch::start(account(1), 5, 4);
    assert!(matches!(action, FetchAction::Finished));
    assert_eq!(fetch.stage, FetchStage::Done);
}

#[test]
fn last_block_of_u64_finishes() {
    let (mut fetch, action) = RangeFetch::start(account(1), u64::MAX, u64::MAX);
    assert!(matches!(action, FetchAction::FetchBlock(u64::MAX)));
    let next = fetch.step(FetchEvent::Block(None));
    assert!(matches!(next, FetchAction::Finished));
}

#[test]
fn record_carries_block_and_receipt() {
    let mut ledger = Ledger { calls: 0 };
    let (mut fetch, mut action) = RangeFetch::start(account(7), 2, 2);
    let mut keys = Vec::new();
    loop {
        let event = match action {
            FetchAction::FetchBlock(n) => FetchEvent::Block(ledger.block(n)),
            FetchAction::FetchTransaction(h) => FetchEvent::Transaction(ledger.transaction(&h)),
            FetchAction::FetchReceipt(h) => FetchEvent::Receipt(ledger.receipt(&h)),
            FetchAction::Store { key, index } => {
                keys.push((key, index));
                FetchEvent::Stored
            }
            FetchAction::Finished => break,
        };
        action = fetch.step(event);
    }
    assert_eq!(fetch.found.len(), 2);
    assert_eq!(fetch.found[0].block_timestamp, 1020);
    assert_eq!(fetch.found[0].receipt, Some(ReceiptData { status: Some(1) }));
    assert_eq!(fetch.found[1].receipt, None);
    assert_eq!(fetch.found[1].transaction.value.limbs[0], 5);
    assert_eq!(keys.len(), 2);
    assert_eq!(keys[1].1, 1);
    assert!(keys[0].0 < keys[1].0);
}

#[test]
fn fetch_asks_each_block_once_in_order() {
    let mut ledger = Ledger { calls: 0 };
    let (mut fetch, mut action) = RangeFetch::start(account(1), 3, 15);
    let mut asked = Vec::new();
    loop {
        let event = match action {
            FetchAction::FetchBlock(n) => {
                asked.push(n);
                FetchEvent::Block(ledger.block(n))
            }
            FetchAction::FetchTransaction(h) => FetchEvent::Transaction(ledger.transaction(&h)),
            FetchAction::FetchReceipt(h) => FetchEvent::Receipt(ledger.receipt(&h)),
            FetchAction::Store { .. } => FetchEvent::Stored,
            FetchAction::Finished => break,
        };
        action = fetch.step(event);
    }
    assert_eq!(asked, (3..=15).collect::<Vec<u64>>());
}
