use eth_crawler::balance::{check_block, BalanceSearch, SearchAction, SearchStage};

/// Runs a search to its end; returns the final action and the probed blocks.
fn run(head: u64, target: i64, timestamp: &dyn Fn(u64) -> Option<u64>) -> (SearchAction, Vec<u64>) {
    let (mut search, mut action) = BalanceSearch::start(target, head);
    let mut probes = Vec::new();
    while let SearchAction::FetchBlock(n) = action {
        assert!(probes.len() < 200);
        probes.push(n);
        action = search.step(timestamp(n));
    }
    assert_eq!(search.stage, SearchStage::Done);
    (action, probes)
}

fn linear(n: u64) -> Option<u64> {
    if n <= 100 { Some(1000 + 10 * n) } else { None }
}

#[test]
fn converges_to_nearest_block_at_or_after_target() {
    let (action, _) = run(100, 1573, &linear);
    assert_eq!(action, SearchAction::FetchBalance(58));
}

#[test]
fn exact_timestamp_stops_early() {
    let (action, probes) = run(100, 1570, &linear);
    assert_eq!(action, SearchAction::FetchBalance(57));
    assert_eq!(*probes.last().unwrap(), 57);
}

#[test]
fn missing_midpoint_moves_right() {
    let (mut search, action) = BalanceSearch::start(1200, 100);
    assert_eq!(action, SearchAction::FetchBlock(50));
    let next = search.step(None);
    assert_eq!(search.low, 50);
    assert_eq!(search.high, 100);
    assert_eq!(next, SearchAction::FetchBlock(75));
    assert_eq!(search.best, None);
}

#[test]
fn missing_blocks_do_not_fail_search() {
    let gappy = |n: u64| if n % 2 == 0 { None } else { linear(n) };
    let (action, probes) = run(100, 1573, &gappy);
    assert!(probes.len() > 1);
    match action {
        SearchAction::FetchBalance(b) => assert!(1000 + 10 * b >= 1573),
        other => panic!("unexpected {:?}", other),
    }
}

#[test]
fn target_past_head_yields_none() {
    let (action, probes) = run(100, 2001, &linear);
    assert_eq!(action, SearchAction::NotFound);
    assert_eq!(*probes.last().unwrap(), 99);
}

#[test]
fn target_before_genesis_yields_first_block() {
    let (action, _) = run(100, 5, &linear);
    assert_eq!(action, SearchAction::FetchBalance(0));
}

#[test]
fn single_block_chain() {
    let (action, probes) = run(0, 1000, &linear);
    assert_eq!(probes, vec![0]);
    assert_eq!(action, SearchAction::FetchBalance(0));
    let (action, _) = run(0, 1001, &linear);
    assert_eq!(action, SearchAction::NotFound);
}

#[test]
fn diff_is_exact() {
    assert_eq!(check_block(1573, 1570), 3);
    assert_eq!(check_block(0, i64::MAX), -(i64::MAX as i128));
    assert_eq!(check_block(u64::MAX, i64::MIN), u64::MAX as i128 - i64::MIN as i128);
}

#[test]
fn large_head_does_not_overflow() {
    let (action, probes) = run(u64::MAX, 1, &|n: u64| Some(n));
    assert_eq!(action, SearchAction::FetchBalance(1));
    assert!(probes.len() <= 70);
}
