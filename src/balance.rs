use vstd::prelude::*;

verus! {

/// Whether a balance search still probes blocks.
#[derive(Clone, Copy, Debug, PartialEq, Eq, Structural)]
pub enum SearchStage {
    Searching,
    Done,
}

/// What the driver of a balance search is to do next.
#[derive(Clone, Copy, Debug, PartialEq, Eq, Structural)]
pub enum SearchAction {
    /// Fetch this block and answer with its timestamp, or `None` if it is absent.
    FetchBlock(u64),
    /// The search is over: read the balance at this block.
    FetchBalance(u64),
    /// The search is over: no block at or after the target was found.
    NotFound,
}

/// A bisection over block numbers `0..=head` for the block whose timestamp is
/// nearest to, and not before, a target timestamp.
#[derive(Clone, Copy, Debug)]
pub struct BalanceSearch {
    pub target: i64,
    pub low: u64,
    pub high: u64,
    /// The block being probed: always the floor of the middle of `low` and `high`.
    pub mid: u64,
    /// The best block so far and its distance past the target.
    pub best: Option<(u64, u128)>,
    pub stage: SearchStage,
}

/// Block timestamp minus target timestamp.
pub open spec fn diff_spec(block_timestamp: u64, target: i64) -> int {
    block_timestamp as int - target as int
}

/// The action that ends a search with the given best block.
pub open spec fn final_action(best: Option<(u64, u128)>) -> SearchAction {
    match best {
        Some((b, _)) => SearchAction::FetchBalance(b),
        None => SearchAction::NotFound,
    }
}

/// Block timestamp minus target timestamp, exactly.
pub fn check_block(block_timestamp: u64, target: i64) -> (r: i128)
    ensures
        r == diff_spec(block_timestamp, target),
{
    block_timestamp as i128 - target as i128
}

/// Move towards earlier blocks: the probe becomes the upper end.
fn move_left(block_start: u64, current_block: &mut u64, block_end: &mut u64)
    requires
        block_start <= *old(current_block),
    ensures
        *final(block_end) == *old(current_block),
        *final(current_block) == (block_start + *old(current_block)) / 2,
{
    *block_end = *current_block;
    *current_block = block_start + (*current_block - block_start) / 2;
}

/// Move towards later blocks: the probe becomes the lower end.
fn move_right(block_start: &mut u64, current_block: &mut u64, block_end: u64)
    requires
        *old(current_block) <= block_end,
    ensures
        *final(block_start) == *old(current_block),
        *final(current_block) == (*old(current_block) + block_end) / 2,
{
    *block_start = *current_block;
    *current_block = *current_block + (block_end - *current_block) / 2;
}

/// One step of the search: `new` and `action` follow from `old` and the probed
/// block's timestamp (`None` if the block is absent).
pub open spec fn search_step(
    old: BalanceSearch,
    block_timestamp: Option<u64>,
    new: BalanceSearch,
    action: SearchAction,
) -> bool {
    let at_or_after = block_timestamp matches Some(t) && diff_spec(t, old.target) >= 0;
    let next = (new.low + new.high) / 2;
    &&& new.target == old.target
    &&& new.low == (if at_or_after { old.low } else { old.mid })
    &&& new.high == (if at_or_after { old.mid } else { old.high })
    &&& new.best == (if at_or_after && (old.best matches Some((_, d)) ==> diff_spec(
        block_timestamp.unwrap(),
        old.target,
    ) < d) {
        Some((old.mid, diff_spec(block_timestamp.unwrap(), old.target) as u128))
    } else {
        old.best
    })
    &&& if next == old.mid || new.best matches Some((_, 0)) {
        new.stage == SearchStage::Done && action == final_action(new.best)
    } else {
        &&& new.stage == SearchStage::Searching
        &&& new.mid == next
        &&& action == SearchAction::FetchBlock(next as u64)
        &&& new.high - new.low < old.high - old.low
    }
}

/// The state a search over blocks `0..=head` starts in.
pub open spec fn search_start(target: i64, head: u64) -> BalanceSearch {
    BalanceSearch {
        target,
        low: 0,
        high: head,
        mid: head / 2,
        best: None,
        stage: SearchStage::Searching,
    }
}

/// What a ledger answers for block `n`: its timestamp, or `None` if it has no such block.
pub open spec fn ledger_answer(ledger: Map<u64, u64>, n: u64) -> Option<u64> {
    if ledger.contains_key(n) { Some(ledger[n]) } else { None }
}

/// `states` and `actions` are a search over blocks `0..=head` whose every probe
/// was answered from `ledger`: `actions[i]` is the action that led to `states[i]`.
pub open spec fn is_search_run(
    ledger: Map<u64, u64>,
    target: i64,
    head: u64,
    states: Seq<BalanceSearch>,
    actions: Seq<SearchAction>,
) -> bool {
    &&& states.len() >= 1
    &&& actions.len() == states.len()
    &&& states[0] == search_start(target, head)
    &&& actions[0] == SearchAction::FetchBlock(head / 2)
    &&& forall|i: int| 0 <= i < states.len() - 1 ==> {
        &&& #[trigger] actions[i] == SearchAction::FetchBlock(states[i].mid)
        &&& search_step(states[i], ledger_answer(ledger, states[i].mid), states[i + 1], actions[i + 1])
    }
}

/// Past the frontier: when every block the ledger holds is earlier than the
/// target, a search records no block and can only end without an answer.
pub proof fn lemma_target_past_every_block(
    ledger: Map<u64, u64>,
    target: i64,
    head: u64,
    states: Seq<BalanceSearch>,
    actions: Seq<SearchAction>,
)
    requires
        is_search_run(ledger, target, head, states, actions),
        forall|n: u64| #[trigger] ledger.contains_key(n) ==> (ledger[n] as int) < target as int,
    ensures
        forall|i: int| 0 <= i < states.len() ==> (#[trigger] states[i]).best is None,
        forall|i: int| 0 <= i < actions.len() ==> !(#[trigger] actions[i] is FetchBalance),
{
    assert forall|i: int| 0 <= i < states.len() implies (#[trigger] states[i]).best is None && !(actions[i] is FetchBalance) by {
        lemma_no_best_before(ledger, target, head, states, actions, i);
    }
}

proof fn lemma_target_kept(
    ledger: Map<u64, u64>,
    target: i64,
    head: u64,
    states: Seq<BalanceSearch>,
    actions: Seq<SearchAction>,
    i: int,
)
    requires
        is_search_run(ledger, target, head, states, actions),
        0 <= i < states.len(),
    ensures
        states[i].target == target,
    decreases i,
{
    if i > 0 {
        lemma_target_kept(ledger, target, head, states, actions, i - 1);
        assert(actions[i - 1] == SearchAction::FetchBlock(states[i - 1].mid));
    }
}

proof fn lemma_no_best_before(
    ledger: Map<u64, u64>,
    target: i64,
    head: u64,
    states: Seq<BalanceSearch>,
    actions: Seq<SearchAction>,
    i: int,
)
    requires
        is_search_run(ledger, target, head, states, actions),
        forall|n: u64| #[trigger] ledger.contains_key(n) ==> (ledger[n] as int) < target as int,
        0 <= i < states.len(),
    ensures
        states[i].best is None,
        !(actions[i] is FetchBalance),
    decreases i,
{
    if i > 0 {
        lemma_no_best_before(ledger, target, head, states, actions, i - 1);
        let prev = states[i - 1];
        let t = ledger_answer(ledger, prev.mid);
        assert(actions[i - 1] == SearchAction::FetchBlock(prev.mid));
        assert(search_step(prev, t, states[i], actions[i]));
        assert(prev.target == target) by {
            lemma_target_kept(ledger, target, head, states, actions, i - 1);
        }
        if t is Some {
            assert(ledger.contains_key(prev.mid));
        }
        assert(!(t matches Some(x) && diff_spec(x, prev.target) >= 0));
    }
}

impl BalanceSearch {
    pub open spec fn wf(&self) -> bool {
        &&& self.low <= self.mid <= self.high
        &&& self.mid == (self.low + self.high) / 2
    }

    /// Starts a search over blocks `0..=head`: the first probe is the middle block.
    pub fn start(target: i64, head: u64) -> (r: (BalanceSearch, SearchAction))
        ensures
            r.0.wf(),
            r.0.target == target,
            r.0.low == 0,
            r.0.high == head,
            r.0.mid == head / 2,
            r.0.best is None,
            r.0.stage == SearchStage::Searching,
            r.1 == SearchAction::FetchBlock(head / 2),
    {
        let s = BalanceSearch {
            target,
            low: 0,
            high: head,
            mid: head / 2,
            best: None,
            stage: SearchStage::Searching,
        };
        (s, SearchAction::FetchBlock(head / 2))
    }

    /// Takes the timestamp of the probed block (`None` if the block is absent)
    /// and returns the next action.
    ///
    /// An absent block, or one before the target, moves the search to later
    /// blocks. A block at or after the target becomes the best block if it is
    /// nearer the target than the best so far, and moves the search to earlier
    /// blocks. The search ends when the probe no longer moves or the best block
    /// has the target's timestamp exactly.
    pub fn step(&mut self, block_timestamp: Option<u64>) -> (action: SearchAction)
        requires
            old(self).wf(),
            old(self).stage == SearchStage::Searching,
        ensures
            final(self).wf(),
            search_step(*old(self), block_timestamp, *final(self), action),
    {
        let old_mid = self.mid;
        let mut at_or_after = false;
        let mut diff: i128 = 0;
        if let Some(t) = block_timestamp {
            diff = check_block(t, self.target);
            at_or_after = diff >= 0;
        }
        let mut low = self.low;
        let mut mid = self.mid;
        let mut high = self.high;
        if at_or_after {
            let d = diff as u128;
            let better = match self.best {
                Some((_, best_diff)) => d < best_diff,
                None => true,
            };
            if better {
                self.best = Some((mid, d));
            }
            move_left(low, &mut mid, &mut high);
        } else {
            move_right(&mut low, &mut mid, high);
        }
        self.low = low;
        self.high = high;
        self.mid = mid;
        let exact = match self.best {
            Some((_, d)) => d == 0,
            None => false,
        };
        if mid == old_mid || exact {
            self.stage = SearchStage::Done;
            match self.best {
                Some((b, _)) => SearchAction::FetchBalance(b),
                None => SearchAction::NotFound,
            }
        } else {
            SearchAction::FetchBlock(mid)
        }
    }
}

} // verus!
