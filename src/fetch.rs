use vstd::prelude::*;
use crate::key::{key_spec, stringify_key};
use crate::types::{involves, Account, BlockData, ReceiptData, TransactionRecord, TxData, TxHash};

verus! {

/// What a range fetch waits for.
#[derive(Clone, Copy, Debug, PartialEq, Eq, Structural)]
pub enum FetchStage {
    AwaitBlock,
    AwaitTransaction,
    AwaitReceipt,
    AwaitStored,
    Done,
}

/// What the ledger or the store answered to the last action.
pub enum FetchEvent {
    /// The block asked for, or `None` if the ledger has none under that number.
    Block(Option<BlockData>),
    /// The transaction asked for, or `None` if the ledger does not know it.
    Transaction(Option<TxData>),
    /// The receipt asked for, or `None` if there is none.
    Receipt(Option<ReceiptData>),
    /// The last record was written to the store.
    Stored,
}

/// What the driver of a range fetch is to do next.
pub enum FetchAction {
    FetchBlock(u64),
    FetchTransaction(TxHash),
    FetchReceipt(TxHash),
    /// Write record `index` of `found` under `key`, then answer `Stored`.
    Store { key: Vec<u8>, index: usize },
    /// Every block of the range was scanned.
    Finished,
}

/// A scan of blocks `block_start` to `block_end`, in ascending order, for the
/// transactions sent from or to `account`. The ledger and the store are
/// driven from outside: each `step` takes the answer to the last action and
/// returns the next action.
pub struct RangeFetch {
    pub account: Account,
    pub block_start: u64,
    pub block_end: u64,
    /// The block being scanned.
    pub current: u64,
    /// Timestamp of the block being scanned.
    pub timestamp: u64,
    /// Transactions of the block being scanned.
    pub pending: Vec<TxHash>,
    /// Position in `pending` of the transaction being looked at.
    pub next_tx: usize,
    /// The matching transaction whose receipt is awaited.
    pub matched: Option<TxData>,
    pub stage: FetchStage,
    /// Records found so far, in the order found.
    pub found: Vec<TransactionRecord>,
}

/// After the last transaction of a block: on to the next block, or done after the last one.
pub open spec fn next_block(old: RangeFetch, new: RangeFetch, action: FetchAction) -> bool {
    if old.current == old.block_end {
        new.stage == FetchStage::Done && new.current == old.current && action is Finished
    } else {
        &&& new.stage == FetchStage::AwaitBlock
        &&& new.current == old.current + 1
        &&& action == FetchAction::FetchBlock((old.current + 1) as u64)
    }
}

/// After a transaction: on to the next one of the block, or to the next block.
pub open spec fn next_transaction(old: RangeFetch, new: RangeFetch, action: FetchAction) -> bool {
    if old.next_tx + 1 < old.pending@.len() {
        &&& new.stage == FetchStage::AwaitTransaction
        &&& new.current == old.current
        &&& new.timestamp == old.timestamp
        &&& new.pending@ == old.pending@
        &&& new.next_tx == old.next_tx + 1
        &&& action matches FetchAction::FetchTransaction(h) && h@ == old.pending@[old.next_tx + 1]@
    } else {
        next_block(old, new, action)
    }
}

/// One step of a range fetch: `new` and `action` follow from `old` and the answer `event`.
pub open spec fn fetch_step(old: RangeFetch, event: FetchEvent, new: RangeFetch, action: FetchAction) -> bool {
    &&& new.account == old.account
    &&& new.block_start == old.block_start
    &&& new.block_end == old.block_end
    &&& match event {
        FetchEvent::Block(None) => next_block(old, new, action)
            && new.found@ == old.found@,
        FetchEvent::Block(Some(b)) => if b.transactions@.len() == 0 {
            next_block(old, new, action) && new.found@ == old.found@
        } else {
            &&& new.stage == FetchStage::AwaitTransaction
            &&& new.current == old.current
            &&& new.timestamp == b.timestamp
            &&& new.pending@ == b.transactions@
            &&& new.next_tx == 0
            &&& new.found@ == old.found@
            &&& action matches FetchAction::FetchTransaction(h) && h@ == b.transactions@[0]@
        },
        FetchEvent::Transaction(t) => if t matches Some(tx) && involves(tx, old.account@) {
            &&& new.stage == FetchStage::AwaitReceipt
            &&& new.matched == t
            &&& new.current == old.current
            &&& new.timestamp == old.timestamp
            &&& new.pending@ == old.pending@
            &&& new.next_tx == old.next_tx
            &&& new.found@ == old.found@
            &&& action matches FetchAction::FetchReceipt(h) && h@ == old.pending@[old.next_tx as int]@
        } else {
            next_transaction(old, new, action) && new.found@ == old.found@
        },
        FetchEvent::Receipt(rc) => {
            &&& new.stage == FetchStage::AwaitStored
            &&& new.current == old.current
            &&& new.timestamp == old.timestamp
            &&& new.pending@ == old.pending@
            &&& new.next_tx == old.next_tx
            &&& new.found@ == old.found@.push(
                TransactionRecord {
                    block_number: old.current,
                    block_timestamp: old.timestamp,
                    transaction: old.matched.unwrap(),
                    receipt: rc,
                },
            )
            &&& action matches FetchAction::Store { key, index } && index == old.found@.len()
                && key@ == key_spec(
                old.account@,
                old.current,
                old.pending@[old.next_tx as int]@,
            )
        },
        FetchEvent::Stored => next_transaction(old, new, action)
            && new.found@ == old.found@,
    }
}

impl RangeFetch {
    pub open spec fn wf(&self) -> bool {
        &&& self.account.wf()
        &&& self.stage != FetchStage::Done ==> self.block_start <= self.current <= self.block_end
        &&& (self.stage == FetchStage::AwaitTransaction || self.stage == FetchStage::AwaitReceipt
            || self.stage == FetchStage::AwaitStored) ==> self.next_tx < self.pending@.len()
        &&& self.stage == FetchStage::AwaitReceipt ==> (self.matched matches Some(tx) && involves(
            tx,
            self.account@,
        ))
        &&& self.stage == FetchStage::AwaitStored ==> self.found@.len() > 0
        &&& forall|i: int| 0 <= i < self.found@.len() ==> {
            &&& involves(#[trigger] self.found@[i].transaction, self.account@)
            &&& self.block_start <= self.found@[i].block_number <= self.current
        }
    }

    /// The answer that the current stage waits for.
    pub open spec fn expects(&self, event: FetchEvent) -> bool {
        match event {
            FetchEvent::Block(_) => self.stage == FetchStage::AwaitBlock,
            FetchEvent::Transaction(_) => self.stage == FetchStage::AwaitTransaction,
            FetchEvent::Receipt(_) => self.stage == FetchStage::AwaitReceipt,
            FetchEvent::Stored => self.stage == FetchStage::AwaitStored,
        }
    }

    /// Whether `event` is the answer that the current stage waits for.
    pub fn accepts(&self, event: &FetchEvent) -> (r: bool)
        ensures
            r == self.expects(*event),
    {
        match event {
            FetchEvent::Block(_) => self.stage == FetchStage::AwaitBlock,
            FetchEvent::Transaction(_) => self.stage == FetchStage::AwaitTransaction,
            FetchEvent::Receipt(_) => self.stage == FetchStage::AwaitReceipt,
            FetchEvent::Stored => self.stage == FetchStage::AwaitStored,
        }
    }

    /// Starts a scan of every block from `block_start` to `block_end`: the first
    /// action asks for `block_start`; an empty range is done at once.
    pub fn start(account: Account, block_start: u64, block_end: u64) -> (r: (RangeFetch, FetchAction))
        requires
            account.wf(),
        ensures
            r.0.wf(),
            r.0.account@ == account@,
            r.0.block_start == block_start,
            r.0.block_end == block_end,
            r.0.found@.len() == 0,
            block_start <= block_end ==> r.0.stage == FetchStage::AwaitBlock && r.0.current == block_start
                && r.1 == FetchAction::FetchBlock(block_start),
            block_start > block_end ==> r.0.stage == FetchStage::Done && r.1 is Finished,
    {
        let stage = if block_start <= block_end { FetchStage::AwaitBlock } else { FetchStage::Done };
        let fetch = RangeFetch {
            account,
            block_start,
            block_end,
            current: block_start,
            timestamp: 0,
            pending: Vec::new(),
            next_tx: 0,
            matched: None,
            stage,
            found: Vec::new(),
        };
        if block_start <= block_end {
            (fetch, FetchAction::FetchBlock(block_start))
        } else {
            (fetch, FetchAction::Finished)
        }
    }

    fn advance_block(&mut self) -> (action: FetchAction)
        requires
            old(self).wf(),
            old(self).stage != FetchStage::Done,
        ensures
            final(self).wf(),
            next_block(*old(self), *final(self), action),
            final(self).account == old(self).account,
            final(self).block_start == old(self).block_start,
            final(self).block_end == old(self).block_end,
            final(self).found@ == old(self).found@,
    {
        if self.current == self.block_end {
            self.stage = FetchStage::Done;
            FetchAction::Finished
        } else {
            self.current = self.current + 1;
            self.stage = FetchStage::AwaitBlock;
            FetchAction::FetchBlock(self.current)
        }
    }

    fn advance_transaction(&mut self) -> (action: FetchAction)
        requires
            old(self).wf(),
            old(self).stage != FetchStage::Done,
            old(self).next_tx < old(self).pending@.len(),
        ensures
            final(self).wf(),
            next_transaction(*old(self), *final(self), action),
            final(self).account == old(self).account,
            final(self).block_start == old(self).block_start,
            final(self).block_end == old(self).block_end,
            final(self).found@ == old(self).found@,
    {
        if self.next_tx < self.pending.len() - 1 {
            self.next_tx = self.next_tx + 1;
            self.stage = FetchStage::AwaitTransaction;
            FetchAction::FetchTransaction(self.pending[self.next_tx].duplicate())
        } else {
            self.advance_block()
        }
    }

    /// Takes the answer to the last action and returns the next action.
    ///
    /// Blocks are scanned one by one, in ascending order, and each transaction
    /// of a block in the order the block lists it; a missing block or
    /// transaction is skipped. A transaction sent from or to the account has its
    /// receipt fetched, becomes a record appended to `found`, and is stored
    /// under its key before the scan goes on.
    pub fn step(&mut self, event: FetchEvent) -> (action: FetchAction)
        requires
            old(self).wf(),
            old(self).expects(event),
        ensures
            final(self).wf(),
            fetch_step(*old(self), event, *final(self), action),
    {
        match event {
            FetchEvent::Block(None) => self.advance_block(),
            FetchEvent::Block(Some(b)) => {
                if b.transactions.len() == 0 {
                    self.advance_block()
                } else {
                    self.timestamp = b.timestamp;
                    self.pending = b.transactions;
                    self.next_tx = 0;
                    self.stage = FetchStage::AwaitTransaction;
                    FetchAction::FetchTransaction(self.pending[0].duplicate())
                }
            },
            FetchEvent::Transaction(t) => {
                let hit = match &t {
                    Some(tx) => tx.involves(&self.account),
                    None => false,
                };
                if hit {
                    self.matched = t;
                    self.stage = FetchStage::AwaitReceipt;
                    FetchAction::FetchReceipt(self.pending[self.next_tx].duplicate())
                } else {
                    self.advance_transaction()
                }
            },
            FetchEvent::Receipt(rc) => {
                let tx = self.matched.take().unwrap();
                let index = self.found.len();
                let key = stringify_key(&self.account, self.current, &self.pending[self.next_tx]);
                self.found.push(
                    TransactionRecord {
                        block_number: self.current,
                        block_timestamp: self.timestamp,
                        transaction: tx,
                        receipt: rc,
                    },
                );
                self.stage = FetchStage::AwaitStored;
                FetchAction::Store { key, index }
            },
            FetchEvent::Stored => self.advance_transaction(),
        }
    }
}

/// What a ledger holding `blocks` and `txs` answers to `action`; a receipt may
/// be absent or present, and a write always succeeds.
pub open spec fn ledger_answers(
    blocks: Map<u64, BlockData>,
    txs: Map<Seq<u8>, TxData>,
    action: FetchAction,
    event: FetchEvent,
) -> bool {
    match action {
        FetchAction::FetchBlock(n) => event == FetchEvent::Block(
            if blocks.contains_key(n) { Some(blocks[n]) } else { None },
        ),
        FetchAction::FetchTransaction(h) => event == FetchEvent::Transaction(
            if txs.contains_key(h@) { Some(txs[h@]) } else { None },
        ),
        FetchAction::FetchReceipt(_) => event is Receipt,
        FetchAction::Store { .. } => event is Stored,
        FetchAction::Finished => false,
    }
}

/// `states`, `actions` and `events` are a fetch of blocks `block_start` to
/// `block_end` for `account` in which the ledger holding `blocks` and `txs`
/// answered every action: `actions[i]` led to `states[i]` and was answered by `events[i]`.
pub open spec fn is_fetch_run(
    blocks: Map<u64, BlockData>,
    txs: Map<Seq<u8>, TxData>,
    account: Seq<u8>,
    block_start: u64,
    block_end: u64,
    states: Seq<RangeFetch>,
    actions: Seq<FetchAction>,
    events: Seq<FetchEvent>,
) -> bool {
    &&& states.len() >= 1
    &&& actions.len() == states.len()
    &&& events.len() == states.len() - 1
    &&& states[0].account@ == account
    &&& states[0].block_start == block_start
    &&& states[0].block_end == block_end
    &&& block_start <= block_end ==> states[0].stage == FetchStage::AwaitBlock && states[0].current
        == block_start && actions[0] == FetchAction::FetchBlock(block_start)
    &&& block_start > block_end ==> states[0].stage == FetchStage::Done && actions[0] is Finished
    &&& forall|i: int| 0 <= i < states.len() ==> (#[trigger] states[i]).wf()
    &&& forall|i: int| 0 <= i < states.len() - 1 ==> {
        &&& ledger_answers(blocks, txs, #[trigger] actions[i], events[i])
        &&& fetch_step(states[i], events[i], states[i + 1], actions[i + 1])
    }
}

/// Transaction `j` of block `n` is in the ledger and was sent from or to `account`.
pub open spec fn qualifies(
    blocks: Map<u64, BlockData>,
    txs: Map<Seq<u8>, TxData>,
    account: Seq<u8>,
    n: u64,
    j: int,
) -> bool {
    &&& blocks.contains_key(n)
    &&& 0 <= j < blocks[n].transactions@.len()
    &&& txs.contains_key(blocks[n].transactions@[j]@)
    &&& involves(txs[blocks[n].transactions@[j]@], account)
}

/// One of `actions[0..=last]` writes the record of transaction `id` of block `n` for `account`.
pub open spec fn stored_within(actions: Seq<FetchAction>, last: int, account: Seq<u8>, n: u64, id: Seq<u8>) -> bool {
    exists|k: int| 0 <= k <= last && (#[trigger] actions[k] matches FetchAction::Store { key, .. }
        && key@ == key_spec(account, n, id))
}

spec fn in_block(st: RangeFetch) -> bool {
    st.stage == FetchStage::AwaitTransaction || st.stage == FetchStage::AwaitReceipt || st.stage
        == FetchStage::AwaitStored
}

/// Transaction `j` of block `n` is behind the scan position of `st`.
spec fn passed(st: RangeFetch, n: u64, j: int) -> bool {
    &&& st.block_start <= n <= st.block_end
    &&& n < st.current || (n == st.current && st.stage == FetchStage::Done) || (n == st.current
        && in_block(st) && j < st.next_tx)
}

spec fn run_inv(
    blocks: Map<u64, BlockData>,
    txs: Map<Seq<u8>, TxData>,
    account: Seq<u8>,
    states: Seq<RangeFetch>,
    actions: Seq<FetchAction>,
    i: int,
) -> bool {
    let st = states[i];
    &&& st.account@ == account
    &&& st.block_start == states[0].block_start
    &&& st.block_end == states[0].block_end
    &&& st.stage == FetchStage::Done && st.block_start <= st.block_end ==> st.current == st.block_end
    &&& in_block(st) ==> blocks.contains_key(st.current) && st.pending@ == blocks[st.current].transactions@
    &&& match actions[i] {
        FetchAction::FetchBlock(n) => st.stage == FetchStage::AwaitBlock && n == st.current,
        FetchAction::FetchTransaction(h) => st.stage == FetchStage::AwaitTransaction && h@
            == st.pending@[st.next_tx as int]@,
        FetchAction::FetchReceipt(_) => st.stage == FetchStage::AwaitReceipt,
        FetchAction::Store { key, .. } => st.stage == FetchStage::AwaitStored && key@ == key_spec(
            account,
            st.current,
            st.pending@[st.next_tx as int]@,
        ),
        FetchAction::Finished => st.stage == FetchStage::Done,
    }
    &&& forall|n: u64, j: int| #![trigger passed(st, n, j)]
        qualifies(blocks, txs, account, n, j) && passed(st, n, j) ==> stored_within(
            actions,
            i,
            account,
            n,
            blocks[n].transactions@[j]@,
        )
}

proof fn lemma_run_inv(
    blocks: Map<u64, BlockData>,
    txs: Map<Seq<u8>, TxData>,
    account: Seq<u8>,
    block_start: u64,
    block_end: u64,
    states: Seq<RangeFetch>,
    actions: Seq<FetchAction>,
    events: Seq<FetchEvent>,
    i: int,
)
    requires
        is_fetch_run(blocks, txs, account, block_start, block_end, states, actions, events),
        0 <= i < states.len(),
    ensures
        run_inv(blocks, txs, account, states, actions, i),
    decreases i,
{
    if i == 0 {
        let st = states[0];
        assert forall|n: u64, j: int| #![trigger passed(st, n, j)]
            qualifies(blocks, txs, account, n, j) && passed(st, n, j) implies stored_within(
                actions,
                0,
                account,
                n,
                blocks[n].transactions@[j]@,
            ) by {}
    } else {
        let p = i - 1;
        lemma_run_inv(blocks, txs, account, block_start, block_end, states, actions, events, p);
        let old = states[p];
        let new = states[i];
        let ev = events[p];
        assert(ledger_answers(blocks, txs, actions[p], ev));
        assert(fetch_step(old, ev, new, actions[i]));
        assert(old.wf() && new.wf());
        assert forall|n: u64, j: int| #![trigger passed(new, n, j)]
            qualifies(blocks, txs, account, n, j) && passed(new, n, j) implies stored_within(
                actions,
                i,
                account,
                n,
                blocks[n].transactions@[j]@,
            ) by {
            let id = blocks[n].transactions@[j]@;
            if passed(old, n, j) {
                let k = choose|k: int| 0 <= k <= p && (#[trigger] actions[k] matches FetchAction::Store { key, .. }
                    && key@ == key_spec(account, n, id));
                assert(0 <= k <= i);
            } else {
                if ev is Stored && n == old.current && j == old.next_tx {
                    assert(actions[p] matches FetchAction::Store { key, .. } && key@ == key_spec(account, n, id));
                } else if ev is Transaction && n == old.current && j == old.next_tx {
                    assert(actions[p] is FetchTransaction);
                    assert(false);
                } else if n == old.current && j > old.next_tx && in_block(old) {
                    assert(false);
                } else {
                    assert(!in_block(old) || j < 0);
                    assert(false);
                }
            }
        }
    }
}

/// A fetch that ran to its end, answered by a ledger, wrote a record for every
/// transaction that the ledger holds in the range and that was sent from or to
/// the account, under that transaction's key.
pub proof fn lemma_finished_fetch_stored_every_match(
    blocks: Map<u64, BlockData>,
    txs: Map<Seq<u8>, TxData>,
    account: Seq<u8>,
    block_start: u64,
    block_end: u64,
    states: Seq<RangeFetch>,
    actions: Seq<FetchAction>,
    events: Seq<FetchEvent>,
)
    requires
        is_fetch_run(blocks, txs, account, block_start, block_end, states, actions, events),
        actions.last() is Finished,
    ensures
        forall|n: u64, j: int| block_start <= n <= block_end && #[trigger] qualifies(blocks, txs, account, n, j)
            ==> stored_within(actions, actions.len() - 1, account, n, blocks[n].transactions@[j]@),
{
    let last = states.len() - 1;
    lemma_run_inv(blocks, txs, account, block_start, block_end, states, actions, events, last);
    assert forall|n: u64, j: int| block_start <= n <= block_end && #[trigger] qualifies(blocks, txs, account, n, j)
        implies stored_within(actions, actions.len() - 1, account, n, blocks[n].transactions@[j]@) by {
        assert(passed(states[last], n, j));
    }
}

/// The block numbers that `actions` ask the ledger for, in order.
pub open spec fn blocks_asked(actions: Seq<FetchAction>) -> Seq<u64>
    decreases actions.len(),
{
    if actions.len() == 0 {
        Seq::empty()
    } else {
        blocks_asked(actions.drop_last()) + match actions.last() {
            FetchAction::FetchBlock(n) => seq![n],
            _ => Seq::empty(),
        }
    }
}

/// Block numbers `first` to `last`, both included, ascending.
pub open spec fn block_span(first: u64, last: u64) -> Seq<u64> {
    Seq::new((last - first + 1) as nat, |k: int| (first + k) as u64)
}

proof fn lemma_step_moves_block(old: RangeFetch, event: FetchEvent, new: RangeFetch, action: FetchAction)
    requires
        fetch_step(old, event, new, action),
    ensures
        action matches FetchAction::FetchBlock(n) ==> new.current == old.current + 1 && n == new.current,
        !(action is FetchBlock) ==> new.current == old.current,
{
}

proof fn lemma_blocks_asked_prefix(
    blocks: Map<u64, BlockData>,
    txs: Map<Seq<u8>, TxData>,
    account: Seq<u8>,
    block_start: u64,
    block_end: u64,
    states: Seq<RangeFetch>,
    actions: Seq<FetchAction>,
    events: Seq<FetchEvent>,
    i: int,
)
    requires
        is_fetch_run(blocks, txs, account, block_start, block_end, states, actions, events),
        block_start <= block_end,
        0 <= i < states.len(),
    ensures
        block_start <= states[i].current <= block_end,
        blocks_asked(actions.take(i + 1)) == block_span(block_start, states[i].current),
    decreases i,
{
    lemma_run_inv(blocks, txs, account, block_start, block_end, states, actions, events, i);
    if i == 0 {
        let first = actions.take(1);
        assert(first.drop_last() =~= Seq::<FetchAction>::empty());
        assert(blocks_asked(first.drop_last()) == Seq::<u64>::empty());
        assert(first.last() == FetchAction::FetchBlock(block_start));
        assert(blocks_asked(first) =~= seq![block_start]);
        assert(block_span(block_start, states[0].current) =~= seq![block_start]);
    } else {
        let p = i - 1;
        lemma_blocks_asked_prefix(blocks, txs, account, block_start, block_end, states, actions, events, p);
        assert(fetch_step(states[p], events[p], states[i], actions[i]));
        lemma_step_moves_block(states[p], events[p], states[i], actions[i]);
        assert(actions.take(i + 1).drop_last() =~= actions.take(i));
        assert(actions.take(i + 1).last() == actions[i]);
        if let FetchAction::FetchBlock(n) = actions[i] {
            assert(states[i].stage != FetchStage::Done);
            assert(block_span(block_start, states[i].current) =~= block_span(block_start, states[p].current).push(n));
        } else {
            assert(blocks_asked(actions.take(i + 1)) =~= blocks_asked(actions.take(i)));
        }
    }
}

/// A fetch that ran to its end asked the ledger for every block of its range
/// exactly once, in ascending order, and for no other block; an empty range asks for none.
pub proof fn lemma_finished_fetch_asked_every_block(
    blocks: Map<u64, BlockData>,
    txs: Map<Seq<u8>, TxData>,
    account: Seq<u8>,
    block_start: u64,
    block_end: u64,
    states: Seq<RangeFetch>,
    actions: Seq<FetchAction>,
    events: Seq<FetchEvent>,
)
    requires
        is_fetch_run(blocks, txs, account, block_start, block_end, states, actions, events),
        actions.last() is Finished,
    ensures
        block_start <= block_end ==> blocks_asked(actions) == block_span(block_start, block_end),
        block_start > block_end ==> blocks_asked(actions) == Seq::<u64>::empty(),
{
    let last = states.len() - 1;
    lemma_run_inv(blocks, txs, account, block_start, block_end, states, actions, events, last);
    assert(actions.take(last + 1) =~= actions);
    if block_start <= block_end {
        lemma_blocks_asked_prefix(blocks, txs, account, block_start, block_end, states, actions, events, last);
    } else {
        if last > 0 {
            assert(ledger_answers(blocks, txs, actions[0], events[0]));
        }
        assert(actions.len() == 1);
        assert(actions.drop_last() =~= Seq::<FetchAction>::empty());
        assert(blocks_asked(actions.drop_last()) == Seq::<u64>::empty());
        assert(blocks_asked(actions) =~= Seq::<u64>::empty());
    }
}

} // verus!
