use vstd::prelude::*;
use crate::coverage::{is_borders_of, parsed_keys, read_cache_keys, CoverageIndex};
use crate::fetch::{FetchAction, FetchStage, RangeFetch};
use crate::key::{
    key_spec, lemma_key_range_exact, parse_full_spec, range_end_spec, range_start_spec,
    stringify_key_range, ParseError,
};
use crate::lex::in_range;
use crate::types::{Account, TransactionRecord, ACCOUNT_LEN};

verus! {

/// How a query is to be answered.
pub enum QueryPlan {
    /// Read the store's keys in `[start, end)`, in ascending order: the ledger is not asked.
    FromStore { start: Vec<u8>, end: Vec<u8> },
    /// Scan the whole range from the ledger: drive the fetch from its first action.
    FromLedger { fetch: RangeFetch, first: FetchAction },
}

/// Coordinator of the transaction cache: it knows which block window of each
/// account was scanned, answers a query from the store when the window holds it,
/// and otherwise scans the whole requested range from the ledger.
pub struct CachedTransactions {
    pub coverage: CoverageIndex,
}

impl CachedTransactions {
    pub open spec fn wf(&self) -> bool {
        self.coverage.wf()
    }

    /// A coordinator whose coverage is rebuilt from every key held in the store;
    /// fails if any key does not read back in full.
    pub fn new(keys: &Vec<Vec<u8>>) -> (r: Result<CachedTransactions, ParseError>)
        ensures
            match r {
                Ok(c) => c.wf() && (forall|i: int| 0 <= i < keys@.len() ==> #[trigger] parse_full_spec(keys@[i]@) is Some)
                    && is_borders_of(c.coverage@, parsed_keys(keys@)),
                Err(_) => exists|i: int| 0 <= i < keys@.len() && #[trigger] parse_full_spec(keys@[i]@) is None,
            },
    {
        match read_cache_keys(keys) {
            Ok(coverage) => Ok(CachedTransactions { coverage }),
            Err(e) => Err(e),
        }
    }

    /// Plans the query for the transactions of `account` in blocks `block_start`
    /// to `block_end`: from the store exactly when the account's scanned window
    /// holds the whole range, else a fetch of the whole range from the ledger.
    pub fn get_by_account(&self, account: Account, block_start: u64, block_end: u64) -> (r: QueryPlan)
        requires
            self.wf(),
            account.wf(),
        ensures
            match r {
                QueryPlan::FromStore { start, end } => {
                    &&& self.coverage@.contains_key(account@)
                    &&& self.coverage@[account@].0 <= block_start
                    &&& block_end <= self.coverage@[account@].1
                    &&& start@ == range_start_spec(account@, block_start)
                    &&& end@ == range_end_spec(account@, block_end)
                },
                QueryPlan::FromLedger { fetch, first } => {
                    &&& !(self.coverage@.contains_key(account@) && self.coverage@[account@].0 <= block_start
                        && block_end <= self.coverage@[account@].1)
                    &&& fetch.wf()
                    &&& fetch.account@ == account@
                    &&& fetch.block_start == block_start
                    &&& fetch.block_end == block_end
                    &&& fetch.found@.len() == 0
                    &&& block_start <= block_end ==> fetch.stage == FetchStage::AwaitBlock && first
                        == FetchAction::FetchBlock(block_start)
                    &&& block_start > block_end ==> fetch.stage == FetchStage::Done && first is Finished
                },
            },
    {
        if self.coverage.covers(&account, block_start, block_end) {
            let (start, end) = stringify_key_range(&account, block_start, block_end);
            QueryPlan::FromStore { start, end }
        } else {
            let (fetch, first) = RangeFetch::start(account, block_start, block_end);
            QueryPlan::FromLedger { fetch, first }
        }
    }

    /// Ends a completed fetch: the account's window becomes exactly the fetched
    /// range, and the records found are returned in the order found.
    pub fn complete_fetch(&mut self, fetch: RangeFetch) -> (r: Vec<TransactionRecord>)
        requires
            old(self).wf(),
            fetch.wf(),
            fetch.stage == FetchStage::Done,
        ensures
            final(self).wf(),
            final(self).coverage@ == old(self).coverage@.insert(
                fetch.account@,
                (fetch.block_start, fetch.block_end),
            ),
            r@ == fetch.found@,
    {
        self.coverage.set(&fetch.account, fetch.block_start, fetch.block_end);
        fetch.found
    }
}

/// A query that the coverage holds reads exactly the stored records of that
/// account whose block lies in the requested range: for every stored key, it is
/// in the planned key range if and only if it belongs to the account and its
/// block is between `block_start` and `block_end`.
pub proof fn lemma_covered_query_reads_range(
    account: Seq<u8>,
    block_start: u64,
    block_end: u64,
    stored: Set<Seq<u8>>,
)
    requires
        account.len() == ACCOUNT_LEN,
        forall|k: Seq<u8>| #[trigger] stored.contains(k) ==> exists|a: Seq<u8>, b: u64, h: Seq<u8>|
            a.len() == ACCOUNT_LEN && k == key_spec(a, b, h),
    ensures
        forall|k: Seq<u8>| #[trigger] stored.contains(k) ==> (in_range(
            k,
            range_start_spec(account, block_start),
            range_end_spec(account, block_end),
        ) <==> exists|b: u64, h: Seq<u8>| block_start <= b <= block_end && k == key_spec(account, b, h)),
{
    assert forall|k: Seq<u8>| #[trigger] stored.contains(k) implies (in_range(
        k,
        range_start_spec(account, block_start),
        range_end_spec(account, block_end),
    ) <==> exists|b: u64, h: Seq<u8>| block_start <= b <= block_end && k == key_spec(account, b, h)) by {
        let (a, b, h) = choose|a: Seq<u8>, b: u64, h: Seq<u8>| a.len() == ACCOUNT_LEN && k == key_spec(a, b, h);
        lemma_key_range_exact(account, block_start, block_end, a, b, h);
        if exists|b2: u64, h2: Seq<u8>| block_start <= b2 <= block_end && k == key_spec(account, b2, h2) {
            let (b2, h2) = choose|b2: u64, h2: Seq<u8>| block_start <= b2 <= block_end && k == key_spec(account, b2, h2);
            lemma_key_range_exact(account, block_start, block_end, account, b2, h2);
        }
    }
}

/// Repeating a query that the coverage holds reads the same records: the first
/// call writes neither the coverage nor the store, and the set of keys a covered
/// query reads depends on the stored keys, the account and the range alone.
pub proof fn lemma_covered_query_repeatable(
    coverage: Map<Seq<u8>, (u64, u64)>,
    account: Seq<u8>,
    block_start: u64,
    block_end: u64,
    stored: Set<Seq<u8>>,
)
    requires
        account.len() == ACCOUNT_LEN,
        coverage.contains_key(account),
        coverage[account].0 <= block_start,
        block_end <= coverage[account].1,
        forall|k: Seq<u8>| #[trigger] stored.contains(k) ==> exists|a: Seq<u8>, b: u64, h: Seq<u8>|
            a.len() == ACCOUNT_LEN && k == key_spec(a, b, h),
    ensures
        stored.filter(
            |k: Seq<u8>|
                in_range(k, range_start_spec(account, block_start), range_end_spec(account, block_end)),
        ) == stored.filter(
            |k: Seq<u8>|
                exists|b: u64, h: Seq<u8>| block_start <= b <= block_end && k == key_spec(account, b, h),
        ),
{
    lemma_covered_query_reads_range(account, block_start, block_end, stored);
    let read = stored.filter(
        |k: Seq<u8>|
            in_range(k, range_start_spec(account, block_start), range_end_spec(account, block_end)),
    );
    let wanted = stored.filter(
        |k: Seq<u8>|
            exists|b: u64, h: Seq<u8>| block_start <= b <= block_end && k == key_spec(account, b, h),
    );
    assert(read =~= wanted);
}

} // verus!
