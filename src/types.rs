use vstd::prelude::*;

verus! {

/// Width of an account address, in bytes.
pub const ACCOUNT_LEN: usize = 20;

/// Width of a transaction hash, in bytes.
pub const HASH_LEN: usize = 32;

/// A chain address: twenty raw bytes, the partition key of the cache.
#[derive(Debug)]
pub struct Account {
    pub bytes: Vec<u8>,
}

impl View for Account {
    type V = Seq<u8>;

    open spec fn view(&self) -> Seq<u8> {
        self.bytes@
    }
}

impl Account {
    pub open spec fn wf(&self) -> bool {
        self.bytes@.len() == ACCOUNT_LEN
    }

    /// An address made of the given bytes, or `None` unless there are twenty of them.
    pub fn from_bytes(bytes: Vec<u8>) -> (r: Option<Account>)
        ensures
            r matches Some(a) ==> a@ == bytes@,
            r is Some <==> bytes@.len() == ACCOUNT_LEN,
    {
        if bytes.len() == ACCOUNT_LEN {
            Some(Account { bytes })
        } else {
            None
        }
    }

    pub fn duplicate(&self) -> (r: Account)
        ensures
            r@ == self@,
    {
        Account { bytes: self.bytes.clone() }
    }

    /// Whether two addresses are the same bytes.
    pub fn same(&self, other: &Account) -> (r: bool)
        ensures
            r == (self@ == other@),
    {
        bytes_equal(&self.bytes, &other.bytes)
    }
}

/// A transaction hash: thirty-two raw bytes.
#[derive(Debug)]
pub struct TxHash {
    pub bytes: Vec<u8>,
}

impl View for TxHash {
    type V = Seq<u8>;

    open spec fn view(&self) -> Seq<u8> {
        self.bytes@
    }
}

impl TxHash {
    pub open spec fn wf(&self) -> bool {
        self.bytes@.len() == HASH_LEN
    }

    /// A hash made of the given bytes, or `None` unless there are thirty-two of them.
    pub fn from_bytes(bytes: Vec<u8>) -> (r: Option<TxHash>)
        ensures
            r matches Some(h) ==> h@ == bytes@,
            r is Some <==> bytes@.len() == HASH_LEN,
    {
        if bytes.len() == HASH_LEN {
            Some(TxHash { bytes })
        } else {
            None
        }
    }

    pub fn duplicate(&self) -> (r: TxHash)
        ensures
            r@ == self@,
    {
        TxHash { bytes: self.bytes.clone() }
    }
}

/// Whether two byte vectors hold the same bytes.
pub fn bytes_equal(a: &Vec<u8>, b: &Vec<u8>) -> (r: bool)
    ensures
        r == (a@ == b@),
{
    if a.len() != b.len() {
        return false;
    }
    let mut i: usize = 0;
    while i < a.len()
        invariant
            a@.len() == b@.len(),
            i <= a@.len(),
            forall|j: int| 0 <= j < i ==> a@[j] == b@[j],
        decreases a@.len() - i,
    {
        if a[i] != b[i] {
            return false;
        }
        i = i + 1;
    }
    assert(a@ =~= b@);
    true
}

/// A 256-bit unsigned quantity (an amount of wei, a gas figure), as four
/// 64-bit limbs, least significant first.
#[derive(Clone, Copy, Debug)]
pub struct Quantity {
    pub limbs: [u64; 4],
}

/// What the ledger reports of a block.
pub struct BlockData {
    pub timestamp: u64,
    pub transactions: Vec<TxHash>,
}

/// What the ledger reports of a transaction.
pub struct TxData {
    pub hash: TxHash,
    pub from: Option<Account>,
    pub to: Option<Account>,
    pub value: Quantity,
    pub gas_price: Option<Quantity>,
    pub gas: Quantity,
    pub transaction_type: Option<u64>,
}

/// What the ledger reports of a transaction's receipt.
#[derive(Clone, Copy, Debug, PartialEq, Eq, Structural)]
pub struct ReceiptData {
    pub status: Option<u64>,
}

/// A cached transaction: the transaction, the block it was found in, that block's
/// timestamp and the receipt, if one was found.
pub struct TransactionRecord {
    pub block_number: u64,
    pub block_timestamp: u64,
    pub transaction: TxData,
    pub receipt: Option<ReceiptData>,
}

/// The transaction was sent from or to the account.
pub open spec fn involves(tx: TxData, a: Seq<u8>) -> bool {
    (tx.from matches Some(f) && f@ == a) || (tx.to matches Some(t) && t@ == a)
}

impl TxData {
    /// Whether the transaction was sent from or to `account`.
    pub fn involves(&self, account: &Account) -> (r: bool)
        ensures
            r == involves(*self, account@),
    {
        let from_match = match &self.from {
            Some(f) => f.same(account),
            None => false,
        };
        let to_match = match &self.to {
            Some(t) => t.same(account),
            None => false,
        };
        from_match || to_match
    }
}

} // verus!
