use vstd::prelude::*;
use crate::lex::{lex_lt, in_range, lemma_lex_common_prefix, lemma_lex_extend, lemma_lex_proper_prefix, lemma_lex_asymmetric, lemma_lex_total};
use crate::types::{Account, TxHash, ACCOUNT_LEN, HASH_LEN};

verus! {

/// Number of decimal digits a block number takes in a key, zero-padded.
pub const BLOCK_WIDTH: usize = 32;

/// Lower-case hexadecimal digit for a value below sixteen.
pub open spec fn hex_digit(v: u8) -> u8 {
    if v < 10 { (48 + v) as u8 } else { (87 + v) as u8 }
}

/// Lower-case hexadecimal text of a byte sequence, two digits per byte, high nibble first.
pub open spec fn hex_seq(b: Seq<u8>) -> Seq<u8>
    decreases b.len(),
{
    if b.len() == 0 {
        Seq::empty()
    } else {
        hex_seq(b.drop_last()) + seq![hex_digit(b.last() / 16), hex_digit(b.last() % 16)]
    }
}

/// Accepted hexadecimal digit, either case.
pub open spec fn is_hex_char(c: u8) -> bool {
    (48 <= c <= 57) || (97 <= c <= 102) || (65 <= c <= 70)
}

pub open spec fn hex_value(c: u8) -> u8 {
    if c <= 57 { (c - 48) as u8 } else if c >= 97 { (c - 87) as u8 } else { (c - 55) as u8 }
}

pub open spec fn all_hex(s: Seq<u8>) -> bool {
    forall|i: int| 0 <= i < s.len() ==> is_hex_char(#[trigger] s[i])
}

/// Bytes spelled by hexadecimal text, two digits per byte.
pub open spec fn unhex(s: Seq<u8>) -> Seq<u8>
    decreases s.len(),
{
    if s.len() < 2 {
        Seq::empty()
    } else {
        unhex(s.subrange(0, s.len() - 2)).push(
            (hex_value(s[s.len() - 2]) * 16 + hex_value(s[s.len() - 1])) as u8,
        )
    }
}

pub open spec fn pow10(w: nat) -> nat
    decreases w,
{
    if w == 0 { 1 } else { 10 * pow10((w - 1) as nat) }
}

/// The lowest `w` decimal digits of `n`, most significant first, as ASCII.
pub open spec fn dec_pad(n: nat, w: nat) -> Seq<u8>
    decreases w,
{
    if w == 0 {
        Seq::empty()
    } else {
        dec_pad(n / 10, (w - 1) as nat).push((48 + n % 10) as u8)
    }
}

pub open spec fn is_dec_char(c: u8) -> bool {
    48 <= c <= 57
}

pub open spec fn all_dec(s: Seq<u8>) -> bool {
    forall|i: int| 0 <= i < s.len() ==> is_dec_char(#[trigger] s[i])
}

/// Value of decimal text, most significant digit first.
pub open spec fn dec_value(s: Seq<u8>) -> nat
    decreases s.len(),
{
    if s.len() == 0 {
        0
    } else {
        dec_value(s.drop_last()) * 10 + (s.last() - 48) as nat
    }
}

pub proof fn lemma_hex_seq_len(b: Seq<u8>)
    ensures
        hex_seq(b).len() == 2 * b.len(),
    decreases b.len(),
{
    if b.len() > 0 {
        lemma_hex_seq_len(b.drop_last());
    }
}

pub proof fn lemma_hex_seq_index(b: Seq<u8>, i: int)
    requires
        0 <= i < b.len(),
    ensures
        hex_seq(b)[2 * i] == hex_digit(b[i] / 16),
        hex_seq(b)[2 * i + 1] == hex_digit(b[i] % 16),
    decreases b.len(),
{
    lemma_hex_seq_len(b.drop_last());
    if i < b.len() - 1 {
        lemma_hex_seq_index(b.drop_last(), i);
    }
}

pub proof fn lemma_hex_seq_all_hex(b: Seq<u8>)
    ensures
        all_hex(hex_seq(b)),
{
    lemma_hex_seq_len(b);
    assert forall|j: int| 0 <= j < hex_seq(b).len() implies is_hex_char(#[trigger] hex_seq(b)[j]) by {
        lemma_hex_seq_index(b, j / 2);
    }
}

/// Reading hexadecimal text back gives the bytes it was written from.
pub proof fn lemma_unhex_hex(b: Seq<u8>)
    ensures
        unhex(hex_seq(b)) == b,
    decreases b.len(),
{
    if b.len() > 0 {
        let h = hex_seq(b);
        lemma_hex_seq_len(b);
        lemma_hex_seq_len(b.drop_last());
        assert(h.subrange(0, h.len() - 2) =~= hex_seq(b.drop_last()));
        lemma_unhex_hex(b.drop_last());
        let x = b.last();
        assert((x / 16) * 16 + x % 16 == x);
        assert(b =~= b.drop_last().push(b.last()));
    }
}

/// Hexadecimal text determines the bytes it was written from.
pub proof fn lemma_hex_seq_injective(a: Seq<u8>, b: Seq<u8>)
    requires
        hex_seq(a) == hex_seq(b),
    ensures
        a == b,
{
    lemma_unhex_hex(a);
    lemma_unhex_hex(b);
}

pub proof fn lemma_dec_pad_len(n: nat, w: nat)
    ensures
        dec_pad(n, w).len() == w,
    decreases w,
{
    if w > 0 {
        lemma_dec_pad_len(n / 10, (w - 1) as nat);
    }
}

pub proof fn lemma_dec_pad_all_dec(n: nat, w: nat)
    ensures
        all_dec(dec_pad(n, w)),
    decreases w,
{
    if w > 0 {
        lemma_dec_pad_all_dec(n / 10, (w - 1) as nat);
    }
}

/// Reading padded decimal text back gives the number, when it fits in the width.
pub proof fn lemma_dec_value_dec_pad(n: nat, w: nat)
    requires
        n < pow10(w),
    ensures
        dec_value(dec_pad(n, w)) == n,
    decreases w,
{
    if w > 0 {
        assert(n / 10 < pow10((w - 1) as nat));
        lemma_dec_value_dec_pad(n / 10, (w - 1) as nat);
        let s = dec_pad(n, w);
        assert(s.drop_last() =~= dec_pad(n / 10, (w - 1) as nat));
    } else {
        assert(n == 0);
    }
}

/// Zero-padded decimal text of equal width sorts as the numbers do.
pub proof fn lemma_dec_pad_order(m: nat, n: nat, w: nat)
    requires
        m < n < pow10(w),
    ensures
        lex_lt(dec_pad(m, w), dec_pad(n, w)),
    decreases w,
{
    if w == 0 {
        assert(false);
    } else {
        let w1 = (w - 1) as nat;
        assert(m / 10 <= n / 10);
        assert(n / 10 < pow10(w1));
        lemma_dec_pad_len(m / 10, w1);
        lemma_dec_pad_len(n / 10, w1);
        let last_m = seq![(48 + m % 10) as u8];
        let last_n = seq![(48 + n % 10) as u8];
        assert(dec_pad(m, w) =~= dec_pad(m / 10, w1) + last_m);
        assert(dec_pad(n, w) =~= dec_pad(n / 10, w1) + last_n);
        if m / 10 < n / 10 {
            lemma_dec_pad_order(m / 10, n / 10, w1);
            lemma_lex_extend(dec_pad(m / 10, w1), dec_pad(n / 10, w1), last_m, last_n);
        } else {
            assert(m % 10 < n % 10);
            lemma_lex_common_prefix(dec_pad(m / 10, w1), last_m, last_n);
        }
    }
}

/// Every `u64` fits in the block-number width of a key.
pub proof fn lemma_u64_fits_block_width(n: u64)
    ensures
        (n as nat) < pow10(BLOCK_WIDTH as nat),
{
    reveal_with_fuel(pow10, 33);
    assert(pow10(20) > 0xffff_ffff_ffff_ffffnat);
    assert(pow10(32) >= pow10(20));
}

/// `0x` followed by the address in lower-case hexadecimal.
pub open spec fn account_part(a: Seq<u8>) -> Seq<u8> {
    seq![48u8, 120u8] + hex_seq(a)
}

/// `_` followed by the block number, zero-padded to the block width.
pub open spec fn block_part(b: u64) -> Seq<u8> {
    seq![95u8] + dec_pad(b as nat, BLOCK_WIDTH as nat)
}

/// `_0x` followed by the hash in lower-case hexadecimal.
pub open spec fn hash_part(h: Seq<u8>) -> Seq<u8> {
    seq![95u8, 48u8, 120u8] + hex_seq(h)
}

/// `_~~~`: sorts after every hash part, since `~` follows every hexadecimal digit.
pub open spec fn end_mark() -> Seq<u8> {
    seq![95u8, 126u8, 126u8, 126u8]
}

/// The store key of a transaction record.
pub open spec fn key_spec(a: Seq<u8>, b: u64, h: Seq<u8>) -> Seq<u8> {
    account_part(a) + block_part(b) + hash_part(h)
}

/// Lower bound (inclusive) of the keys of an account from block `s` on.
pub open spec fn range_start_spec(a: Seq<u8>, s: u64) -> Seq<u8> {
    account_part(a) + block_part(s)
}

/// Upper bound (exclusive) of the keys of an account up to block `e` included.
pub open spec fn range_end_spec(a: Seq<u8>, e: u64) -> Seq<u8> {
    account_part(a) + block_part(e) + end_mark()
}

/// Appends the hexadecimal text of `bytes` to `out`.
fn push_hex(out: &mut Vec<u8>, bytes: &Vec<u8>)
    ensures
        final(out)@ == old(out)@ + hex_seq(bytes@),
{
    let mut i: usize = 0;
    while i < bytes.len()
        invariant
            i <= bytes@.len(),
            out@ == old(out)@ + hex_seq(bytes@.subrange(0, i as int)),
        decreases bytes@.len() - i,
    {
        let x = bytes[i];
        let hi = hex_digit_exec(x / 16);
        let lo = hex_digit_exec(x % 16);
        proof {
            let next = bytes@.subrange(0, i + 1);
            assert(next.drop_last() =~= bytes@.subrange(0, i as int));
        }
        out.push(hi);
        out.push(lo);
        i = i + 1;
    }
    assert(bytes@.subrange(0, bytes@.len() as int) =~= bytes@);
}

fn hex_digit_exec(v: u8) -> (r: u8)
    requires
        v < 16,
    ensures
        r == hex_digit(v),
{
    if v < 10 { 48 + v } else { 87 + v }
}

/// The lowest `w` decimal digits of `n`, zero-padded.
fn padded_decimal(n: u64, w: usize) -> (r: Vec<u8>)
    ensures
        r@ == dec_pad(n as nat, w as nat),
    decreases w,
{
    if w == 0 {
        Vec::new()
    } else {
        let mut v = padded_decimal(n / 10, w - 1);
        v.push(48u8 + (n % 10) as u8);
        v
    }
}

fn push_all(out: &mut Vec<u8>, s: &Vec<u8>)
    ensures
        final(out)@ == old(out)@ + s@,
{
    let mut i: usize = 0;
    while i < s.len()
        invariant
            i <= s@.len(),
            out@ == old(out)@ + s@.subrange(0, i as int),
        decreases s@.len() - i,
    {
        out.push(s[i]);
        i = i + 1;
    }
    assert(s@.subrange(0, s@.len() as int) =~= s@);
}

fn push_account_part(out: &mut Vec<u8>, account: &Account)
    ensures
        final(out)@ == old(out)@ + account_part(account@),
{
    let ghost start = out@;
    out.push(48u8);
    out.push(120u8);
    push_hex(out, &account.bytes);
    assert(out@ =~= start + account_part(account@));
}

fn push_block_part(out: &mut Vec<u8>, block: u64)
    ensures
        final(out)@ == old(out)@ + block_part(block),
{
    let ghost start = out@;
    out.push(95u8);
    let digits = padded_decimal(block, BLOCK_WIDTH);
    push_all(out, &digits);
    assert(out@ =~= start + block_part(block));
}

/// The store key of the record of transaction `tr_hash`, in block `block_number`,
/// cached for `account`.
pub fn stringify_key(account: &Account, block_number: u64, tr_hash: &TxHash) -> (r: Vec<u8>)
    ensures
        r@ == key_spec(account@, block_number, tr_hash@),
{
    let mut out: Vec<u8> = Vec::new();
    push_account_part(&mut out, account);
    push_block_part(&mut out, block_number);
    out.push(95u8);
    out.push(48u8);
    out.push(120u8);
    push_hex(&mut out, &tr_hash.bytes);
    assert(out@ =~= key_spec(account@, block_number, tr_hash@));
    out
}

/// The key range `[start, end)` that holds exactly the records of `account`
/// in blocks `block_start` to `block_end`, both included.
pub fn stringify_key_range(account: &Account, block_start: u64, block_end: u64) -> (r: (
    Vec<u8>,
    Vec<u8>,
))
    ensures
        r.0@ == range_start_spec(account@, block_start),
        r.1@ == range_end_spec(account@, block_end),
{
    let mut begin: Vec<u8> = Vec::new();
    push_account_part(&mut begin, account);
    push_block_part(&mut begin, block_start);
    assert(begin@ =~= range_start_spec(account@, block_start));
    let mut end: Vec<u8> = Vec::new();
    push_account_part(&mut end, account);
    push_block_part(&mut end, block_end);
    end.push(95u8);
    end.push(126u8);
    end.push(126u8);
    end.push(126u8);
    assert(end@ =~= range_end_spec(account@, block_end));
    (begin, end)
}

proof fn lemma_hash_part_before_end_mark(h: Seq<u8>)
    ensures
        lex_lt(hash_part(h), end_mark()),
{
    let hp = hash_part(h);
    assert(hp[0] == 95u8);
    assert(hp[1] == 48u8);
    assert(hp.drop_first()[0] == 48u8);
    assert(end_mark().drop_first()[0] == 126u8);
    reveal_with_fuel(lex_lt, 3);
}

/// The key range of an account and two blocks holds the key of a record
/// exactly when the record belongs to that account and lies between the blocks.
pub proof fn lemma_key_range_exact(
    a: Seq<u8>,
    s: u64,
    e: u64,
    a2: Seq<u8>,
    b: u64,
    h: Seq<u8>,
)
    requires
        a.len() == ACCOUNT_LEN,
        a2.len() == ACCOUNT_LEN,
    ensures
        in_range(key_spec(a2, b, h), range_start_spec(a, s), range_end_spec(a, e)) <==> (a2 == a
            && s <= b && b <= e),
{
    let k = key_spec(a2, b, h);
    let lo = range_start_spec(a, s);
    let hi = range_end_spec(a, e);
    let ds = dec_pad(s as nat, BLOCK_WIDTH as nat);
    let de = dec_pad(e as nat, BLOCK_WIDTH as nat);
    let db = dec_pad(b as nat, BLOCK_WIDTH as nat);
    let hp = hash_part(h);
    let u = seq![95u8];
    lemma_hex_seq_len(a);
    lemma_hex_seq_len(a2);
    lemma_dec_pad_len(s as nat, BLOCK_WIDTH as nat);
    lemma_dec_pad_len(e as nat, BLOCK_WIDTH as nat);
    lemma_dec_pad_len(b as nat, BLOCK_WIDTH as nat);
    lemma_u64_fits_block_width(s);
    lemma_u64_fits_block_width(e);
    lemma_u64_fits_block_width(b);
    if a2 != a {
        if account_part(a2) == account_part(a) {
            assert(hex_seq(a2) =~= account_part(a2).subrange(2, 42));
            assert(hex_seq(a) =~= account_part(a).subrange(2, 42));
            lemma_hex_seq_injective(a, a2);
        }
        lemma_lex_total(account_part(a2), account_part(a));
        assert(k =~= account_part(a2) + (block_part(b) + hp));
        assert(lo =~= account_part(a) + block_part(s));
        assert(hi =~= account_part(a) + (block_part(e) + end_mark()));
        if lex_lt(account_part(a2), account_part(a)) {
            lemma_lex_extend(account_part(a2), account_part(a), block_part(b) + hp, block_part(s));
        } else {
            lemma_lex_extend(
                account_part(a),
                account_part(a2),
                block_part(e) + end_mark(),
                block_part(b) + hp,
            );
            lemma_lex_asymmetric(hi, k);
        }
    } else {
        let p = account_part(a) + u;
        assert(k =~= p + (db + hp));
        assert(lo =~= p + ds);
        assert(hi =~= p + (de + end_mark()));
        lemma_lex_common_prefix(p, db + hp, ds);
        lemma_lex_common_prefix(p, db + hp, de + end_mark());
        // lower bound
        if s < b {
            lemma_dec_pad_order(s as nat, b as nat, BLOCK_WIDTH as nat);
            assert(ds =~= ds + Seq::<u8>::empty());
            lemma_lex_extend(ds, db, Seq::<u8>::empty(), hp);
            lemma_lex_asymmetric(ds, db + hp);
        } else if s == b {
            lemma_lex_proper_prefix(ds, hp);
            lemma_lex_asymmetric(ds, db + hp);
        } else {
            lemma_dec_pad_order(b as nat, s as nat, BLOCK_WIDTH as nat);
            assert(ds =~= ds + Seq::<u8>::empty());
            lemma_lex_extend(db, ds, hp, Seq::<u8>::empty());
        }
        // upper bound
        if b < e {
            lemma_dec_pad_order(b as nat, e as nat, BLOCK_WIDTH as nat);
            lemma_lex_extend(db, de, hp, end_mark());
        } else if b == e {
            lemma_hash_part_before_end_mark(h);
            lemma_lex_common_prefix(db, hp, end_mark());
        } else {
            lemma_dec_pad_order(e as nat, b as nat, BLOCK_WIDTH as nat);
            lemma_lex_extend(de, db, end_mark(), hp);
            lemma_lex_asymmetric(de + end_mark(), db + hp);
        }
    }
}

/// For one account, keys sort by block number first.
pub proof fn lemma_key_order(a: Seq<u8>, b1: u64, h1: Seq<u8>, b2: u64, h2: Seq<u8>)
    requires
        b1 < b2,
    ensures
        lex_lt(key_spec(a, b1, h1), key_spec(a, b2, h2)),
{
    let p = account_part(a) + seq![95u8];
    let d1 = dec_pad(b1 as nat, BLOCK_WIDTH as nat);
    let d2 = dec_pad(b2 as nat, BLOCK_WIDTH as nat);
    lemma_dec_pad_len(b1 as nat, BLOCK_WIDTH as nat);
    lemma_dec_pad_len(b2 as nat, BLOCK_WIDTH as nat);
    lemma_u64_fits_block_width(b2);
    lemma_dec_pad_order(b1 as nat, b2 as nat, BLOCK_WIDTH as nat);
    lemma_lex_extend(d1, d2, hash_part(h1), hash_part(h2));
    assert(key_spec(a, b1, h1) =~= p + (d1 + hash_part(h1)));
    assert(key_spec(a, b2, h2) =~= p + (d2 + hash_part(h2)));
    lemma_lex_common_prefix(p, d1 + hash_part(h1), d2 + hash_part(h2));
}

/// Length of the account and block fields of a key, with their separator.
pub const SHORT_KEY_LEN: usize = 75;

/// Length of a full key: account, block and hash fields.
pub const KEY_LEN: usize = 142;

/// The key could not be read back.
#[derive(Debug, PartialEq, Eq, Structural)]
pub enum ParseError {
    MalformedKey,
}

/// Account and block of a key whose first two fields are well formed; any text
/// may follow the block field after a `_`.
pub open spec fn parse_short_spec(k: Seq<u8>) -> Option<(Seq<u8>, u64)> {
    if k.len() >= SHORT_KEY_LEN && k[0] == 48u8 && k[1] == 120u8 && all_hex(k.subrange(2, 42))
        && k[42] == 95u8 && all_dec(k.subrange(43, 75)) && dec_value(k.subrange(43, 75))
        <= u64::MAX && (k.len() == SHORT_KEY_LEN || k[75] == 95u8) {
        Some((unhex(k.subrange(2, 42)), dec_value(k.subrange(43, 75)) as u64))
    } else {
        None
    }
}

/// Account, block and hash of a well-formed full key.
pub open spec fn parse_full_spec(k: Seq<u8>) -> Option<(Seq<u8>, u64, Seq<u8>)> {
    if k.len() == KEY_LEN && parse_short_spec(k) is Some && k[76] == 48u8 && k[77] == 120u8
        && all_hex(k.subrange(78, 142)) {
        Some(
            (
                parse_short_spec(k).unwrap().0,
                parse_short_spec(k).unwrap().1,
                unhex(k.subrange(78, 142)),
            ),
        )
    } else {
        None
    }
}

fn hex_value_exec(c: u8) -> (r: Option<u8>)
    ensures
        r is Some <==> is_hex_char(c),
        r matches Some(v) ==> v == hex_value(c) && v < 16,
{
    if 48 <= c && c <= 57 {
        Some(c - 48)
    } else if 97 <= c && c <= 102 {
        Some(c - 87)
    } else if 65 <= c && c <= 70 {
        Some(c - 55)
    } else {
        None
    }
}

/// Reads `2 * n` hexadecimal digits of `k` from position `from` as `n` bytes.
fn parse_hex(k: &Vec<u8>, from: usize, n: usize) -> (r: Option<Vec<u8>>)
    requires
        from + 2 * n <= k@.len(),
    ensures
        r is Some <==> all_hex(k@.subrange(from as int, from + 2 * n)),
        r matches Some(v) ==> v@ == unhex(k@.subrange(from as int, from + 2 * n)),
{
    let ghost full = k@.subrange(from as int, from + 2 * n);
    let klen = k.len();
    let mut out: Vec<u8> = Vec::new();
    let mut i: usize = 0;
    while i < n
        invariant
            klen == k@.len(),
            from + 2 * n <= k@.len(),
            i <= n,
            full == k@.subrange(from as int, from + 2 * n),
            all_hex(k@.subrange(from as int, from + 2 * i)),
            out@ == unhex(k@.subrange(from as int, from + 2 * i)),
        decreases n - i,
    {
        let hi = hex_value_exec(k[from + 2 * i]);
        let lo = hex_value_exec(k[from + 2 * i + 1]);
        if hi.is_none() || lo.is_none() {
            proof {
                if hi.is_none() {
                    assert(!is_hex_char(full[2 * i as int]));
                } else {
                    assert(!is_hex_char(full[2 * i + 1]));
                }
            }
            return None;
        }
        let hv = hi.unwrap();
        let lv = lo.unwrap();
        proof {
            let next = k@.subrange(from as int, from + 2 * i + 2);
            assert(next.subrange(0, next.len() - 2) =~= k@.subrange(from as int, from + 2 * i));
            assert forall|j: int| 0 <= j < next.len() implies is_hex_char(#[trigger] next[j]) by {
                if j < 2 * i {
                    assert(next[j] == k@.subrange(from as int, from + 2 * i)[j]);
                }
            }
        }
        out.push(hv * 16 + lv);
        i = i + 1;
    }
    Some(out)
}

proof fn lemma_pow10_block_width()
    ensures
        pow10(BLOCK_WIDTH as nat) == 100000000000000000000000000000000nat,
{
    reveal_with_fuel(pow10, 33);
}

proof fn lemma_pow10_monotone(i: nat, j: nat)
    requires
        i <= j,
    ensures
        pow10(i) <= pow10(j),
    decreases j,
{
    if i < j {
        lemma_pow10_monotone(i, (j - 1) as nat);
    }
}

/// Reads `w` decimal digits of `k` from position `from` as a `u64`.
fn parse_dec(k: &Vec<u8>, from: usize, w: usize) -> (r: Option<u64>)
    requires
        from + w <= k@.len(),
        w <= BLOCK_WIDTH,
    ensures
        r is Some <==> all_dec(k@.subrange(from as int, from + w)) && dec_value(
            k@.subrange(from as int, from + w),
        ) <= u64::MAX,
        r matches Some(v) ==> v == dec_value(k@.subrange(from as int, from + w)),
{
    let ghost full = k@.subrange(from as int, from + w);
    let klen = k.len();
    let mut acc: u128 = 0;
    let mut i: usize = 0;
    proof {
        lemma_pow10_block_width();
    }
    while i < w
        invariant
            klen == k@.len(),
            from + w <= k@.len(),
            w <= BLOCK_WIDTH,
            i <= w,
            full == k@.subrange(from as int, from + w),
            pow10(BLOCK_WIDTH as nat) == 100000000000000000000000000000000nat,
            all_dec(k@.subrange(from as int, from + i)),
            acc == dec_value(k@.subrange(from as int, from + i)),
            acc < pow10(i as nat),
        decreases w - i,
    {
        let c = k[from + i];
        if c < 48 || c > 57 {
            assert(!is_dec_char(full[i as int]));
            return None;
        }
        proof {
            let next = k@.subrange(from as int, from + i + 1);
            assert(next.drop_last() =~= k@.subrange(from as int, from + i));
            assert forall|j: int| 0 <= j < next.len() implies is_dec_char(#[trigger] next[j]) by {
                if j < i {
                    assert(next[j] == k@.subrange(from as int, from + i)[j]);
                }
            }
            lemma_pow10_monotone((i + 1) as nat, BLOCK_WIDTH as nat);
            let p = pow10(i as nat);
            assert(acc * 10 + (c - 48) < 10 * p) by (nonlinear_arith)
                requires
                    acc < p,
                    c - 48 < 10,
            ;
        }
        acc = acc * 10 + (c - 48) as u128;
        i = i + 1;
    }
    assert(k@.subrange(from as int, from + i) == full);
    if acc <= u64::MAX as u128 {
        Some(acc as u64)
    } else {
        None
    }
}

/// Reads the account and block fields of a key.
pub fn parse_key_string_short(key: &Vec<u8>) -> (r: Result<(Account, u64), ParseError>)
    ensures
        match r {
            Ok((a, b)) => parse_short_spec(key@) == Some((a@, b)) && a.wf(),
            Err(_) => parse_short_spec(key@) is None,
        },
{
    if key.len() < SHORT_KEY_LEN || key[0] != 48 || key[1] != 120 || key[42] != 95 {
        return Err(ParseError::MalformedKey);
    }
    if key.len() > SHORT_KEY_LEN && key[75] != 95 {
        return Err(ParseError::MalformedKey);
    }
    let bytes = match parse_hex(key, 2, ACCOUNT_LEN) {
        Some(v) => v,
        None => {
            return Err(ParseError::MalformedKey);
        },
    };
    let block = match parse_dec(key, 43, BLOCK_WIDTH) {
        Some(b) => b,
        None => {
            return Err(ParseError::MalformedKey);
        },
    };
    proof {
        lemma_unhex_len(key@.subrange(2, 42));
    }
    Ok((Account { bytes }, block))
}

/// Reads the account, block and hash fields of a full key.
pub fn parse_key_string(key: &Vec<u8>) -> (r: Result<(Account, u64, TxHash), ParseError>)
    ensures
        match r {
            Ok((a, b, h)) => parse_full_spec(key@) == Some((a@, b, h@)) && a.wf() && h.wf(),
            Err(_) => parse_full_spec(key@) is None,
        },
{
    if key.len() != KEY_LEN || key[76] != 48 || key[77] != 120 {
        return Err(ParseError::MalformedKey);
    }
    let (account, block) = match parse_key_string_short(key) {
        Ok(x) => x,
        Err(e) => {
            return Err(e);
        },
    };
    let bytes = match parse_hex(key, 78, HASH_LEN) {
        Some(v) => v,
        None => {
            return Err(ParseError::MalformedKey);
        },
    };
    proof {
        lemma_unhex_len(key@.subrange(78, 142));
    }
    Ok((account, block, TxHash { bytes }))
}

pub proof fn lemma_unhex_len(s: Seq<u8>)
    ensures
        unhex(s).len() == s.len() / 2,
    decreases s.len(),
{
    if s.len() >= 2 {
        lemma_unhex_len(s.subrange(0, s.len() - 2));
    }
}

/// Reading a key back gives the account, block and hash it was made from.
pub proof fn lemma_key_round_trip(a: Seq<u8>, b: u64, h: Seq<u8>)
    requires
        a.len() == ACCOUNT_LEN,
        h.len() == HASH_LEN,
    ensures
        parse_short_spec(key_spec(a, b, h)) == Some((a, b)),
        parse_full_spec(key_spec(a, b, h)) == Some((a, b, h)),
{
    let k = key_spec(a, b, h);
    let d = dec_pad(b as nat, BLOCK_WIDTH as nat);
    lemma_hex_seq_len(a);
    lemma_hex_seq_len(h);
    lemma_dec_pad_len(b as nat, BLOCK_WIDTH as nat);
    assert(k.subrange(2, 42) =~= hex_seq(a));
    assert(k.subrange(43, 75) =~= d);
    assert(k.subrange(78, 142) =~= hex_seq(h));
    lemma_hex_seq_all_hex(a);
    lemma_hex_seq_all_hex(h);
    lemma_dec_pad_all_dec(b as nat, BLOCK_WIDTH as nat);
    lemma_u64_fits_block_width(b);
    lemma_dec_value_dec_pad(b as nat, BLOCK_WIDTH as nat);
    lemma_unhex_hex(a);
    lemma_unhex_hex(h);
}

} // verus!
