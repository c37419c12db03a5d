use vstd::prelude::*;
use crate::key::{parse_full_spec, parse_key_string, ParseError};
use crate::types::Account;

verus! {

/// One account's scanned window: every block from `min` to `max` was scanned.
pub struct CoverageEntry {
    pub account: Account,
    pub min: u64,
    pub max: u64,
}

/// Per-account record of the block window already scanned and cached.
pub struct CoverageIndex {
    entries: Vec<CoverageEntry>,
    model: Ghost<Map<Seq<u8>, (u64, u64)>>,
}

/// `m` maps each account of `pairs` to the least and greatest block paired with it.
pub open spec fn is_borders_of(m: Map<Seq<u8>, (u64, u64)>, pairs: Seq<(Seq<u8>, u64)>) -> bool {
    &&& forall|a: Seq<u8>| m.contains_key(a) <==> exists|i: int| 0 <= i < pairs.len() && #[trigger] pairs[i].0 == a
    &&& forall|a: Seq<u8>| #[trigger] m.contains_key(a) ==> {
        &&& exists|i: int| 0 <= i < pairs.len() && #[trigger] pairs[i] == (a, m[a].0)
        &&& exists|i: int| 0 <= i < pairs.len() && #[trigger] pairs[i] == (a, m[a].1)
        &&& forall|i: int| 0 <= i < pairs.len() && #[trigger] pairs[i].0 == a ==> m[a].0 <= pairs[i].1 <= m[a].1
    }
}

impl View for CoverageIndex {
    type V = Map<Seq<u8>, (u64, u64)>;

    closed spec fn view(&self) -> Map<Seq<u8>, (u64, u64)> {
        self.model@
    }
}

impl CoverageIndex {
    pub closed spec fn wf(&self) -> bool {
        &&& forall|i: int| 0 <= i < self.entries@.len() ==> #[trigger] self.model@.contains_key(self.entries@[i].account@)
            && self.model@[self.entries@[i].account@] == (self.entries@[i].min, self.entries@[i].max)
        &&& forall|a: Seq<u8>| #[trigger] self.model@.contains_key(a) ==> exists|i: int|
            0 <= i < self.entries@.len() && #[trigger] self.entries@[i].account@ == a
        &&& forall|i: int, j: int| 0 <= i < j < self.entries@.len() ==> self.entries@[i].account@ != self.entries@[j].account@
    }

    /// An index with no account.
    pub fn new() -> (r: CoverageIndex)
        ensures
            r.wf(),
            r@ == Map::<Seq<u8>, (u64, u64)>::empty(),
    {
        CoverageIndex { entries: Vec::new(), model: Ghost(Map::empty()) }
    }

    fn find(&self, account: &Account) -> (r: Option<usize>)
        requires
            self.wf(),
        ensures
            r matches Some(i) ==> i < self.entries@.len() && self.entries@[i as int].account@ == account@,
            r is None ==> !self@.contains_key(account@),
    {
        let mut i: usize = 0;
        while i < self.entries.len()
            invariant
                i <= self.entries@.len(),
                forall|j: int| 0 <= j < i ==> self.entries@[j].account@ != account@,
            decreases self.entries@.len() - i,
        {
            if self.entries[i].account.same(account) {
                return Some(i);
            }
            i = i + 1;
        }
        None
    }

    /// The scanned window of an account, if it has one.
    pub fn get(&self, account: &Account) -> (r: Option<(u64, u64)>)
        requires
            self.wf(),
        ensures
            r == (if self@.contains_key(account@) { Some(self@[account@]) } else { None }),
    {
        match self.find(account) {
            Some(i) => Some((self.entries[i].min, self.entries[i].max)),
            None => None,
        }
    }

    /// Replaces the scanned window of an account.
    pub fn set(&mut self, account: &Account, min: u64, max: u64)
        requires
            old(self).wf(),
        ensures
            final(self).wf(),
            final(self)@ == old(self)@.insert(account@, (min, max)),
    {
        match self.find(account) {
            Some(i) => {
                let entry = CoverageEntry { account: account.duplicate(), min, max };
                self.entries.set(i, entry);
            },
            None => {
                self.entries.push(CoverageEntry { account: account.duplicate(), min, max });
            },
        }
        self.model = Ghost(self.model@.insert(account@, (min, max)));
        assert forall|i: int| 0 <= i < self.entries@.len() implies #[trigger] self.model@.contains_key(self.entries@[i].account@)
            && self.model@[self.entries@[i].account@] == (self.entries@[i].min, self.entries@[i].max) by {
            if self.entries@[i].account@ == account@ {
                assert(self.model@[account@] == (min, max));
                if i < old(self).entries@.len() && old(self).entries@[i].account@ == account@ {
                    assert(self.entries@[i].min == min && self.entries@[i].max == max);
                }
            } else if i < old(self).entries@.len() {
                assert(self.entries@[i] == old(self).entries@[i]);
                assert(old(self).model@.contains_key(old(self).entries@[i].account@));
            }
        }
        assert forall|i: int, j: int| 0 <= i < j < self.entries@.len() implies self.entries@[i].account@ != self.entries@[j].account@ by {
            if j >= old(self).entries@.len() {
                assert(old(self).model@.contains_key(old(self).entries@[i].account@));
            } else if self.entries@[i].account@ == account@ || self.entries@[j].account@ == account@ {
                assert(old(self).model@.contains_key(old(self).entries@[i].account@));
                assert(old(self).model@.contains_key(old(self).entries@[j].account@));
            }
        }
        assert forall|a: Seq<u8>| #[trigger] self.model@.contains_key(a) implies exists|i: int|
            0 <= i < self.entries@.len() && #[trigger] self.entries@[i].account@ == a by {
            if a != account@ {
                let k = choose|k: int| 0 <= k < old(self).entries@.len() && #[trigger] old(self).entries@[k].account@ == a;
                assert(self.entries@[k].account@ == a);
            } else {
                let k = if self.entries@.len() > old(self).entries@.len() {
                    self.entries@.len() - 1
                } else {
                    choose|k: int| 0 <= k < old(self).entries@.len() && #[trigger] old(self).entries@[k].account@ == a
                };
                assert(self.entries@[k].account@ == a);
            }
        }
    }

    /// Whether the window of `account` holds every block from `block_start` to `block_end`:
    /// only then can a query be answered from the store.
    pub fn covers(&self, account: &Account, block_start: u64, block_end: u64) -> (r: bool)
        requires
            self.wf(),
        ensures
            r == (self@.contains_key(account@) && self@[account@].0 <= block_start && block_end
                <= self@[account@].1),
    {
        match self.get(account) {
            Some((min, max)) => min <= block_start && block_end <= max,
            None => false,
        }
    }

    /// The index that maps each account of `cache_keys` to the least and greatest
    /// block paired with it.
    pub fn calculate_borders(cache_keys: &Vec<(Account, u64)>) -> (r: CoverageIndex)
        ensures
            r.wf(),
            is_borders_of(r@, cache_keys@.map_values(|p: (Account, u64)| (p.0@, p.1))),
    {
        let ghost pairs = cache_keys@.map_values(|p: (Account, u64)| (p.0@, p.1));
        let mut index = CoverageIndex::new();
        let mut i: usize = 0;
        while i < cache_keys.len()
            invariant
                i <= cache_keys@.len(),
                pairs == cache_keys@.map_values(|p: (Account, u64)| (p.0@, p.1)),
                index.wf(),
                is_borders_of(index@, pairs.subrange(0, i as int)),
            decreases cache_keys@.len() - i,
        {
            let account = &cache_keys[i].0;
            let block = cache_keys[i].1;
            let ghost prev = pairs.subrange(0, i as int);
            let ghost next = pairs.subrange(0, i + 1);
            let ghost old_index = index@;
            assert(next[i as int] == (account@, block));
            assert forall|j: int| 0 <= j < i implies #[trigger] next[j] == prev[j] by {}
            match index.get(account) {
                Some((min, max)) => {
                    let new_min = if block < min { block } else { min };
                    let new_max = if block > max { block } else { max };
                    index.set(account, new_min, new_max);
                    proof {
                        assert forall|a: Seq<u8>| #[trigger] index@.contains_key(a) implies {
                            &&& exists|j: int| 0 <= j < next.len() && #[trigger] next[j] == (a, index@[a].0)
                            &&& exists|j: int| 0 <= j < next.len() && #[trigger] next[j] == (a, index@[a].1)
                            &&& forall|j: int| 0 <= j < next.len() && #[trigger] next[j].0 == a ==> index@[a].0 <= next[j].1 <= index@[a].1
                        } by {
                            if index@.contains_key(a) {
                                if a == account@ {
                                    if block < min {
                                        assert(next[i as int] == (a, index@[a].0));
                                    } else {
                                        let k = choose|k: int| 0 <= k < prev.len() && #[trigger] prev[k] == (a, old_index[a].0);
                                        assert(next[k] == (a, index@[a].0));
                                    }
                                    if block > max {
                                        assert(next[i as int] == (a, index@[a].1));
                                    } else {
                                        let k = choose|k: int| 0 <= k < prev.len() && #[trigger] prev[k] == (a, old_index[a].1);
                                        assert(next[k] == (a, index@[a].1));
                                    }
                                } else {
                                    let k = choose|k: int| 0 <= k < prev.len() && #[trigger] prev[k] == (a, old_index[a].0);
                                    assert(next[k] == (a, index@[a].0));
                                    let k2 = choose|k: int| 0 <= k < prev.len() && #[trigger] prev[k] == (a, old_index[a].1);
                                    assert(next[k2] == (a, index@[a].1));
                                }
                            }
                        }
                        assert forall|a: Seq<u8>| index@.contains_key(a) <==> exists|j: int| 0 <= j < next.len() && #[trigger] next[j].0 == a by {
                            if exists|j: int| 0 <= j < next.len() && #[trigger] next[j].0 == a {
                                let j = choose|j: int| 0 <= j < next.len() && #[trigger] next[j].0 == a;
                                if j < i {
                                    assert(prev[j].0 == a);
                                }
                            }
                            if index@.contains_key(a) && a != account@ {
                                let j = choose|j: int| 0 <= j < prev.len() && #[trigger] prev[j].0 == a;
                                assert(next[j].0 == a);
                            }
                            assert(next[i as int].0 == account@);
                        }
                    }
                },
                None => {
                    index.set(account, block, block);
                    proof {
                        assert forall|a: Seq<u8>| #[trigger] index@.contains_key(a) implies {
                            &&& exists|j: int| 0 <= j < next.len() && #[trigger] next[j] == (a, index@[a].0)
                            &&& exists|j: int| 0 <= j < next.len() && #[trigger] next[j] == (a, index@[a].1)
                            &&& forall|j: int| 0 <= j < next.len() && #[trigger] next[j].0 == a ==> index@[a].0 <= next[j].1 <= index@[a].1
                        } by {
                            if index@.contains_key(a) {
                                if a == account@ {
                                    assert(next[i as int] == (a, index@[a].0));
                                    assert forall|j: int| 0 <= j < next.len() && #[trigger] next[j].0 == a implies index@[a].0 <= next[j].1 <= index@[a].1 by {
                                        if j < i {
                                            assert(prev[j].0 == a);
                                        }
                                    }
                                } else {
                                    let k = choose|k: int| 0 <= k < prev.len() && #[trigger] prev[k] == (a, old_index[a].0);
                                    assert(next[k] == (a, index@[a].0));
                                    let k2 = choose|k: int| 0 <= k < prev.len() && #[trigger] prev[k] == (a, old_index[a].1);
                                    assert(next[k2] == (a, index@[a].1));
                                }
                            }
                        }
                        assert forall|a: Seq<u8>| index@.contains_key(a) <==> exists|j: int| 0 <= j < next.len() && #[trigger] next[j].0 == a by {
                            if exists|j: int| 0 <= j < next.len() && #[trigger] next[j].0 == a {
                                let j = choose|j: int| 0 <= j < next.len() && #[trigger] next[j].0 == a;
                                if j < i {
                                    assert(prev[j].0 == a);
                                }
                            }
                            if index@.contains_key(a) && a != account@ {
                                let j = choose|j: int| 0 <= j < prev.len() && #[trigger] prev[j].0 == a;
                                assert(next[j].0 == a);
                            }
                            assert(next[i as int].0 == account@);
                        }
                    }
                },
            }
            i = i + 1;
        }
        assert(pairs.subrange(0, i as int) =~= pairs);
        index
    }
}

/// The account and block of each stored key, in order; defined when every key reads back.
pub open spec fn parsed_keys(keys: Seq<Vec<u8>>) -> Seq<(Seq<u8>, u64)> {
    keys.map_values(|k: Vec<u8>| (parse_full_spec(k@).unwrap().0, parse_full_spec(k@).unwrap().1))
}

/// Rebuilds the coverage index from every key in the store: each account covers
/// the blocks from the least to the greatest found among its keys. Each key must
/// read back in full (account, block and hash); the first one that does not fails
/// the whole rebuild.
pub fn read_cache_keys(keys: &Vec<Vec<u8>>) -> (r: Result<CoverageIndex, ParseError>)
    ensures
        match r {
            Ok(c) => c.wf() && (forall|i: int| 0 <= i < keys@.len() ==> #[trigger] parse_full_spec(keys@[i]@) is Some)
                && is_borders_of(c@, parsed_keys(keys@)),
            Err(_) => exists|i: int| 0 <= i < keys@.len() && #[trigger] parse_full_spec(keys@[i]@) is None,
        },
{
    let mut pairs: Vec<(Account, u64)> = Vec::new();
    let mut i: usize = 0;
    while i < keys.len()
        invariant
            i <= keys@.len(),
            pairs@.len() == i,
            forall|j: int| 0 <= j < i ==> #[trigger] parse_full_spec(keys@[j]@) is Some,
            forall|j: int| 0 <= j < i ==> (#[trigger] pairs@[j].0@, pairs@[j].1) == (parse_full_spec(keys@[j]@).unwrap().0, parse_full_spec(keys@[j]@).unwrap().1),
        decreases keys@.len() - i,
    {
        match parse_key_string(&keys[i]) {
            Ok((account, block, _)) => {
                pairs.push((account, block));
            },
            Err(e) => {
                assert(parse_full_spec(keys@[i as int]@) is None);
                return Err(e);
            },
        }
        i = i + 1;
    }
    let index = CoverageIndex::calculate_borders(&pairs);
    assert(pairs@.map_values(|p: (Account, u64)| (p.0@, p.1)) =~= parsed_keys(keys@));
    Ok(index)
}

} // verus!
