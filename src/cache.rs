//! The confirmed-block cache: an append-only record of which slots hold a block.

use vstd::prelude::*;
use std::collections::{HashMap, HashSet};

verus! {

broadcast use vstd::std_specs::hash::group_hash_axioms;

/// Which ledger slots hold a confirmed block, for the slots fetched so far.
/// Entries are only ever added: a cached slot keeps its value.
pub struct ConfirmedBlockCache {
    entries: HashMap<u64, bool>,
}

/// Slots of `[start, end)` that `cache` does not hold.
pub open spec fn missing_set(cache: Map<u64, bool>, start: u64, end: u64) -> Set<u64> {
    Set::new(|x: u64| start <= x < end && !cache.contains_key(x))
}

/// Slots of `[start, end)` that `cache` holds as confirmed.
pub open spec fn confirmed_set(cache: Map<u64, bool>, start: u64, end: u64) -> Set<u64> {
    Set::new(|x: u64| start <= x < end && cache.contains_key(x) && cache[x])
}

pub open spec fn covers(cache: Map<u64, bool>, start: u64, end: u64) -> bool {
    forall|x: u64| start <= x < end ==> #[trigger] cache.contains_key(x)
}

/// `after` keeps every entry of `before`.
pub open spec fn extends(before: Map<u64, bool>, after: Map<u64, bool>) -> bool {
    forall|x: u64| #[trigger] before.contains_key(x) ==> after.contains_key(x) && after[x] == before[x]
}

pub open spec fn increasing(s: Seq<u64>) -> bool {
    forall|a: int, b: int| 0 <= a < b < s.len() ==> #[trigger] s[a] < #[trigger] s[b]
}

impl View for ConfirmedBlockCache {
    type V = Map<u64, bool>;

    closed spec fn view(&self) -> Map<u64, bool> {
        self.entries@
    }
}

impl ConfirmedBlockCache {
    pub fn new() -> (r: ConfirmedBlockCache)
        ensures
            r@ == Map::<u64, bool>::empty(),
    {
        ConfirmedBlockCache { entries: HashMap::new() }
    }

    /// Records whether `slot` holds a confirmed block, unless it is cached already.
    pub fn record(&mut self, slot: u64, confirmed: bool)
        ensures
            old(self)@.contains_key(slot) ==> final(self)@ == old(self)@,
            !old(self)@.contains_key(slot) ==> final(self)@ == old(self)@.insert(slot, confirmed),
    {
        if !self.entries.contains_key(&slot) {
            self.entries.insert(slot, confirmed);
        }
    }

    /// The slots of `[start, end)` that must be fetched from the ledger, in
    /// increasing order.
    pub fn missing_slots(&self, start: u64, end: u64) -> (r: Vec<u64>)
        ensures
            r@.to_set() == missing_set(self@, start, end),
            increasing(r@),
    {
        let mut missing: Vec<u64> = Vec::new();
        let mut x: u64 = start;
        while x < end
            invariant
                start <= x || end <= start,
                x == start || start <= x <= end,
                forall|y: u64|
                    #![trigger missing@.to_set().contains(y)]
                    missing@.to_set().contains(y) <==> start <= y < x && !self@.contains_key(y),
                increasing(missing@),
                forall|a: int| 0 <= a < missing@.len() ==> #[trigger] missing@[a] < x,
            decreases end - x,
        {
            if !self.entries.contains_key(&x) {
                let ghost m0 = missing@;
                missing.push(x);
                proof {
                    assert forall|y: u64|
                        #![trigger missing@.to_set().contains(y)]
                        missing@.to_set().contains(y) <==> m0.to_set().contains(y) || y == x by {
                        if missing@.to_set().contains(y) {
                            let a = choose|a: int| 0 <= a < missing@.len() && missing@[a] == y;
                            if a < m0.len() {
                                assert(m0[a] == y);
                            }
                        }
                        if m0.to_set().contains(y) {
                            let a = choose|a: int| 0 <= a < m0.len() && m0[a] == y;
                            assert(missing@[a] == y);
                        }
                        if y == x {
                            assert(missing@[m0.len() as int] == y);
                        }
                    }
                }
            }
            x = x + 1;
        }
        proof {
            assert(missing@.to_set() =~= missing_set(self@, start, end));
        }
        missing
    }

    /// Records the fetched slots of `[start, end)` that are not cached yet:
    /// confirmed exactly when `fetched` holds them.
    pub fn record_fetched(&mut self, start: u64, end: u64, fetched: &HashSet<u64>)
        ensures
            extends(old(self)@, final(self)@),
            forall|x: u64|
                #![trigger final(self)@.contains_key(x)]
                final(self)@.contains_key(x) <==> old(self)@.contains_key(x) || (start <= x < end),
            forall|x: u64|
                start <= x < end && !old(self)@.contains_key(x) ==> #[trigger] final(self)@[x]
                    == fetched@.contains(x),
    {
        let ghost before = self@;
        let mut x: u64 = start;
        while x < end
            invariant
                x == start || start <= x <= end,
                extends(before, self@),
                forall|y: u64|
                    #![trigger self@.contains_key(y)]
                    self@.contains_key(y) <==> before.contains_key(y) || (start <= y < x),
                forall|y: u64|
                    start <= y < x && !before.contains_key(y) ==> #[trigger] self@[y]
                        == fetched@.contains(y),
            decreases end - x,
        {
            let confirmed = fetched.contains(&x);
            self.record(x, confirmed);
            x = x + 1;
        }
    }

    /// The confirmed slots of `[start, end)`, in increasing order; every slot
    /// of the range must be cached.
    pub fn confirmed_slots(&self, start: u64, end: u64) -> (r: Vec<u64>)
        requires
            covers(self@, start, end),
        ensures
            r@.to_set() == confirmed_set(self@, start, end),
            increasing(r@),
    {
        let mut confirmed: Vec<u64> = Vec::new();
        let mut x: u64 = start;
        while x < end
            invariant
                x == start || start <= x <= end,
                covers(self@, start, end),
                forall|y: u64|
                    #![trigger confirmed@.to_set().contains(y)]
                    confirmed@.to_set().contains(y) <==> start <= y < x && self@.contains_key(y)
                        && self@[y],
                increasing(confirmed@),
                forall|a: int| 0 <= a < confirmed@.len() ==> #[trigger] confirmed@[a] < x,
            decreases end - x,
        {
            assert(self@.contains_key(x));
            let held = match self.entries.get(&x) {
                Some(c) => *c,
                None => false,
            };
            if held {
                let ghost c0 = confirmed@;
                confirmed.push(x);
                proof {
                    assert forall|y: u64|
                        #![trigger confirmed@.to_set().contains(y)]
                        confirmed@.to_set().contains(y) <==> c0.to_set().contains(y) || y == x by {
                        if confirmed@.to_set().contains(y) {
                            let a = choose|a: int| 0 <= a < confirmed@.len() && confirmed@[a] == y;
                            if a < c0.len() {
                                assert(c0[a] == y);
                            }
                        }
                        if c0.to_set().contains(y) {
                            let a = choose|a: int| 0 <= a < c0.len() && c0[a] == y;
                            assert(confirmed@[a] == y);
                        }
                        if y == x {
                            assert(confirmed@[c0.len() as int] == y);
                        }
                    }
                }
            }
            x = x + 1;
        }
        proof {
            assert(confirmed@.to_set() =~= confirmed_set(self@, start, end));
        }
        confirmed
    }
}

/// Once every slot of a range is cached, the range needs no fetch, and the
/// confirmed slots it yields stay the same however the cache grows afterwards.
pub proof fn lemma_cached_range_round_trip(
    before: Map<u64, bool>,
    after: Map<u64, bool>,
    start: u64,
    end: u64,
)
    requires
        covers(before, start, end),
        extends(before, after),
    ensures
        missing_set(before, start, end) == Set::<u64>::empty(),
        missing_set(after, start, end) == Set::<u64>::empty(),
        confirmed_set(after, start, end) == confirmed_set(before, start, end),
{
    assert(missing_set(before, start, end) =~= Set::<u64>::empty());
    assert(missing_set(after, start, end) =~= Set::<u64>::empty());
    assert(confirmed_set(after, start, end) =~= confirmed_set(before, start, end));
}

} // verus!
