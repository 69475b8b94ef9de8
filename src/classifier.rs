//! Block-production classifier: skip rates and the quality/poor split of one
//! accounting period.

use vstd::prelude::*;
use std::collections::HashSet;
use vstd::arithmetic::div_mod::{lemma_div_by_multiple, lemma_div_is_ordered, lemma_div_pos_is_pos};
use crate::config::Config;
use crate::identity::{Identity, listed, parse_identity, pubkey_decoding};

verus! {

broadcast use vstd::std_specs::hash::group_hash_axioms;

/// Why an accounting period could not be classified.
#[derive(Clone, Copy, Debug, PartialEq, Eq)]
pub enum ClassifyError {
    /// A leader-schedule entry with assigned slots names no well-formed key.
    InvalidIdentity,
    /// No validator has any assigned slot in the period.
    NoAssignedSlots,
}

/// Quality producers, poor producers, cluster-average skip rate, and whether
/// too many producers are poor.
pub type ClassifyResult = (Vec<Identity>, Vec<Identity>, usize, bool);

/// Blocks produced in the slots assigned to one validator.
#[derive(Clone, Copy, Debug)]
pub struct ProducerTally {
    pub identity: Identity,
    pub blocks: u64,
    pub slots: u64,
}

// ---------------------------------------------------------------------------
// Model of a leader schedule: entries of (identity text, relative slots).

/// Every absolute slot `first + relative` of the schedule fits in a `u64`.
pub open spec fn slots_fit(first: u64, sched: Seq<(String, Vec<usize>)>) -> bool {
    forall|j: int, k: int|
        0 <= j < sched.len() && 0 <= k < sched[j].1@.len() ==> first + #[trigger] sched[j].1@[k]
            <= u64::MAX
}

/// How many of the relative slots `rels` hold a confirmed block.
pub open spec fn count_confirmed(first: u64, confirmed: Set<u64>, rels: Seq<usize>) -> nat
    decreases rels.len(),
{
    if rels.len() == 0 {
        0
    } else {
        count_confirmed(first, confirmed, rels.drop_last()) + if confirmed.contains(
            (first + rels.last()) as u64,
        ) {
            1nat
        } else {
            0nat
        }
    }
}

/// The entry assigns at least one slot, to the validator with key `id`.
pub open spec fn assigned_to(entry: (String, Vec<usize>), id: Seq<u8>) -> bool {
    entry.1@.len() > 0 && pubkey_decoding(entry.0@) == Some(id)
}

/// Slots assigned to `id` over the whole schedule.
pub open spec fn identity_slots(sched: Seq<(String, Vec<usize>)>, id: Seq<u8>) -> nat
    decreases sched.len(),
{
    if sched.len() == 0 {
        0
    } else {
        identity_slots(sched.drop_last(), id) + if assigned_to(sched.last(), id) {
            sched.last().1@.len()
        } else {
            0nat
        }
    }
}

/// Confirmed blocks in the slots assigned to `id`.
pub open spec fn identity_blocks(
    first: u64,
    confirmed: Set<u64>,
    sched: Seq<(String, Vec<usize>)>,
    id: Seq<u8>,
) -> nat
    decreases sched.len(),
{
    if sched.len() == 0 {
        0
    } else {
        identity_blocks(first, confirmed, sched.drop_last(), id) + if assigned_to(
            sched.last(),
            id,
        ) {
            count_confirmed(first, confirmed, sched.last().1@)
        } else {
            0nat
        }
    }
}

/// All slots of the schedule.
pub open spec fn total_slots(sched: Seq<(String, Vec<usize>)>) -> nat
    decreases sched.len(),
{
    if sched.len() == 0 {
        0
    } else {
        total_slots(sched.drop_last()) + sched.last().1@.len()
    }
}

/// All confirmed blocks in the slots of the schedule.
pub open spec fn total_blocks(
    first: u64,
    confirmed: Set<u64>,
    sched: Seq<(String, Vec<usize>)>,
) -> nat
    decreases sched.len(),
{
    if sched.len() == 0 {
        0
    } else {
        total_blocks(first, confirmed, sched.drop_last()) + count_confirmed(
            first,
            confirmed,
            sched.last().1@,
        )
    }
}

/// `id` has at least one assigned slot.
pub open spec fn is_producer(sched: Seq<(String, Vec<usize>)>, id: Seq<u8>) -> bool {
    exists|j: int| 0 <= j < sched.len() && assigned_to(#[trigger] sched[j], id)
}

/// The validators with at least one assigned slot.
pub open spec fn producers(sched: Seq<(String, Vec<usize>)>) -> Set<Seq<u8>> {
    Set::new(|id: Seq<u8>| is_producer(sched, id))
}

/// Every entry that assigns slots names a well-formed key.
pub open spec fn identities_decode(sched: Seq<(String, Vec<usize>)>) -> bool {
    forall|j: int|
        0 <= j < sched.len() && (#[trigger] sched[j]).1@.len() > 0 ==> pubkey_decoding(
            sched[j].0@,
        ) is Some
}

// ---------------------------------------------------------------------------
// The quality rule.

/// Percentage of `slots` that produced no block (integer arithmetic).
pub open spec fn skip_rate(blocks: int, slots: int) -> int {
    100 - blocks * 100 / slots
}

pub open spec fn skip_rate_floor(use_cluster_average: bool, cluster_rate: int) -> int {
    if use_cluster_average {
        cluster_rate
    } else {
        0
    }
}

/// Poor: the skip rate, less the quality allowance (never below zero), is
/// above the floor.
pub open spec fn is_poor_rate(rate: int, quality_percentage: int, floor: int) -> bool {
    (if rate > quality_percentage {
        rate - quality_percentage
    } else {
        0
    }) > floor
}

pub open spec fn too_many_poor(n_poor: int, n_all: int, max_percentage: int) -> bool {
    n_poor * 100 / n_all > max_percentage
}

pub open spec fn cluster_skip_rate(
    first: u64,
    confirmed: Set<u64>,
    sched: Seq<(String, Vec<usize>)>,
) -> int {
    skip_rate(total_blocks(first, confirmed, sched) as int, total_slots(sched) as int)
}

/// The classifier's verdict on validator `id` of the schedule.
pub open spec fn poor_producer(
    first: u64,
    confirmed: Set<u64>,
    sched: Seq<(String, Vec<usize>)>,
    id: Seq<u8>,
    config: Config,
) -> bool {
    is_poor_rate(
        skip_rate(
            identity_blocks(first, confirmed, sched, id) as int,
            identity_slots(sched, id) as int,
        ),
        config.quality_block_producer_percentage as int,
        skip_rate_floor(
            config.use_cluster_average_skip_rate,
            cluster_skip_rate(first, confirmed, sched),
        ),
    )
}

// ---------------------------------------------------------------------------
// Model of the per-validator tallies.

pub open spec fn distinct(ids: Seq<Identity>) -> bool {
    forall|a: int, b: int|
        #![trigger ids[a], ids[b]]
        0 <= a < ids.len() && 0 <= b < ids.len() && a != b ==> ids[a]@ != ids[b]@
}

pub open spec fn tallied(t: Seq<ProducerTally>, id: Seq<u8>) -> bool {
    exists|i: int| 0 <= i < t.len() && (#[trigger] t[i]).identity@ == id
}

/// Each tally has slots, no more blocks than slots, and a key of its own.
pub open spec fn tallies_wf(t: Seq<ProducerTally>) -> bool {
    &&& forall|i: int| 0 <= i < t.len() ==> 0 < (#[trigger] t[i]).slots && t[i].blocks <= t[i].slots
    &&& forall|i: int, j: int|
        #![trigger t[i], t[j]]
        0 <= i < t.len() && 0 <= j < t.len() && i != j ==> t[i].identity@ != t[j].identity@
}

pub open spec fn sum_slots(t: Seq<ProducerTally>) -> nat
    decreases t.len(),
{
    if t.len() == 0 {
        0
    } else {
        sum_slots(t.drop_last()) + t.last().slots as nat
    }
}

pub open spec fn sum_blocks(t: Seq<ProducerTally>) -> nat
    decreases t.len(),
{
    if t.len() == 0 {
        0
    } else {
        sum_blocks(t.drop_last()) + t.last().blocks as nat
    }
}

pub open spec fn tally_cluster_rate(t: Seq<ProducerTally>) -> int {
    skip_rate(sum_blocks(t) as int, sum_slots(t) as int)
}

pub open spec fn tally_is_poor(x: ProducerTally, cluster_rate: int, config: Config) -> bool {
    is_poor_rate(
        skip_rate(x.blocks as int, x.slots as int),
        config.quality_block_producer_percentage as int,
        skip_rate_floor(config.use_cluster_average_skip_rate, cluster_rate),
    )
}

// ---------------------------------------------------------------------------
// Arithmetic and summation facts.

proof fn lemma_rate_bounds(blocks: int, slots: int)
    requires
        0 <= blocks <= slots,
        0 < slots,
    ensures
        0 <= blocks * 100 / slots <= 100,
        0 <= skip_rate(blocks, slots) <= 100,
{
    lemma_div_is_ordered(blocks * 100, slots * 100, slots);
    lemma_div_by_multiple(100, slots);
    assert(slots * 100 == 100 * slots) by (nonlinear_arith);
    assert(blocks * 100 >= 0) by (nonlinear_arith)
        requires
            blocks >= 0,
    ;
    lemma_div_pos_is_pos(blocks * 100, slots);
}

proof fn lemma_sums_prefix(t: Seq<ProducerTally>, k: int)
    requires
        tallies_wf(t),
        0 <= k <= t.len(),
    ensures
        sum_blocks(t.take(k)) <= sum_slots(t.take(k)) <= sum_slots(t),
        sum_blocks(t) <= sum_slots(t),
    decreases t.len(),
{
    if t.len() == 0 {
        assert(t.take(k) =~= t);
    } else {
        let d = t.drop_last();
        assert(tallies_wf(d)) by {
            assert forall|i: int| 0 <= i < d.len() implies 0 < (#[trigger] d[i]).slots && d[i].blocks
                <= d[i].slots by {
                assert(d[i] == t[i]);
            }
            assert forall|i: int, j: int|
                #![trigger d[i], d[j]]
                0 <= i < d.len() && 0 <= j < d.len() && i != j implies d[i].identity@
                != d[j].identity@ by {
                assert(d[i] == t[i] && d[j] == t[j]);
            }
        }
        lemma_sums_prefix(d, if k < t.len() { k } else { d.len() as int });
        assert(t[t.len() - 1].blocks <= t[t.len() - 1].slots);
        if k < t.len() {
            assert(t.take(k) =~= d.take(k));
        } else {
            assert(t.take(k) =~= t);
            assert(d.take(d.len() as int) =~= d);
        }
    }
}

proof fn lemma_tally_wf_drop_last(t: Seq<ProducerTally>)
    requires
        tallies_wf(t),
        t.len() > 0,
    ensures
        tallies_wf(t.drop_last()),
{
    let d = t.drop_last();
    assert forall|i: int| 0 <= i < d.len() implies 0 < (#[trigger] d[i]).slots && d[i].blocks
        <= d[i].slots by {
        assert(d[i] == t[i]);
    }
    assert forall|i: int, j: int|
        #![trigger d[i], d[j]]
        0 <= i < d.len() && 0 <= j < d.len() && i != j implies d[i].identity@ != d[j].identity@ by {
        assert(d[i] == t[i] && d[j] == t[j]);
    }
}

// ---------------------------------------------------------------------------
// Classification of tallies.

/// Splits tallied validators into quality and poor producers for one period.
pub fn classify_tallies(tallies: &Vec<ProducerTally>, config: &Config) -> (r: Result<
    ClassifyResult,
    ClassifyError,
>)
    requires
        tallies_wf(tallies@),
        sum_slots(tallies@) <= u64::MAX,
    ensures
        r is Ok <==> tallies@.len() > 0,
        r matches Err(e) ==> e == ClassifyError::NoAssignedSlots,
        r matches Ok((quality, poor, cluster_rate, too_many)) ==> {
            &&& cluster_rate == tally_cluster_rate(tallies@)
            &&& forall|id: Seq<u8>|
                listed(quality@, id) <==> exists|i: int|
                    0 <= i < tallies@.len() && (#[trigger] tallies@[i]).identity@ == id
                        && !tally_is_poor(tallies@[i], cluster_rate as int, *config)
            &&& forall|id: Seq<u8>|
                listed(poor@, id) <==> exists|i: int|
                    0 <= i < tallies@.len() && (#[trigger] tallies@[i]).identity@ == id
                        && tally_is_poor(tallies@[i], cluster_rate as int, *config)
            &&& distinct(quality@)
            &&& distinct(poor@)
            &&& quality@.len() + poor@.len() == tallies@.len()
            &&& too_many == too_many_poor(
                poor@.len() as int,
                tallies@.len() as int,
                config.max_poor_block_producer_percentage as int,
            )
        },
{
    let ghost t = tallies@;
    let mut total_blocks: u64 = 0;
    let mut total_slots: u64 = 0;
    let mut i: usize = 0;
    while i < tallies.len()
        invariant
            0 <= i <= t.len(),
            t == tallies@,
            tallies_wf(t),
            sum_slots(t) <= u64::MAX,
            total_blocks == sum_blocks(t.take(i as int)),
            total_slots == sum_slots(t.take(i as int)),
        decreases t.len() - i,
    {
        proof {
            lemma_sums_prefix(t, i + 1);
            assert(t.take(i + 1).drop_last() =~= t.take(i as int));
        }
        total_blocks = total_blocks + tallies[i].blocks;
        total_slots = total_slots + tallies[i].slots;
        i = i + 1;
    }
    proof {
        assert(t.take(t.len() as int) =~= t);
        lemma_sums_prefix(t, t.len() as int);
    }
    if total_slots == 0 {
        proof {
            if t.len() > 0 {
                assert(t[t.len() - 1].slots > 0);
            }
        }
        return Err(ClassifyError::NoAssignedSlots);
    }
    proof {
        lemma_rate_bounds(total_blocks as int, total_slots as int);
    }
    let produced: u128 = (total_blocks as u128 * 100) / (total_slots as u128);
    let cluster_rate: u64 = (100 - produced) as u64;
    let floor: u64 = if config.use_cluster_average_skip_rate {
        cluster_rate
    } else {
        0
    };
    let mut quality: Vec<Identity> = Vec::new();
    let mut poor: Vec<Identity> = Vec::new();
    let mut k: usize = 0;
    while k < tallies.len()
        invariant
            0 <= k <= t.len(),
            t == tallies@,
            tallies_wf(t),
            cluster_rate == tally_cluster_rate(t),
            floor == skip_rate_floor(config.use_cluster_average_skip_rate, cluster_rate as int),
            forall|id: Seq<u8>|
                listed(quality@, id) <==> exists|i: int|
                    0 <= i < k && (#[trigger] t[i]).identity@ == id && !tally_is_poor(
                        t[i],
                        cluster_rate as int,
                        *config,
                    ),
            forall|id: Seq<u8>|
                listed(poor@, id) <==> exists|i: int|
                    0 <= i < k && (#[trigger] t[i]).identity@ == id && tally_is_poor(
                        t[i],
                        cluster_rate as int,
                        *config,
                    ),
            distinct(quality@),
            distinct(poor@),
            quality@.len() + poor@.len() == k,
        decreases t.len() - k,
    {
        let x = tallies[k];
        proof {
            lemma_rate_bounds(x.blocks as int, x.slots as int);
        }
        let rate: u128 = 100 - (x.blocks as u128 * 100) / (x.slots as u128);
        let allowance = config.quality_block_producer_percentage as u128;
        let over: u128 = if rate > allowance {
            rate - allowance
        } else {
            0
        };
        let is_poor = over > floor as u128;
        assert(is_poor == tally_is_poor(x, cluster_rate as int, *config));
        let ghost q0 = quality@;
        let ghost p0 = poor@;
        proof {
            // the new key differs from every key already placed
            assert forall|a: int| 0 <= a < q0.len() implies q0[a]@ != x.identity@ by {
                assert(listed(q0, q0[a]@));
                let i = choose|i: int|
                    0 <= i < k && (#[trigger] t[i]).identity@ == q0[a]@ && !tally_is_poor(
                        t[i],
                        cluster_rate as int,
                        *config,
                    );
                assert(t[i].identity@ != t[k as int].identity@);
            }
            assert forall|a: int| 0 <= a < p0.len() implies p0[a]@ != x.identity@ by {
                assert(listed(p0, p0[a]@));
                let i = choose|i: int|
                    0 <= i < k && (#[trigger] t[i]).identity@ == p0[a]@ && tally_is_poor(
                        t[i],
                        cluster_rate as int,
                        *config,
                    );
                assert(t[i].identity@ != t[k as int].identity@);
            }
        }
        if is_poor {
            poor.push(x.identity);
        } else {
            quality.push(x.identity);
        }
        proof {
            assert forall|id: Seq<u8>|
                listed(quality@, id) <==> exists|i: int|
                    0 <= i < k + 1 && (#[trigger] t[i]).identity@ == id && !tally_is_poor(
                        t[i],
                        cluster_rate as int,
                        *config,
                    ) by {
                if listed(quality@, id) {
                    let a = choose|a: int| 0 <= a < quality@.len() && #[trigger] quality@[a]@ == id;
                    if a < q0.len() {
                        assert(quality@[a] == q0[a]);
                        assert(listed(q0, id));
                    } else {
                        assert(t[k as int].identity@ == id);
                    }
                }
                if exists|i: int|
                    0 <= i < k + 1 && (#[trigger] t[i]).identity@ == id && !tally_is_poor(
                        t[i],
                        cluster_rate as int,
                        *config,
                    ) {
                    let i = choose|i: int|
                        0 <= i < k + 1 && (#[trigger] t[i]).identity@ == id && !tally_is_poor(
                            t[i],
                            cluster_rate as int,
                            *config,
                        );
                    if i < k {
                        assert(listed(q0, id));
                        let a = choose|a: int| 0 <= a < q0.len() && #[trigger] q0[a]@ == id;
                        assert(quality@[a] == q0[a]);
                    } else {
                        assert(quality@[quality@.len() - 1] == x.identity);
                    }
                }
            }
            assert forall|id: Seq<u8>|
                listed(poor@, id) <==> exists|i: int|
                    0 <= i < k + 1 && (#[trigger] t[i]).identity@ == id && tally_is_poor(
                        t[i],
                        cluster_rate as int,
                        *config,
                    ) by {
                if listed(poor@, id) {
                    let a = choose|a: int| 0 <= a < poor@.len() && #[trigger] poor@[a]@ == id;
                    if a < p0.len() {
                        assert(poor@[a] == p0[a]);
                        assert(listed(p0, id));
                    } else {
                        assert(t[k as int].identity@ == id);
                    }
                }
                if exists|i: int|
                    0 <= i < k + 1 && (#[trigger] t[i]).identity@ == id && tally_is_poor(
                        t[i],
                        cluster_rate as int,
                        *config,
                    ) {
                    let i = choose|i: int|
                        0 <= i < k + 1 && (#[trigger] t[i]).identity@ == id && tally_is_poor(
                            t[i],
                            cluster_rate as int,
                            *config,
                        );
                    if i < k {
                        assert(listed(p0, id));
                        let a = choose|a: int| 0 <= a < p0.len() && #[trigger] p0[a]@ == id;
                        assert(poor@[a] == p0[a]);
                    } else {
                        assert(poor@[poor@.len() - 1] == x.identity);
                    }
                }
            }
        }
        k = k + 1;
    }
    let n_poor = poor.len() as u128;
    let n_all = tallies.len() as u128;
    let too_many = n_poor * 100 / n_all > config.max_poor_block_producer_percentage as u128;
    Ok((quality, poor, cluster_rate as usize, too_many))
}


// ---------------------------------------------------------------------------
// Tallies of a leader schedule.

proof fn lemma_count_le_len(first: u64, confirmed: Set<u64>, rels: Seq<usize>)
    ensures
        count_confirmed(first, confirmed, rels) <= rels.len(),
    decreases rels.len(),
{
    if rels.len() > 0 {
        lemma_count_le_len(first, confirmed, rels.drop_last());
    }
}

proof fn lemma_absent_has_nothing(
    first: u64,
    confirmed: Set<u64>,
    sched: Seq<(String, Vec<usize>)>,
    id: Seq<u8>,
)
    requires
        !is_producer(sched, id),
    ensures
        identity_slots(sched, id) == 0,
        identity_blocks(first, confirmed, sched, id) == 0,
    decreases sched.len(),
{
    if sched.len() > 0 {
        let d = sched.drop_last();
        assert(!is_producer(d, id)) by {
            if is_producer(d, id) {
                let j = choose|j: int| 0 <= j < d.len() && assigned_to(#[trigger] d[j], id);
                assert(sched[j] == d[j]);
            }
        }
        assert(!assigned_to(sched[sched.len() - 1], id));
        lemma_absent_has_nothing(first, confirmed, d, id);
    }
}

proof fn lemma_total_prefix(sched: Seq<(String, Vec<usize>)>, j: int)
    requires
        0 <= j <= sched.len(),
    ensures
        total_slots(sched.take(j)) <= total_slots(sched),
    decreases sched.len(),
{
    if j == sched.len() {
        assert(sched.take(j) =~= sched);
    } else {
        let d = sched.drop_last();
        lemma_total_prefix(d, j);
        assert(sched.take(j) =~= d.take(j));
    }
}

proof fn lemma_element_le_sum(t: Seq<ProducerTally>, i: int)
    requires
        0 <= i < t.len(),
    ensures
        t[i].slots <= sum_slots(t),
    decreases t.len(),
{
    if i < t.len() - 1 {
        lemma_element_le_sum(t.drop_last(), i);
    }
}

proof fn lemma_sum_update(t: Seq<ProducerTally>, i: int, x: ProducerTally)
    requires
        0 <= i < t.len(),
    ensures
        sum_slots(t.update(i, x)) == sum_slots(t) - t[i].slots + x.slots,
        sum_blocks(t.update(i, x)) == sum_blocks(t) - t[i].blocks + x.blocks,
    decreases t.len(),
{
    let u = t.update(i, x);
    if i == t.len() - 1 {
        assert(u.drop_last() =~= t.drop_last());
    } else {
        lemma_sum_update(t.drop_last(), i, x);
        assert(u.drop_last() =~= t.drop_last().update(i, x));
    }
}

/// Confirmed blocks among the relative slots `rels` of a period that starts at
/// `first_slot`.
fn count_confirmed_slots(first_slot: u64, confirmed_blocks: &HashSet<u64>, rels: &Vec<usize>) -> (r:
    u64)
    requires
        forall|k: int| 0 <= k < rels@.len() ==> first_slot + #[trigger] rels@[k] <= u64::MAX,
    ensures
        r == count_confirmed(first_slot, confirmed_blocks@, rels@),
{
    let mut blocks: u64 = 0;
    let mut k: usize = 0;
    while k < rels.len()
        invariant
            0 <= k <= rels@.len(),
            forall|k: int| 0 <= k < rels@.len() ==> first_slot + #[trigger] rels@[k] <= u64::MAX,
            blocks == count_confirmed(first_slot, confirmed_blocks@, rels@.take(k as int)),
            blocks <= k,
        decreases rels@.len() - k,
    {
        proof {
            assert(rels@.take(k + 1).drop_last() =~= rels@.take(k as int));
        }
        let slot = first_slot + rels[k] as u64;
        if confirmed_blocks.contains(&slot) {
            blocks = blocks + 1;
        }
        k = k + 1;
    }
    assert(rels@.take(rels@.len() as int) =~= rels@);
    blocks
}

/// Index of the tally of `id`, if there is one.
fn position_of(tallies: &Vec<ProducerTally>, id: &Identity) -> (r: Option<usize>)
    ensures
        match r {
            Some(i) => i < tallies@.len() && tallies@[i as int].identity@ == id@,
            None => !tallied(tallies@, id@),
        },
{
    let mut i: usize = 0;
    while i < tallies.len()
        invariant
            0 <= i <= tallies@.len(),
            forall|a: int| 0 <= a < i ==> (#[trigger] tallies@[a]).identity@ != id@,
        decreases tallies@.len() - i,
    {
        if tallies[i].identity.same(id) {
            return Some(i);
        }
        i = i + 1;
    }
    None
}

/// Counts, per validator of the leader schedule, its assigned slots and the
/// confirmed blocks among them. Entries with no slots are ignored; entries that
/// decode to the same key are added together.
pub fn tally_schedule(
    first_slot_in_epoch: u64,
    confirmed_blocks: &HashSet<u64>,
    leader_schedule: &Vec<(String, Vec<usize>)>,
) -> (r: Result<Vec<ProducerTally>, ClassifyError>)
    requires
        slots_fit(first_slot_in_epoch, leader_schedule@),
        total_slots(leader_schedule@) <= u64::MAX,
    ensures
        r is Err <==> !identities_decode(leader_schedule@),
        r matches Err(e) ==> e == ClassifyError::InvalidIdentity,
        r matches Ok(t) ==> {
            &&& tallies_wf(t@)
            &&& sum_slots(t@) == total_slots(leader_schedule@)
            &&& sum_blocks(t@) == total_blocks(
                first_slot_in_epoch,
                confirmed_blocks@,
                leader_schedule@,
            )
            &&& forall|id: Seq<u8>| tallied(t@, id) <==> is_producer(leader_schedule@, id)
            &&& forall|i: int|
                0 <= i < t@.len() ==> (#[trigger] t@[i]).slots == identity_slots(
                    leader_schedule@,
                    t@[i].identity@,
                ) && t@[i].blocks == identity_blocks(
                    first_slot_in_epoch,
                    confirmed_blocks@,
                    leader_schedule@,
                    t@[i].identity@,
                )
        },
{
    let ghost s = leader_schedule@;
    let ghost c = confirmed_blocks@;
    let first = first_slot_in_epoch;
    let mut tallies: Vec<ProducerTally> = Vec::new();
    let mut j: usize = 0;
    proof {
        assert(s.take(0) =~= Seq::<(String, Vec<usize>)>::empty());
    }
    while j < leader_schedule.len()
        invariant
            s == leader_schedule@,
            c == confirmed_blocks@,
            slots_fit(first, s),
            total_slots(s) <= u64::MAX,
            0 <= j <= s.len(),
            identities_decode(s.take(j as int)),
            tallies_wf(tallies@),
            forall|id: Seq<u8>| tallied(tallies@, id) <==> is_producer(s.take(j as int), id),
            forall|i: int|
                0 <= i < tallies@.len() ==> (#[trigger] tallies@[i]).slots == identity_slots(
                    s.take(j as int),
                    tallies@[i].identity@,
                ) && tallies@[i].blocks == identity_blocks(
                    first,
                    c,
                    s.take(j as int),
                    tallies@[i].identity@,
                ),
            sum_slots(tallies@) == total_slots(s.take(j as int)),
            sum_blocks(tallies@) == total_blocks(first, c, s.take(j as int)),
        decreases s.len() - j,
    {
        let ghost s0 = s.take(j as int);
        let ghost s1 = s.take(j + 1);
        let ghost t0 = tallies@;
        proof {
            assert(s1.drop_last() =~= s0);
            assert(s1.last() == s[j as int]);
            lemma_total_prefix(s, j + 1);
            assert forall|id: Seq<u8>|
                is_producer(s1, id) <==> is_producer(s0, id) || assigned_to(s[j as int], id) by {
                if is_producer(s1, id) {
                    let jj = choose|jj: int| 0 <= jj < s1.len() && assigned_to(#[trigger] s1[jj], id);
                    if jj < j {
                        assert(s0[jj] == s1[jj]);
                    }
                }
                if is_producer(s0, id) {
                    let jj = choose|jj: int| 0 <= jj < s0.len() && assigned_to(#[trigger] s0[jj], id);
                    assert(s1[jj] == s0[jj]);
                }
                if assigned_to(s[j as int], id) {
                    assert(s1[j as int] == s[j as int]);
                }
            }
        }
        let rels = &leader_schedule[j].1;
        let n = rels.len() as u64;
        if rels.len() > 0 {
            let key = leader_schedule[j].0.as_str();
            match parse_identity(key) {
                None => {
                    assert(s[j as int].1@.len() > 0);
                    return Err(ClassifyError::InvalidIdentity);
                },
                Some(id) => {
                    proof {
                        assert forall|k: int| 0 <= k < rels@.len() implies first
                            + #[trigger] rels@[k] <= u64::MAX by {
                            assert(s[j as int].1@[k] == rels@[k]);
                        }
                        assert forall|x: Seq<u8>| assigned_to(s[j as int], x) <==> x == id@ by {}
                        lemma_count_le_len(first, c, rels@);
                    }
                    let blocks = count_confirmed_slots(first, confirmed_blocks, rels);
                    match position_of(&tallies, &id) {
                        Some(p) => {
                            let prev = tallies[p];
                            proof {
                                lemma_element_le_sum(t0, p as int);
                            }
                            let next = ProducerTally {
                                identity: prev.identity,
                                blocks: prev.blocks + blocks,
                                slots: prev.slots + n,
                            };
                            proof {
                                lemma_sum_update(t0, p as int, next);
                            }
                            tallies.set(p, next);
                            proof {
                                assert(tallies@ == t0.update(p as int, next));
                                assert forall|i: int|
                                    #![trigger tallies@[i]]
                                    0 <= i < tallies@.len() && i != p ==> tallies@[i].identity@
                                        != id@ by {
                                    if 0 <= i < tallies@.len() && i != p {
                                        assert(tallies@[i] == t0[i]);
                                    }
                                }
                                assert forall|id2: Seq<u8>|
                                    tallied(tallies@, id2) <==> tallied(t0, id2) by {
                                    if tallied(tallies@, id2) {
                                        let i = choose|i: int|
                                            0 <= i < tallies@.len() && (#[trigger] tallies@[i]).identity@
                                                == id2;
                                        assert(t0[i].identity@ == id2);
                                    }
                                    if tallied(t0, id2) {
                                        let i = choose|i: int|
                                            0 <= i < t0.len() && (#[trigger] t0[i]).identity@ == id2;
                                        assert(tallies@[i].identity@ == id2);
                                    }
                                }
                                assert(tallied(t0, id@));
                                assert forall|id2: Seq<u8>|
                                    tallied(tallies@, id2) <==> is_producer(s1, id2) by {
                                    assert(tallied(tallies@, id2) <==> tallied(t0, id2));
                                    assert(tallied(t0, id2) <==> is_producer(s0, id2));
                                    assert(is_producer(s1, id2) <==> is_producer(s0, id2)
                                        || assigned_to(s[j as int], id2));
                                    assert(assigned_to(s[j as int], id2) <==> id2 == id@);
                                }
                            }
                        },
                        None => {
                            proof {
                                assert(!is_producer(s0, id@));
                                lemma_absent_has_nothing(first, c, s0, id@);
                            }
                            tallies.push(ProducerTally { identity: id, blocks, slots: n });
                            proof {
                                assert(tallies@.drop_last() =~= t0);
                                assert forall|id2: Seq<u8>|
                                    tallied(tallies@, id2) <==> tallied(t0, id2) || id2 == id@ by {
                                    if tallied(tallies@, id2) {
                                        let i = choose|i: int|
                                            0 <= i < tallies@.len() && (#[trigger] tallies@[i]).identity@
                                                == id2;
                                        if i < t0.len() {
                                            assert(t0[i] == tallies@[i]);
                                        }
                                    }
                                    if tallied(t0, id2) {
                                        let i = choose|i: int|
                                            0 <= i < t0.len() && (#[trigger] t0[i]).identity@ == id2;
                                        assert(tallies@[i] == t0[i]);
                                    }
                                    if id2 == id@ {
                                        assert(tallies@[t0.len() as int].identity@ == id2);
                                    }
                                }
                                assert forall|i: int| 0 <= i < t0.len() implies (#[trigger] t0[i]).identity@
                                    != id@ by {
                                    assert(tallied(t0, t0[i].identity@));
                                }
                                assert forall|id2: Seq<u8>|
                                    tallied(tallies@, id2) <==> is_producer(s1, id2) by {
                                    assert(tallied(tallies@, id2) <==> tallied(t0, id2) || id2
                                        == id@);
                                    assert(tallied(t0, id2) <==> is_producer(s0, id2));
                                    assert(is_producer(s1, id2) <==> is_producer(s0, id2)
                                        || assigned_to(s[j as int], id2));
                                    assert(assigned_to(s[j as int], id2) <==> id2 == id@);
                                }
                            }
                        },
                    }
                },
            }
        } else {
            proof {
                assert forall|x: Seq<u8>| !assigned_to(s[j as int], x) by {}
                assert forall|id2: Seq<u8>|
                    tallied(tallies@, id2) <==> is_producer(s1, id2) by {}
            }
        }
        proof {
            assert(identities_decode(s1)) by {
                assert forall|jj: int|
                    0 <= jj < s1.len() && (#[trigger] s1[jj]).1@.len() > 0 implies pubkey_decoding(
                    s1[jj].0@,
                ) is Some by {
                    if jj < j {
                        assert(s0[jj] == s1[jj]);
                    }
                }
            }
        }
        j = j + 1;
    }
    proof {
        assert(s.take(s.len() as int) =~= s);
    }
    Ok(tallies)
}

/// Splits the validators of one accounting period into quality and poor block
/// producers, from the confirmed blocks of the period and its leader schedule.
pub fn classify_producers(
    first_slot_in_epoch: u64,
    confirmed_blocks: &HashSet<u64>,
    leader_schedule: &Vec<(String, Vec<usize>)>,
    config: &Config,
) -> (r: Result<ClassifyResult, ClassifyError>)
    requires
        slots_fit(first_slot_in_epoch, leader_schedule@),
        total_slots(leader_schedule@) <= u64::MAX,
    ensures
        r matches Err(ClassifyError::InvalidIdentity) <==> !identities_decode(leader_schedule@),
        r matches Err(ClassifyError::NoAssignedSlots) <==> identities_decode(leader_schedule@)
            && total_slots(leader_schedule@) == 0,
        r matches Ok((quality, poor, cluster_rate, too_many)) ==> {
            let first = first_slot_in_epoch;
            let c = confirmed_blocks@;
            let s = leader_schedule@;
            &&& cluster_rate == cluster_skip_rate(first, c, s)
            &&& forall|id: Seq<u8>|
                listed(quality@, id) <==> is_producer(s, id) && !poor_producer(
                    first,
                    c,
                    s,
                    id,
                    *config,
                )
            &&& forall|id: Seq<u8>|
                listed(poor@, id) <==> is_producer(s, id) && poor_producer(first, c, s, id, *config)
            &&& forall|id: Seq<u8>| !(listed(quality@, id) && listed(poor@, id))
            &&& forall|id: Seq<u8>|
                listed(quality@, id) || listed(poor@, id) <==> producers(s).contains(id)
            &&& distinct(quality@)
            &&& distinct(poor@)
            &&& quality@.len() + poor@.len() == producers(s).len()
            &&& too_many == too_many_poor(
                poor@.len() as int,
                (quality@.len() + poor@.len()) as int,
                config.max_poor_block_producer_percentage as int,
            )
        },
{
    let tallies = match tally_schedule(first_slot_in_epoch, confirmed_blocks, leader_schedule) {
        Ok(t) => t,
        Err(e) => {
            return Err(e);
        },
    };
    let ghost t = tallies@;
    let ghost first = first_slot_in_epoch;
    let ghost c = confirmed_blocks@;
    let ghost s = leader_schedule@;
    proof {
        if t.len() > 0 {
            assert(t[t.len() - 1].slots > 0);
        }
    }
    let r = classify_tallies(&tallies, config);
    proof {
        if r is Ok {
            let quality = r->Ok_0.0;
            let poor = r->Ok_0.1;
            let cluster_rate = r->Ok_0.2;
            assert forall|i: int| 0 <= i < t.len() implies tally_is_poor(
                #[trigger] t[i],
                cluster_rate as int,
                *config,
            ) == poor_producer(first, c, s, t[i].identity@, *config) by {}
            assert forall|id: Seq<u8>|
                listed(quality@, id) <==> is_producer(s, id) && !poor_producer(
                    first,
                    c,
                    s,
                    id,
                    *config,
                ) by {
                if is_producer(s, id) {
                    assert(tallied(t, id));
                }
            }
            assert forall|id: Seq<u8>|
                listed(poor@, id) <==> is_producer(s, id) && poor_producer(
                    first,
                    c,
                    s,
                    id,
                    *config,
                ) by {
                if is_producer(s, id) {
                    assert(tallied(t, id));
                }
            }
            let ids = t.map_values(|x: ProducerTally| x.identity@);
            assert(ids.no_duplicates()) by {
                assert forall|a: int, b: int|
                    0 <= a < ids.len() && 0 <= b < ids.len() && a != b implies ids[a] != ids[b] by {
                    assert(t[a].identity@ != t[b].identity@);
                }
            }
            ids.unique_seq_to_set();
            assert(ids.to_set() =~= producers(s)) by {
                assert forall|id: Seq<u8>| ids.to_set().contains(id) <==> is_producer(s, id) by {
                    if ids.to_set().contains(id) {
                        let a = choose|a: int| 0 <= a < ids.len() && ids[a] == id;
                        assert(t[a].identity@ == id);
                    }
                    if is_producer(s, id) {
                        assert(tallied(t, id));
                        let i = choose|i: int| 0 <= i < t.len() && (#[trigger] t[i]).identity@ == id;
                        assert(ids[i] == id);
                    }
                }
            }
        }
    }
    r
}


// ---------------------------------------------------------------------------
// Laws of the classifier.

proof fn lemma_entry_le_total(sched: Seq<(String, Vec<usize>)>, j: int)
    requires
        0 <= j < sched.len(),
    ensures
        sched[j].1@.len() <= total_slots(sched),
    decreases sched.len(),
{
    if j < sched.len() - 1 {
        lemma_entry_le_total(sched.drop_last(), j);
        assert(sched.drop_last()[j] == sched[j]);
    }
}

proof fn lemma_producer_has_slots(sched: Seq<(String, Vec<usize>)>, id: Seq<u8>)
    requires
        is_producer(sched, id),
    ensures
        identity_slots(sched, id) > 0,
        total_slots(sched) > 0,
    decreases sched.len(),
{
    let j = choose|j: int| 0 <= j < sched.len() && assigned_to(#[trigger] sched[j], id);
    lemma_entry_le_total(sched, j);
    if j < sched.len() - 1 {
        let d = sched.drop_last();
        assert(d[j] == sched[j]);
        lemma_producer_has_slots(d, id);
    }
}

proof fn lemma_total_blocks_le_slots(first: u64, confirmed: Set<u64>, sched: Seq<(String, Vec<usize>)>)
    ensures
        total_blocks(first, confirmed, sched) <= total_slots(sched),
    decreases sched.len(),
{
    if sched.len() > 0 {
        lemma_total_blocks_le_slots(first, confirmed, sched.drop_last());
        lemma_count_le_len(first, confirmed, sched.last().1@);
    }
}

proof fn lemma_count_monotone(first: u64, smaller: Set<u64>, larger: Set<u64>, rels: Seq<usize>)
    requires
        smaller.subset_of(larger),
    ensures
        count_confirmed(first, smaller, rels) <= count_confirmed(first, larger, rels),
    decreases rels.len(),
{
    if rels.len() > 0 {
        lemma_count_monotone(first, smaller, larger, rels.drop_last());
    }
}

proof fn lemma_total_blocks_monotone(
    first: u64,
    smaller: Set<u64>,
    larger: Set<u64>,
    sched: Seq<(String, Vec<usize>)>,
)
    requires
        smaller.subset_of(larger),
    ensures
        total_blocks(first, smaller, sched) <= total_blocks(first, larger, sched),
    decreases sched.len(),
{
    if sched.len() > 0 {
        lemma_total_blocks_monotone(first, smaller, larger, sched.drop_last());
        lemma_count_monotone(first, smaller, larger, sched.last().1@);
    }
}

proof fn lemma_nothing_counted(first: u64, sched: Seq<(String, Vec<usize>)>, id: Seq<u8>)
    ensures
        identity_blocks(first, Set::empty(), sched, id) == 0,
    decreases sched.len(),
{
    if sched.len() > 0 {
        lemma_nothing_counted(first, sched.drop_last(), id);
        lemma_count_none(first, sched.last().1@);
    }
}

proof fn lemma_count_none(first: u64, rels: Seq<usize>)
    ensures
        count_confirmed(first, Set::empty(), rels) == 0,
    decreases rels.len(),
{
    if rels.len() > 0 {
        lemma_count_none(first, rels.drop_last());
    }
}

/// When every validator with assigned slots produced a block in each of them,
/// no validator is poor, and a poor share of zero never counts as too many.
pub proof fn lemma_full_production_has_no_poor(
    first: u64,
    confirmed: Set<u64>,
    sched: Seq<(String, Vec<usize>)>,
    config: Config,
)
    requires
        forall|id: Seq<u8>|
            #![trigger is_producer(sched, id)]
            is_producer(sched, id) ==> identity_blocks(first, confirmed, sched, id)
                == identity_slots(sched, id),
    ensures
        forall|id: Seq<u8>|
            #![trigger is_producer(sched, id)]
            is_producer(sched, id) ==> !poor_producer(first, confirmed, sched, id, config),
        forall|n: int|
            n > 0 ==> !#[trigger] too_many_poor(
                0,
                n,
                config.max_poor_block_producer_percentage as int,
            ),
{
    assert forall|id: Seq<u8>|
        #![trigger is_producer(sched, id)]
        is_producer(sched, id) implies !poor_producer(first, confirmed, sched, id, config) by {
        lemma_producer_has_slots(sched, id);
        let slots = identity_slots(sched, id) as int;
        lemma_div_by_multiple(100, slots);
        assert(slots * 100 == 100 * slots) by (nonlinear_arith);
        lemma_total_blocks_le_slots(first, confirmed, sched);
        lemma_rate_bounds(
            total_blocks(first, confirmed, sched) as int,
            total_slots(sched) as int,
        );
    }
}

/// When no slot of the period holds a confirmed block, every validator with
/// assigned slots is poor under a fixed floor of zero and a quality allowance
/// below 100; then all of them are poor, which is too many exactly when the
/// ceiling is below 100.
pub proof fn lemma_no_blocks_all_poor(first: u64, sched: Seq<(String, Vec<usize>)>, config: Config)
    requires
        !config.use_cluster_average_skip_rate,
        config.quality_block_producer_percentage < 100,
    ensures
        forall|id: Seq<u8>|
            #![trigger is_producer(sched, id)]
            is_producer(sched, id) ==> poor_producer(first, Set::empty(), sched, id, config),
        forall|n: int|
            n > 0 ==> (#[trigger] too_many_poor(
                n,
                n,
                config.max_poor_block_producer_percentage as int,
            ) <==> 100 > config.max_poor_block_producer_percentage),
{
    assert forall|id: Seq<u8>|
        #![trigger is_producer(sched, id)]
        is_producer(sched, id) implies poor_producer(first, Set::empty(), sched, id, config) by {
        lemma_producer_has_slots(sched, id);
        lemma_nothing_counted(first, sched, id);
        lemma_div_pos_is_pos(0, identity_slots(sched, id) as int);
    }
    assert forall|n: int|
        n > 0 implies (#[trigger] too_many_poor(
            n,
            n,
            config.max_poor_block_producer_percentage as int,
        ) <==> 100 > config.max_poor_block_producer_percentage) by {
        lemma_div_by_multiple(100, n);
        assert(n * 100 == 100 * n) by (nonlinear_arith);
    }
}

/// Holding the schedule fixed, fewer confirmed blocks never lower the
/// cluster-average skip rate.
pub proof fn lemma_cluster_skip_rate_monotone(
    first: u64,
    fewer: Set<u64>,
    more: Set<u64>,
    sched: Seq<(String, Vec<usize>)>,
)
    requires
        fewer.subset_of(more),
    ensures
        cluster_skip_rate(first, fewer, sched) >= cluster_skip_rate(first, more, sched),
{
    lemma_total_blocks_monotone(first, fewer, more, sched);
    lemma_total_blocks_le_slots(first, more, sched);
    let a = total_blocks(first, fewer, sched) as int;
    let b = total_blocks(first, more, sched) as int;
    if total_slots(sched) > 0 {
        assert(a * 100 <= b * 100) by (nonlinear_arith)
            requires
                a <= b,
        ;
        lemma_div_is_ordered(a * 100, b * 100, total_slots(sched) as int);
    }
}

} // verus!
