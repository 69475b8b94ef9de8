//! Allocation backends: from desired stake states to a plan of operations.

use vstd::prelude::*;
use vstd::arithmetic::div_mod::lemma_div_is_ordered_by_denominator;
use crate::identity::{Identity, contains_identity, listed};

verus! {

/// Target stake of a validator, ordered NoStake < Baseline < Bonus.
#[derive(Clone, Copy, Debug, PartialEq, Eq, PartialOrd, Ord, Structural)]
pub enum ValidatorStakeState {
    NoStake,
    Baseline,
    Bonus,
}

/// The desired stake of one validator, with the reason for it.
#[derive(Clone, Debug)]
pub struct ValidatorStake {
    pub identity: Identity,
    pub stake_state: ValidatorStakeState,
    pub memo: String,
}

impl View for ValidatorStake {
    type V = (Seq<u8>, ValidatorStakeState, Seq<char>);

    open spec fn view(&self) -> (Seq<u8>, ValidatorStakeState, Seq<char>) {
        (self.identity@, self.stake_state, self.memo@)
    }
}

/// A validator's node key and its vote account.
#[derive(Clone, Copy, Debug)]
pub struct ValidatorAddressPair {
    pub identity: Identity,
    pub vote_address: Identity,
}

#[derive(Clone, Copy, Debug, PartialEq, Eq, Structural)]
pub enum OpKind {
    /// Create the allocation record of a validator.
    Create,
    /// Add `amount` to the validator's stake.
    Fund,
    /// Remove `amount` from the validator's stake, keeping the rest.
    Reduce,
    /// Remove all of the validator's stake (`amount`).
    Deactivate,
}

/// One operation of an allocation plan.
#[derive(Clone, Debug)]
pub struct AllocationOp {
    pub identity: Identity,
    pub kind: OpKind,
    pub amount: u64,
    pub memo: String,
}

impl View for AllocationOp {
    type V = (Seq<u8>, OpKind, u64, Seq<char>);

    open spec fn view(&self) -> (Seq<u8>, OpKind, u64, Seq<char>) {
        (self.identity@, self.kind, self.amount, self.memo@)
    }
}

/// One stake account per validator, split from a funding source, with two
/// fixed magnitudes.
#[derive(Clone, Debug)]
pub struct PerValidatorAllocation {
    pub baseline_stake_amount: u64,
    pub bonus_stake_amount: u64,
    /// The validators eligible for stake.
    pub validator_list: Vec<Identity>,
}

/// A shared pool: every staked validator gets the baseline, and what the pool
/// holds beyond the baselines is shared equally by the bonus validators.
#[derive(Clone, Debug)]
pub struct PooledAllocation {
    pub baseline_stake_amount: u64,
}

#[derive(Clone, Debug)]
pub enum AllocationBackend {
    Pooled(PooledAllocation),
    PerValidator(PerValidatorAllocation),
}

pub open spec fn saturating(x: int) -> u64 {
    if x > u64::MAX {
        u64::MAX
    } else {
        x as u64
    }
}

pub open spec fn count_state(desired: Seq<ValidatorStake>, state: ValidatorStakeState) -> nat
    decreases desired.len(),
{
    if desired.len() == 0 {
        0
    } else {
        count_state(desired.drop_last(), state) + if desired.last().stake_state == state {
            1nat
        } else {
            0nat
        }
    }
}

/// Stake that the last observed value of `id` in `observed` records; zero when
/// `id` has none.
pub open spec fn observed_amount(observed: Seq<(Identity, u64)>, id: Seq<u8>) -> u64
    decreases observed.len(),
{
    if observed.len() == 0 {
        0
    } else if observed.last().0@ == id {
        observed.last().1
    } else {
        observed_amount(observed.drop_last(), id)
    }
}

/// The operation that moves `current` to `target`, if any.
pub open spec fn op_for(id: Seq<u8>, current: u64, target: u64, memo: Seq<char>) -> Option<
    (Seq<u8>, OpKind, u64, Seq<char>),
> {
    if current < target {
        Some((id, OpKind::Fund, (target - current) as u64, memo))
    } else if current > target && target == 0 {
        Some((id, OpKind::Deactivate, current, memo))
    } else if current > target {
        Some((id, OpKind::Reduce, (current - target) as u64, memo))
    } else {
        None
    }
}

impl AllocationBackend {
    pub open spec fn enrolled(&self, id: Seq<u8>) -> bool {
        match self {
            AllocationBackend::Pooled(_) => true,
            AllocationBackend::PerValidator(p) => listed(p.validator_list@, id),
        }
    }

    /// Bonus on top of the baseline for this plan. `pool_stake` is the whole
    /// stake of the pool; the per-validator backend ignores it.
    pub open spec fn bonus_of(&self, pool_stake: u64, desired: Seq<ValidatorStake>) -> u64 {
        match self {
            AllocationBackend::PerValidator(p) => p.bonus_stake_amount,
            AllocationBackend::Pooled(p) => {
                let n_bonus = count_state(desired, ValidatorStakeState::Bonus);
                let n_staked = n_bonus + count_state(desired, ValidatorStakeState::Baseline);
                let spare = pool_stake - p.baseline_stake_amount * n_staked;
                if n_bonus == 0 || spare <= 0 {
                    0
                } else {
                    (spare / n_bonus as int) as u64
                }
            },
        }
    }

    pub open spec fn baseline(&self) -> u64 {
        match self {
            AllocationBackend::PerValidator(p) => p.baseline_stake_amount,
            AllocationBackend::Pooled(p) => p.baseline_stake_amount,
        }
    }

    pub open spec fn target(&self, state: ValidatorStakeState, bonus: u64) -> u64 {
        match state {
            ValidatorStakeState::NoStake => 0,
            ValidatorStakeState::Baseline => self.baseline(),
            ValidatorStakeState::Bonus => saturating(self.baseline() + bonus),
        }
    }

    /// The plan of `apply`: one operation per desired validator whose observed
    /// stake differs from its target, in the order of `desired`.
    pub open spec fn plan_of(
        &self,
        observed: Seq<(Identity, u64)>,
        bonus: u64,
        desired: Seq<ValidatorStake>,
    ) -> Seq<(Seq<u8>, OpKind, u64, Seq<char>)>
        decreases desired.len(),
    {
        if desired.len() == 0 {
            Seq::empty()
        } else {
            let d = desired.last();
            let rest = self.plan_of(observed, bonus, desired.drop_last());
            match op_for(
                d.identity@,
                observed_amount(observed, d.identity@),
                self.target(d.stake_state, bonus),
                d.memo@,
            ) {
                Some(op) => rest.push(op),
                None => rest,
            }
        }
    }

    /// The plan of `init`: a record for each enrolled validator that has none.
    pub open spec fn init_plan_of(
        &self,
        validators: Seq<ValidatorAddressPair>,
        existing: Seq<Identity>,
    ) -> Seq<(Seq<u8>, OpKind, u64, Seq<char>)>
        decreases validators.len(),
    {
        if validators.len() == 0 {
            Seq::empty()
        } else {
            let v = validators.last();
            let rest = self.init_plan_of(validators.drop_last(), existing);
            if self.enrolled(v.identity@) && !listed(existing, v.identity@) {
                rest.push((v.identity@, OpKind::Create, 0u64, Seq::empty()))
            } else {
                rest
            }
        }
    }

    /// Whether the validator takes part in this backend's allocation.
    pub fn is_enrolled(&self, identity: &Identity) -> (r: bool)
        ensures
            r == self.enrolled(identity@),
    {
        match self {
            AllocationBackend::Pooled(_) => true,
            AllocationBackend::PerValidator(p) => contains_identity(&p.validator_list, identity),
        }
    }

    /// Setup operations: a record for each enrolled validator that `existing`
    /// does not list yet.
    pub fn init(&self, validators: &Vec<ValidatorAddressPair>, existing: &Vec<Identity>) -> (r: Vec<
        AllocationOp,
    >)
        ensures
            r@.map_values(|o: AllocationOp| o@) == self.init_plan_of(validators@, existing@),
    {
        let mut plan: Vec<AllocationOp> = Vec::new();
        let mut i: usize = 0;
        while i < validators.len()
            invariant
                0 <= i <= validators@.len(),
                plan@.map_values(|o: AllocationOp| o@) == self.init_plan_of(
                    validators@.take(i as int),
                    existing@,
                ),
            decreases validators@.len() - i,
        {
            proof {
                assert(validators@.take(i + 1).drop_last() =~= validators@.take(i as int));
            }
            let v = validators[i];
            if self.is_enrolled(&v.identity) && !contains_identity(existing, &v.identity) {
                let ghost p0 = plan@;
                let memo = String::new();
                plan.push(AllocationOp { identity: v.identity, kind: OpKind::Create, amount: 0, memo });
                proof {
                    assert(plan@.map_values(|o: AllocationOp| o@) =~= p0.map_values(
                        |o: AllocationOp| o@,
                    ).push((v.identity@, OpKind::Create, 0u64, Seq::empty())));
                }
            }
            i = i + 1;
        }
        proof {
            assert(validators@.take(validators@.len() as int) =~= validators@);
        }
        plan
    }

    /// Bonus on top of the baseline for a plan over `desired`.
    pub fn bonus_amount(&self, pool_stake: u64, desired: &Vec<ValidatorStake>) -> (r: u64)
        ensures
            r == self.bonus_of(pool_stake, desired@),
    {
        match self {
            AllocationBackend::PerValidator(p) => p.bonus_stake_amount,
            AllocationBackend::Pooled(p) => {
                let mut n_bonus: u64 = 0;
                let mut n_baseline: u64 = 0;
                let mut i: usize = 0;
                while i < desired.len()
                    invariant
                        0 <= i <= desired@.len(),
                        n_bonus == count_state(desired@.take(i as int), ValidatorStakeState::Bonus),
                        n_baseline == count_state(
                            desired@.take(i as int),
                            ValidatorStakeState::Baseline,
                        ),
                        n_bonus + n_baseline <= i,
                    decreases desired@.len() - i,
                {
                    proof {
                        assert(desired@.take(i + 1).drop_last() =~= desired@.take(i as int));
                    }
                    match desired[i].stake_state {
                        ValidatorStakeState::Bonus => {
                            n_bonus = n_bonus + 1;
                        },
                        ValidatorStakeState::Baseline => {
                            n_baseline = n_baseline + 1;
                        },
                        ValidatorStakeState::NoStake => {},
                    }
                    i = i + 1;
                }
                proof {
                    assert(desired@.take(desired@.len() as int) =~= desired@);
                }
                let n_staked = n_bonus as u128 + n_baseline as u128;
                let baseline = p.baseline_stake_amount as u128;
                proof {
                    assert(baseline * n_staked <= 0xffff_ffff_ffff_ffffu128 * 0x1_0000_0000_0000_0000u128)
                        by (nonlinear_arith)
                        requires
                            baseline <= 0xffff_ffff_ffff_ffffu128,
                            n_staked <= 0x1_0000_0000_0000_0000u128,
                    ;
                }
                let staked = baseline * n_staked;
                if n_bonus == 0 || pool_stake as u128 <= staked {
                    0
                } else {
                    let spare = pool_stake as u128 - staked;
                    proof {
                        lemma_div_is_ordered_by_denominator(spare as int, 1, n_bonus as int);
                    }
                    (spare / n_bonus as u128) as u64
                }
            },
        }
    }

    /// Operations that move the observed stake of each desired validator to
    /// its target: funding below it, reducing above it, deactivating where the
    /// target is zero, nothing where it is met.
    pub fn apply(
        &self,
        observed: &Vec<(Identity, u64)>,
        pool_stake: u64,
        desired: &Vec<ValidatorStake>,
    ) -> (r: Vec<AllocationOp>)
        ensures
            r@.map_values(|o: AllocationOp| o@) == self.plan_of(
                observed@,
                self.bonus_of(pool_stake, desired@),
                desired@,
            ),
    {
        let bonus = self.bonus_amount(pool_stake, desired);
        let baseline = match self {
            AllocationBackend::PerValidator(p) => p.baseline_stake_amount,
            AllocationBackend::Pooled(p) => p.baseline_stake_amount,
        };
        let mut plan: Vec<AllocationOp> = Vec::new();
        let mut i: usize = 0;
        while i < desired.len()
            invariant
                0 <= i <= desired@.len(),
                bonus == self.bonus_of(pool_stake, desired@),
                baseline == self.baseline(),
                plan@.map_values(|o: AllocationOp| o@) == self.plan_of(
                    observed@,
                    bonus,
                    desired@.take(i as int),
                ),
            decreases desired@.len() - i,
        {
            proof {
                assert(desired@.take(i + 1).drop_last() =~= desired@.take(i as int));
            }
            let d = &desired[i];
            let current = observed_stake(observed, &d.identity);
            let target: u64 = match d.stake_state {
                ValidatorStakeState::NoStake => 0,
                ValidatorStakeState::Baseline => baseline,
                ValidatorStakeState::Bonus => baseline.saturating_add(bonus),
            };
            assert(target == self.target(d.stake_state, bonus));
            let ghost p0 = plan@;
            if current != target {
                let kind = if current < target {
                    OpKind::Fund
                } else if target == 0 {
                    OpKind::Deactivate
                } else {
                    OpKind::Reduce
                };
                let amount = if current < target {
                    target - current
                } else if target == 0 {
                    current
                } else {
                    current - target
                };
                let memo = d.memo.clone();
                plan.push(AllocationOp { identity: d.identity, kind, amount, memo });
                proof {
                    assert(plan@.map_values(|o: AllocationOp| o@) =~= p0.map_values(
                        |o: AllocationOp| o@,
                    ).push(op_for(d.identity@, current, target, d.memo@)->Some_0));
                }
            }
            i = i + 1;
        }
        proof {
            assert(desired@.take(desired@.len() as int) =~= desired@);
        }
        plan
    }
}

/// The stake that `observed` records for `id` (its last entry), zero if none.
pub fn observed_stake(observed: &Vec<(Identity, u64)>, id: &Identity) -> (r: u64)
    ensures
        r == observed_amount(observed@, id@),
{
    let mut i: usize = observed.len();
    proof {
        assert(observed@.take(i as int) =~= observed@);
    }
    while i > 0
        invariant
            0 <= i <= observed@.len(),
            observed_amount(observed@, id@) == observed_amount(observed@.take(i as int), id@),
        decreases i,
    {
        let ghost t = observed@.take(i as int);
        proof {
            assert(t.drop_last() =~= observed@.take(i - 1));
        }
        if observed[i - 1].0.same(id) {
            return observed[i - 1].1;
        }
        i = i - 1;
    }
    proof {
        assert(observed@.take(0) =~= Seq::<(Identity, u64)>::empty());
        assert(observed@.take(observed@.len() as int) =~= observed@);
    }
    0
}

/// Re-running `apply` against observations that already meet every target
/// yields an empty plan.
pub proof fn lemma_apply_settled_is_empty(
    backend: AllocationBackend,
    observed: Seq<(Identity, u64)>,
    bonus: u64,
    desired: Seq<ValidatorStake>,
)
    requires
        forall|i: int|
            0 <= i < desired.len() ==> observed_amount(observed, (#[trigger] desired[i]).identity@)
                == backend.target(desired[i].stake_state, bonus),
    ensures
        backend.plan_of(observed, bonus, desired) == Seq::<(Seq<u8>, OpKind, u64, Seq<char>)>::empty(),
    decreases desired.len(),
{
    if desired.len() > 0 {
        let d = desired.drop_last();
        assert forall|i: int| 0 <= i < d.len() implies observed_amount(
            observed,
            (#[trigger] d[i]).identity@,
        ) == backend.target(d[i].stake_state, bonus) by {
            assert(d[i] == desired[i]);
        }
        lemma_apply_settled_is_empty(backend, observed, bonus, d);
        assert(desired.last() == desired[desired.len() - 1]);
    }
}

/// Re-running `init` once every enrolled validator has its record yields an
/// empty plan.
pub proof fn lemma_init_settled_is_empty(
    backend: AllocationBackend,
    validators: Seq<ValidatorAddressPair>,
    existing: Seq<Identity>,
)
    requires
        forall|i: int|
            0 <= i < validators.len() && backend.enrolled((#[trigger] validators[i]).identity@)
                ==> listed(existing, validators[i].identity@),
    ensures
        backend.init_plan_of(validators, existing) == Seq::<
            (Seq<u8>, OpKind, u64, Seq<char>),
        >::empty(),
    decreases validators.len(),
{
    if validators.len() > 0 {
        let d = validators.drop_last();
        assert forall|i: int|
            0 <= i < d.len() && backend.enrolled((#[trigger] d[i]).identity@) implies listed(
            existing,
            d[i].identity@,
        ) by {
            assert(d[i] == validators[i]);
        }
        lemma_init_settled_is_empty(backend, d, existing);
        assert(validators.last() == validators[validators.len() - 1]);
    }
}

} // verus!
