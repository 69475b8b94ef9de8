//! The decision engine: desired stake of each validator, by rule precedence.

use vstd::prelude::*;
use crate::allocation::{AllocationBackend, ValidatorStake, ValidatorStakeState};
use crate::config::Config;
use crate::identity::{Identity, contains_identity, identity_text, listed, pubkey_text};
use crate::policy::{
    InfrastructureConcentrationAffectKind,
    destake_memo_text,
    destakes,
    warning_memo_text,
};
use crate::text::{append_decimal, decimal};

verus! {

/// The vote account of a validator as the ledger reports it.
#[derive(Clone, Copy, Debug)]
pub struct VoteAccountInfo {
    pub identity: Identity,
    pub vote_address: Identity,
    pub commission: u8,
    pub root_slot: u64,
    pub last_vote: u64,
}

/// What the decision engine knows of the cluster besides the vote accounts.
#[derive(Clone, Debug)]
pub struct DecisionInputs {
    /// Quality block producers of the last accounting period.
    pub quality: Vec<Identity>,
    /// Poor block producers of the last accounting period.
    pub poor: Vec<Identity>,
    pub too_many_poor: bool,
    /// Enrolled validators that run an old release.
    pub old_release: Vec<Identity>,
    pub too_many_old_releases: bool,
    /// Infrastructure concentration of validators, in tenths of a percent.
    pub concentration: Vec<(Identity, u64)>,
    pub current_slot: u64,
    /// The accounting period that was classified.
    pub epoch: u64,
}

pub open spec fn saturating_sub(a: u64, b: u64) -> int {
    if a > b {
        a - b
    } else {
        0
    }
}

/// The concentration of `id` (its last entry) when it is above `max` percent.
pub open spec fn concentration_above(concentration: Seq<(Identity, u64)>, id: Seq<u8>, max: u64) -> Option<
    u64,
>
    decreases concentration.len(),
{
    if concentration.len() == 0 {
        None
    } else if concentration.last().0@ == id && concentration.last().1 > max * 10 {
        Some(concentration.last().1)
    } else {
        concentration_above(concentration.drop_last(), id, max)
    }
}

pub open spec fn commission_memo(id: Seq<u8>, commission: nat) -> Seq<char> {
    "⛔ `"@ + pubkey_text(id) + "` "@ + decimal(commission) + "% commission is too high"@
}

pub open spec fn old_release_memo(id: Seq<u8>) -> Seq<char> {
    "🧮 `"@ + pubkey_text(id) + "` is running an old software release"@
}

pub open spec fn delinquent_memo(id: Seq<u8>) -> Seq<char> {
    "🏖️ `"@ + pubkey_text(id) + "` is delinquent"@
}

pub open spec fn quality_memo(id: Seq<u8>, epoch: nat) -> Seq<char> {
    "🏅 `"@ + pubkey_text(id) + "` was a quality block producer during epoch "@ + decimal(epoch)
}

pub open spec fn poor_memo(id: Seq<u8>, epoch: nat) -> Seq<char> {
    "💔 `"@ + pubkey_text(id) + "` was a poor block producer during epoch "@ + decimal(epoch)
}

pub open spec fn current_memo(id: Seq<u8>) -> Seq<char> {
    "🥩 `"@ + pubkey_text(id) + "` is current"@
}

/// The desired stake of one validator, by the first rule that applies, or
/// nothing when the validator keeps its stake this run.
pub open spec fn decision(v: VoteAccountInfo, inputs: DecisionInputs, config: Config) -> Option<
    (Seq<u8>, ValidatorStakeState, Seq<char>),
> {
    let id = v.identity@;
    let max = config.max_infrastructure_concentration;
    let conc = concentration_above(inputs.concentration@, id, max);
    if conc is Some && destakes(config.infrastructure_concentration_affects, id) {
        Some(
            (
                id,
                ValidatorStakeState::NoStake,
                destake_memo_text(id, conc->Some_0 as nat, max as nat),
            ),
        )
    } else if v.commission > config.max_commission {
        Some((id, ValidatorStakeState::NoStake, commission_memo(id, v.commission as nat)))
    } else if !inputs.too_many_old_releases && listed(inputs.old_release@, id) {
        Some((id, ValidatorStakeState::NoStake, old_release_memo(id)))
    } else if v.root_slot < saturating_sub(
        inputs.current_slot,
        config.delinquent_grace_slot_distance,
    ) {
        Some((id, ValidatorStakeState::NoStake, delinquent_memo(id)))
    } else if v.root_slot < saturating_sub(inputs.current_slot, config.delinquent_hold_slot_distance) {
        None
    } else if listed(inputs.quality@, id) {
        Some((id, ValidatorStakeState::Bonus, quality_memo(id, inputs.epoch as nat)))
    } else if listed(inputs.poor@, id) {
        if inputs.too_many_poor {
            None
        } else {
            Some((id, ValidatorStakeState::Baseline, poor_memo(id, inputs.epoch as nat)))
        }
    } else {
        Some((id, ValidatorStakeState::Baseline, current_memo(id)))
    }
}

/// The concentration warning that the validator raises, if any.
pub open spec fn warning(v: VoteAccountInfo, inputs: DecisionInputs, config: Config) -> Option<
    Seq<char>,
> {
    let id = v.identity@;
    let max = config.max_infrastructure_concentration;
    let conc = concentration_above(inputs.concentration@, id, max);
    if conc is Some && !destakes(config.infrastructure_concentration_affects, id) {
        Some(warning_memo_text(id, conc->Some_0 as nat, max as nat))
    } else {
        None
    }
}

pub open spec fn desired_of(
    infos: Seq<VoteAccountInfo>,
    backend: AllocationBackend,
    inputs: DecisionInputs,
    config: Config,
) -> Seq<(Seq<u8>, ValidatorStakeState, Seq<char>)>
    decreases infos.len(),
{
    if infos.len() == 0 {
        Seq::empty()
    } else {
        let v = infos.last();
        let rest = desired_of(infos.drop_last(), backend, inputs, config);
        if backend.enrolled(v.identity@) && decision(v, inputs, config) is Some {
            rest.push(decision(v, inputs, config)->Some_0)
        } else {
            rest
        }
    }
}

pub open spec fn warnings_of(
    infos: Seq<VoteAccountInfo>,
    backend: AllocationBackend,
    inputs: DecisionInputs,
    config: Config,
) -> Seq<Seq<char>>
    decreases infos.len(),
{
    if infos.len() == 0 {
        Seq::empty()
    } else {
        let v = infos.last();
        let rest = warnings_of(infos.drop_last(), backend, inputs, config);
        if backend.enrolled(v.identity@) && warning(v, inputs, config) is Some {
            rest.push(warning(v, inputs, config)->Some_0)
        } else {
            rest
        }
    }
}

/// The concentration of `id` (its last entry) when it is above `max` percent.
fn concentration_above_ceiling(concentration: &Vec<(Identity, u64)>, id: &Identity, max: u64) -> (r:
    Option<u64>)
    ensures
        r == concentration_above(concentration@, id@, max),
{
    let mut i: usize = concentration.len();
    proof {
        assert(concentration@.take(i as int) =~= concentration@);
    }
    while i > 0
        invariant
            0 <= i <= concentration@.len(),
            concentration_above(concentration@, id@, max) == concentration_above(
                concentration@.take(i as int),
                id@,
                max,
            ),
        decreases i,
    {
        proof {
            assert(concentration@.take(i as int).drop_last() =~= concentration@.take(i - 1));
        }
        let (key, c) = concentration[i - 1];
        if key.same(id) && c as u128 > max as u128 * 10 {
            return Some(c);
        }
        i = i - 1;
    }
    proof {
        assert(concentration@.take(0) =~= Seq::<(Identity, u64)>::empty());
    }
    None
}

/// `prefix`, the key text of `id`, then `suffix`.
fn identity_memo(prefix: &str, id: &Identity, suffix: &str) -> (r: String)
    ensures
        r@ == prefix@ + pubkey_text(id@) + suffix@,
{
    let mut m = String::from_str(prefix);
    let text = identity_text(id);
    m.append(text.as_str());
    m.append(suffix);
    m
}

/// The decision on one validator, and the concentration warning it raises.
pub fn decide_validator(v: &VoteAccountInfo, inputs: &DecisionInputs, config: &Config) -> (r: (
    Option<ValidatorStake>,
    Option<String>,
))
    ensures
        match r.0 {
            Some(s) => decision(*v, *inputs, *config) == Some(s@),
            None => decision(*v, *inputs, *config) is None,
        },
        match r.1 {
            Some(w) => warning(*v, *inputs, *config) == Some(w@),
            None => warning(*v, *inputs, *config) is None,
        },
{
    let id = v.identity;
    let max = config.max_infrastructure_concentration;
    let mut destake_memo: Option<String> = None;
    let mut warning_memo: Option<String> = None;
    match concentration_above_ceiling(&inputs.concentration, &id, max) {
        Some(c) => match config.infrastructure_concentration_affects.memo(&id, c, config) {
            InfrastructureConcentrationAffectKind::Destake(m) => {
                destake_memo = Some(m);
            },
            InfrastructureConcentrationAffectKind::Warn(m) => {
                warning_memo = Some(m);
            },
        },
        None => {},
    }
    let current = inputs.current_slot;
    let grace_floor = if current > config.delinquent_grace_slot_distance {
        current - config.delinquent_grace_slot_distance
    } else {
        0
    };
    let hold_floor = if current > config.delinquent_hold_slot_distance {
        current - config.delinquent_hold_slot_distance
    } else {
        0
    };
    let outcome: Option<(ValidatorStakeState, String)> = if let Some(m) = destake_memo {
        Some((ValidatorStakeState::NoStake, m))
    } else if v.commission > config.max_commission {
        let mut m = identity_memo("⛔ `", &id, "` ");
        append_decimal(&mut m, v.commission as u64);
        m.append("% commission is too high");
        Some((ValidatorStakeState::NoStake, m))
    } else if !inputs.too_many_old_releases && contains_identity(&inputs.old_release, &id) {
        Some(
            (
                ValidatorStakeState::NoStake,
                identity_memo("🧮 `", &id, "` is running an old software release"),
            ),
        )
    } else if v.root_slot < grace_floor {
        Some((ValidatorStakeState::NoStake, identity_memo("🏖️ `", &id, "` is delinquent")))
    } else if v.root_slot < hold_floor {
        None
    } else if contains_identity(&inputs.quality, &id) {
        let mut m = identity_memo("🏅 `", &id, "` was a quality block producer during epoch ");
        append_decimal(&mut m, inputs.epoch);
        Some((ValidatorStakeState::Bonus, m))
    } else if contains_identity(&inputs.poor, &id) {
        if inputs.too_many_poor {
            None
        } else {
            let mut m = identity_memo("💔 `", &id, "` was a poor block producer during epoch ");
            append_decimal(&mut m, inputs.epoch);
            Some((ValidatorStakeState::Baseline, m))
        }
    } else {
        Some((ValidatorStakeState::Baseline, identity_memo("🥩 `", &id, "` is current")))
    };
    let stake = match outcome {
        Some((stake_state, memo)) => Some(ValidatorStake { identity: id, stake_state, memo }),
        None => None,
    };
    (stake, warning_memo)
}

/// The desired stake of every enrolled validator that gets a decision, in the
/// order of `infos`; concentration warnings are appended to `notifications`.
pub fn desired_validator_stake(
    infos: &Vec<VoteAccountInfo>,
    backend: &AllocationBackend,
    inputs: &DecisionInputs,
    config: &Config,
    notifications: &mut Vec<String>,
) -> (r: Vec<ValidatorStake>)
    ensures
        r@.map_values(|s: ValidatorStake| s@) == desired_of(infos@, *backend, *inputs, *config),
        final(notifications)@.map_values(|s: String| s@) == old(notifications)@.map_values(
            |s: String| s@,
        ) + warnings_of(infos@, *backend, *inputs, *config),
{
    let ghost n0 = notifications@.map_values(|s: String| s@);
    let mut desired: Vec<ValidatorStake> = Vec::new();
    let mut i: usize = 0;
    proof {
        assert(infos@.take(0) =~= Seq::<VoteAccountInfo>::empty());
        assert(n0 + Seq::<Seq<char>>::empty() =~= n0);
    }
    while i < infos.len()
        invariant
            0 <= i <= infos@.len(),
            n0 == old(notifications)@.map_values(|s: String| s@),
            desired@.map_values(|s: ValidatorStake| s@) == desired_of(
                infos@.take(i as int),
                *backend,
                *inputs,
                *config,
            ),
            notifications@.map_values(|s: String| s@) == n0 + warnings_of(
                infos@.take(i as int),
                *backend,
                *inputs,
                *config,
            ),
        decreases infos@.len() - i,
    {
        proof {
            assert(infos@.take(i + 1).drop_last() =~= infos@.take(i as int));
        }
        let v = &infos[i];
        if backend.is_enrolled(&v.identity) {
            let (stake, warn) = decide_validator(v, inputs, config);
            let ghost d0 = desired@;
            let ghost w0 = notifications@;
            if let Some(s) = stake {
                desired.push(s);
                proof {
                    assert(desired@.map_values(|s: ValidatorStake| s@) =~= d0.map_values(
                        |s: ValidatorStake| s@,
                    ).push(decision(*v, *inputs, *config)->Some_0));
                }
            }
            if let Some(w) = warn {
                notifications.push(w);
                proof {
                    assert(notifications@.map_values(|s: String| s@) =~= w0.map_values(
                        |s: String| s@,
                    ).push(warning(*v, *inputs, *config)->Some_0));
                    assert(n0 + warnings_of(infos@.take(i + 1), *backend, *inputs, *config) =~= (n0
                        + warnings_of(infos@.take(i as int), *backend, *inputs, *config)).push(
                        warning(*v, *inputs, *config)->Some_0,
                    ));
                }
            }
        }
        i = i + 1;
    }
    proof {
        assert(infos@.take(infos@.len() as int) =~= infos@);
    }
    desired
}

/// Commission above the ceiling always removes the stake, whatever the
/// classification says of the validator.
pub proof fn lemma_commission_dominates_quality(
    v: VoteAccountInfo,
    inputs: DecisionInputs,
    config: Config,
)
    requires
        v.commission > config.max_commission,
    ensures
        decision(v, inputs, config) is Some,
        decision(v, inputs, config)->Some_0.1 == ValidatorStakeState::NoStake,
{
}


/// The vote account chosen for `id` when the accounts are read in order: the
/// first seen, replaced by any later one that voted more recently.
pub open spec fn latest_vote(infos: Seq<VoteAccountInfo>, id: Seq<u8>) -> Option<VoteAccountInfo>
    decreases infos.len(),
{
    if infos.len() == 0 {
        None
    } else {
        let prev = latest_vote(infos.drop_last(), id);
        let v = infos.last();
        if v.identity@ == id && (prev is None || prev->Some_0.last_vote < v.last_vote) {
            Some(v)
        } else {
            prev
        }
    }
}

/// Index of the chosen vote account of `id`, if there is one.
fn position_of_vote(chosen: &Vec<VoteAccountInfo>, id: &Identity) -> (r: Option<usize>)
    ensures
        match r {
            Some(i) => i < chosen@.len() && chosen@[i as int].identity@ == id@,
            None => forall|a: int| 0 <= a < chosen@.len() ==> (#[trigger] chosen@[a]).identity@ != id@,
        },
{
    let mut i: usize = 0;
    while i < chosen.len()
        invariant
            0 <= i <= chosen@.len(),
            forall|a: int| 0 <= a < i ==> (#[trigger] chosen@[a]).identity@ != id@,
        decreases chosen@.len() - i,
    {
        if chosen[i].identity.same(id) {
            return Some(i);
        }
        i = i + 1;
    }
    None
}

/// One vote account per validator: where a validator has several, the one that
/// voted most recently (the first of them on a tie). Validators keep the order
/// in which they first appear.
pub fn latest_vote_accounts(infos: &Vec<VoteAccountInfo>) -> (r: Vec<VoteAccountInfo>)
    ensures
        forall|a: int, b: int|
            #![trigger r@[a], r@[b]]
            0 <= a < r@.len() && 0 <= b < r@.len() && a != b ==> r@[a].identity@ != r@[b].identity@,
        forall|i: int|
            0 <= i < r@.len() ==> latest_vote(infos@, (#[trigger] r@[i]).identity@) == Some(r@[i]),
        forall|id: Seq<u8>|
            (exists|i: int| 0 <= i < r@.len() && (#[trigger] r@[i]).identity@ == id) <==> latest_vote(
                infos@,
                id,
            ) is Some,
{
    let mut chosen: Vec<VoteAccountInfo> = Vec::new();
    let mut k: usize = 0;
    proof {
        assert(infos@.take(0) =~= Seq::<VoteAccountInfo>::empty());
    }
    while k < infos.len()
        invariant
            0 <= k <= infos@.len(),
            forall|a: int, b: int|
                #![trigger chosen@[a], chosen@[b]]
                0 <= a < chosen@.len() && 0 <= b < chosen@.len() && a != b ==> chosen@[a].identity@
                    != chosen@[b].identity@,
            forall|i: int|
                0 <= i < chosen@.len() ==> latest_vote(
                    infos@.take(k as int),
                    (#[trigger] chosen@[i]).identity@,
                ) == Some(chosen@[i]),
            forall|id: Seq<u8>|
                (exists|i: int| 0 <= i < chosen@.len() && (#[trigger] chosen@[i]).identity@ == id)
                    <==> latest_vote(infos@.take(k as int), id) is Some,
        decreases infos@.len() - k,
    {
        let ghost s0 = infos@.take(k as int);
        let ghost s1 = infos@.take(k + 1);
        let ghost c0 = chosen@;
        proof {
            assert(s1.drop_last() =~= s0);
        }
        let v = infos[k];
        proof {
            assert(s1.last() == v);
            assert forall|id: Seq<u8>| id != v.identity@ implies latest_vote(s1, id) == latest_vote(
                s0,
                id,
            ) by {}
        }
        match position_of_vote(&chosen, &v.identity) {
            Some(p) => {
                proof {
                    assert(latest_vote(s0, v.identity@) == Some(c0[p as int]));
                }
                if chosen[p].last_vote < v.last_vote {
                    chosen.set(p, v);
                }
                proof {
                    assert forall|i: int|
                        0 <= i < chosen@.len() implies latest_vote(
                        s1,
                        (#[trigger] chosen@[i]).identity@,
                    ) == Some(chosen@[i]) by {
                        if i != p {
                            assert(chosen@[i] == c0[i]);
                            assert(c0[i].identity@ != c0[p as int].identity@);
                        }
                    }
                    assert forall|id: Seq<u8>|
                        (exists|i: int| 0 <= i < chosen@.len() && (#[trigger] chosen@[i]).identity@ == id)
                            <==> latest_vote(s1, id) is Some by {
                        if exists|i: int|
                            0 <= i < chosen@.len() && (#[trigger] chosen@[i]).identity@ == id {
                            let i = choose|i: int|
                                0 <= i < chosen@.len() && (#[trigger] chosen@[i]).identity@ == id;
                            if i != p {
                                assert(chosen@[i] == c0[i]);
                            }
                        }
                        if latest_vote(s1, id) is Some {
                            if id == v.identity@ {
                                assert(chosen@[p as int].identity@ == id);
                            } else {
                                let i = choose|i: int|
                                    0 <= i < c0.len() && (#[trigger] c0[i]).identity@ == id;
                                assert(chosen@[i].identity@ == id) by {
                                    if i != p {
                                        assert(chosen@[i] == c0[i]);
                                    }
                                }
                            }
                        }
                    }
                }
            },
            None => {
                proof {
                    assert(latest_vote(s0, v.identity@) is None);
                }
                chosen.push(v);
                proof {
                    assert forall|i: int|
                        0 <= i < chosen@.len() implies latest_vote(
                        s1,
                        (#[trigger] chosen@[i]).identity@,
                    ) == Some(chosen@[i]) by {
                        if i < c0.len() {
                            assert(chosen@[i] == c0[i]);
                        }
                    }
                    assert forall|id: Seq<u8>|
                        (exists|i: int| 0 <= i < chosen@.len() && (#[trigger] chosen@[i]).identity@ == id)
                            <==> latest_vote(s1, id) is Some by {
                        if exists|i: int|
                            0 <= i < chosen@.len() && (#[trigger] chosen@[i]).identity@ == id {
                            let i = choose|i: int|
                                0 <= i < chosen@.len() && (#[trigger] chosen@[i]).identity@ == id;
                            if i < c0.len() {
                                assert(chosen@[i] == c0[i]);
                            }
                        }
                        if latest_vote(s1, id) is Some {
                            if id == v.identity@ {
                                assert(chosen@[c0.len() as int].identity@ == id);
                            } else {
                                let i = choose|i: int|
                                    0 <= i < c0.len() && (#[trigger] c0[i]).identity@ == id;
                                assert(chosen@[i] == c0[i]);
                            }
                        }
                    }
                    assert forall|a: int, b: int|
                        #![trigger chosen@[a], chosen@[b]]
                        0 <= a < chosen@.len() && 0 <= b < chosen@.len() && a != b implies chosen@[a].identity@
                        != chosen@[b].identity@ by {
                        if a < c0.len() && b < c0.len() {
                            assert(chosen@[a] == c0[a] && chosen@[b] == c0[b]);
                        } else if a < c0.len() {
                            assert(chosen@[a] == c0[a]);
                        } else if b < c0.len() {
                            assert(chosen@[b] == c0[b]);
                        }
                    }
                }
            },
        }
        k = k + 1;
    }
    proof {
        assert(infos@.take(infos@.len() as int) =~= infos@);
    }
    chosen
}


pub open spec fn skip_rate_notice(rate: nat, threshold: nat) -> Seq<char> {
    "Cluster average skip rate: "@ + decimal(rate) + " is above threshold: "@ + decimal(threshold)
}

pub open spec fn too_many_poor_notice(max: nat, epoch: nat) -> Seq<char> {
    "Over "@ + decimal(max) + "% of validators classified as poor block producers in epoch "@
        + decimal(epoch)
}

pub open spec fn too_many_old_notice(max: nat) -> Seq<char> {
    "Over "@ + decimal(max) + "% of validators classified as running an older release"@
}

/// The operator notices of a run, in order: a high cluster skip rate, too
/// many poor producers, too many validators on an old release.
pub open spec fn run_notices(
    cluster_rate: nat,
    too_many_poor: bool,
    too_many_old: bool,
    epoch: nat,
    config: Config,
) -> Seq<Seq<char>> {
    (if cluster_rate > config.bad_cluster_average_skip_rate {
        seq![skip_rate_notice(cluster_rate, config.bad_cluster_average_skip_rate as nat)]
    } else {
        Seq::empty()
    }) + (if too_many_poor {
        seq![too_many_poor_notice(config.max_poor_block_producer_percentage as nat, epoch)]
    } else {
        Seq::empty()
    }) + (if too_many_old {
        seq![too_many_old_notice(config.max_old_release_version_percentage as nat)]
    } else {
        Seq::empty()
    })
}

pub fn run_notifications(
    cluster_average_skip_rate: usize,
    too_many_poor: bool,
    too_many_old: bool,
    epoch: u64,
    config: &Config,
) -> (r: Vec<String>)
    ensures
        r@.map_values(|s: String| s@) == run_notices(
            cluster_average_skip_rate as nat,
            too_many_poor,
            too_many_old,
            epoch as nat,
            *config,
        ),
{
    let mut notices: Vec<String> = Vec::new();
    let ghost mut expected: Seq<Seq<char>> = Seq::empty();
    if cluster_average_skip_rate > config.bad_cluster_average_skip_rate {
        let mut m = String::from_str("Cluster average skip rate: ");
        append_decimal(&mut m, cluster_average_skip_rate as u64);
        m.append(" is above threshold: ");
        append_decimal(&mut m, config.bad_cluster_average_skip_rate as u64);
        notices.push(m);
        proof {
            expected = seq![
                skip_rate_notice(
                    cluster_average_skip_rate as nat,
                    config.bad_cluster_average_skip_rate as nat,
                ),
            ];
        }
    }
    proof {
        assert(notices@.map_values(|s: String| s@) =~= expected);
    }
    if too_many_poor {
        let ghost n0 = notices@;
        let mut m = String::from_str("Over ");
        append_decimal(&mut m, config.max_poor_block_producer_percentage as u64);
        m.append("% of validators classified as poor block producers in epoch ");
        append_decimal(&mut m, epoch);
        notices.push(m);
        proof {
            expected = expected.push(
                too_many_poor_notice(config.max_poor_block_producer_percentage as nat, epoch as nat),
            );
            assert(notices@.map_values(|s: String| s@) =~= n0.map_values(|s: String| s@).push(
                m@,
            ));
        }
    }
    if too_many_old {
        let ghost n0 = notices@;
        let mut m = String::from_str("Over ");
        append_decimal(&mut m, config.max_old_release_version_percentage as u64);
        m.append("% of validators classified as running an older release");
        notices.push(m);
        proof {
            expected = expected.push(
                too_many_old_notice(config.max_old_release_version_percentage as nat),
            );
            assert(notices@.map_values(|s: String| s@) =~= n0.map_values(|s: String| s@).push(
                m@,
            ));
        }
    }
    proof {
        assert(expected =~= run_notices(
            cluster_average_skip_rate as nat,
            too_many_poor,
            too_many_old,
            epoch as nat,
            *config,
        ));
    }
    notices
}

} // verus!
