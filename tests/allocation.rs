use stake_o_matic::allocation::{
    observed_stake, AllocationBackend, AllocationOp, OpKind, PerValidatorAllocation, PooledAllocation,
    ValidatorAddressPair, ValidatorStake, ValidatorStakeState,
};
use stake_o_matic::identity::Identity;

fn key(n: u8) -> Identity {
    Identity::new([n; 32])
}

fn stake(n: u8, state: ValidatorStakeState, memo: &str) -> ValidatorStake {
    ValidatorStake { identity: key(n), stake_state: state, memo: memo.to_string() }
}

fn per_validator() -> AllocationBackend {
    AllocationBackend::PerValidator(PerValidatorAllocation {
        baseline_stake_amount: 5_000,
        bonus_stake_amount: 50_000,
        validator_list: vec![key(1), key(2), key(3)],
    })
}

fn summary(plan: &[AllocationOp]) -> Vec<(Identity, OpKind, u64, String)> {
    plan.iter().map(|o| (o.identity, o.kind, o.amount, o.memo.clone())).collect()
}

#[test]
fn per_validator_enrollment() {
    let backend = per_validator();
    assert!(backend.is_enrolled(&key(2)));
    assert!(!backend.is_enrolled(&key(9)));
    let pool = AllocationBackend::Pooled(PooledAllocation { baseline_stake_amount: 1 });
    assert!(pool.is_enrolled(&key(9)));
}

#[test]
fn apply_moves_each_validator_to_its_target() {
    let backend = per_validator();
    let observed = vec![(key(1), 0), (key(2), 55_000), (key(3), 60_000)];
    let desired = vec![
        stake(1, ValidatorStakeState::Baseline, "one"),
        stake(2, ValidatorStakeState::NoStake, "two"),
        stake(3, ValidatorStakeState::Bonus, "three"),
    ];
    let plan = backend.apply(&observed, 0, &desired);
    assert_eq!(
        summary(&plan),
        vec![
            (key(1), OpKind::Fund, 5_000, "one".to_string()),
            (key(2), OpKind::Deactivate, 55_000, "two".to_string()),
            (key(3), OpKind::Reduce, 5_000, "three".to_string()),
        ]
    );
}

#[test]
fn apply_twice_is_a_no_op() {
    let backend = per_validator();
    let desired = vec![
        stake(1, ValidatorStakeState::Baseline, "one"),
        stake(2, ValidatorStakeState::NoStake, "two"),
        stake(3, ValidatorStakeState::Bonus, "three"),
    ];
    let first = backend.apply(&vec![], 0, &desired);
    assert_eq!(first.len(), 2);
    // the ledger after the first plan was carried out
    let observed: Vec<(Identity, u64)> = vec![(key(1), 5_000), (key(3), 55_000)];
    assert!(backend.apply(&observed, 0, &desired).is_empty());
}

#[test]
fn pooled_bonus_shares_the_spare_stake() {
    let backend = AllocationBackend::Pooled(PooledAllocation { baseline_stake_amount: 100 });
    let desired = vec![
        stake(1, ValidatorStakeState::Bonus, "a"),
        stake(2, ValidatorStakeState::Baseline, "b"),
        stake(3, ValidatorStakeState::Bonus, "c"),
        stake(4, ValidatorStakeState::NoStake, "d"),
    ];
    // 1_000 in the pool, 300 for baselines, 700 shared by two bonus validators
    assert_eq!(backend.bonus_amount(1_000, &desired), 350);
    assert_eq!(backend.bonus_amount(200, &desired), 0);
    let plan = backend.apply(&vec![], 1_000, &desired);
    assert_eq!(
        summary(&plan),
        vec![
            (key(1), OpKind::Fund, 450, "a".to_string()),
            (key(2), OpKind::Fund, 100, "b".to_string()),
            (key(3), OpKind::Fund, 450, "c".to_string()),
        ]
    );
    let observed = vec![(key(1), 450), (key(2), 100), (key(3), 450)];
    assert!(backend.apply(&observed, 1_000, &desired).is_empty());
}

#[test]
fn init_creates_missing_records_once() {
    let backend = per_validator();
    let validators = vec![
        ValidatorAddressPair { identity: key(1), vote_address: key(11) },
        ValidatorAddressPair { identity: key(2), vote_address: key(12) },
        ValidatorAddressPair { identity: key(9), vote_address: key(19) },
    ];
    let plan = backend.init(&validators, &vec![key(2)]);
    assert_eq!(summary(&plan), vec![(key(1), OpKind::Create, 0, String::new())]);
    assert!(backend.init(&validators, &vec![key(1), key(2)]).is_empty());
}

#[test]
fn observed_stake_takes_the_last_entry() {
    let observed = vec![(key(1), 10), (key(2), 20), (key(1), 30)];
    assert_eq!(observed_stake(&observed, &key(1)), 30);
    assert_eq!(observed_stake(&observed, &key(2)), 20);
    assert_eq!(observed_stake(&observed, &key(3)), 0);
}
