use solana_sdk::pubkey::Pubkey;
use stake_o_matic::allocation::{AllocationBackend, PerValidatorAllocation, PooledAllocation, ValidatorStakeState};
use stake_o_matic::config::Config;
use stake_o_matic::decision::{
    decide_validator, desired_validator_stake, latest_vote_accounts, run_notifications, DecisionInputs,
    VoteAccountInfo,
};
use stake_o_matic::identity::Identity;
use stake_o_matic::policy::InfrastructureConcentrationAffects;

fn info(key: &Pubkey, commission: u8, root_slot: u64) -> VoteAccountInfo {
    VoteAccountInfo {
        identity: Identity::new(key.to_bytes()),
        vote_address: Identity::new(Pubkey::new_unique().to_bytes()),
        commission,
        root_slot,
        last_vote: root_slot,
    }
}

fn inputs() -> DecisionInputs {
    DecisionInputs {
        quality: vec![],
        poor: vec![],
        too_many_poor: false,
        old_release: vec![],
        too_many_old_releases: false,
        concentration: vec![],
        current_slot: 100_000,
        epoch: 7,
    }
}

#[test]
fn commission_dominates_quality_bonus() {
    let key = Pubkey::new_unique();
    let config = Config { max_commission: 10, ..Config::default_for_test() };
    let mut facts = inputs();
    facts.quality.push(Identity::new(key.to_bytes()));
    let (stake, warning) = decide_validator(&info(&key, 11, 100_000), &facts, &config);
    let stake = stake.unwrap();
    assert_eq!(stake.stake_state, ValidatorStakeState::NoStake);
    assert_eq!(stake.memo, format!("⛔ `{}` 11% commission is too high", key));
    assert!(warning.is_none());
    let (stake, _) = decide_validator(&info(&key, 10, 100_000), &facts, &config);
    let stake = stake.unwrap();
    assert_eq!(stake.stake_state, ValidatorStakeState::Bonus);
    assert_eq!(stake.memo, format!("🏅 `{}` was a quality block producer during epoch 7", key));
}

#[test]
fn precedence_of_the_rules() {
    let key = Pubkey::new_unique();
    let id = Identity::new(key.to_bytes());
    let config = Config {
        max_infrastructure_concentration: 20,
        infrastructure_concentration_affects: InfrastructureConcentrationAffects::DestakeAll,
        ..Config::default_for_test()
    };
    let mut facts = inputs();
    facts.quality.push(id);
    facts.old_release.push(id);
    facts.concentration.push((id, 250));
    let (stake, _) = decide_validator(&info(&key, 0, 100_000), &facts, &config);
    let stake = stake.unwrap();
    assert_eq!(stake.stake_state, ValidatorStakeState::NoStake);
    assert!(stake.memo.starts_with("🏟️"));
    facts.concentration.clear();
    let (stake, _) = decide_validator(&info(&key, 0, 100_000), &facts, &config);
    assert_eq!(stake.unwrap().memo, format!("🧮 `{}` is running an old software release", key));
    facts.too_many_old_releases = true;
    let (stake, _) = decide_validator(&info(&key, 0, 1_000), &facts, &config);
    assert_eq!(stake.unwrap().memo, format!("🏖️ `{}` is delinquent", key));
    // behind by more than the hold distance but within the grace period
    let (stake, _) = decide_validator(&info(&key, 0, 99_000), &facts, &config);
    assert!(stake.is_none());
    let (stake, _) = decide_validator(&info(&key, 0, 99_800), &facts, &config);
    assert_eq!(stake.unwrap().stake_state, ValidatorStakeState::Bonus);
}

#[test]
fn poor_and_current_validators() {
    let key = Pubkey::new_unique();
    let id = Identity::new(key.to_bytes());
    let config = Config::default_for_test();
    let mut facts = inputs();
    let (stake, _) = decide_validator(&info(&key, 0, 100_000), &facts, &config);
    let stake = stake.unwrap();
    assert_eq!(stake.stake_state, ValidatorStakeState::Baseline);
    assert_eq!(stake.memo, format!("🥩 `{}` is current", key));
    facts.poor.push(id);
    let (stake, _) = decide_validator(&info(&key, 0, 100_000), &facts, &config);
    let stake = stake.unwrap();
    assert_eq!(stake.stake_state, ValidatorStakeState::Baseline);
    assert_eq!(stake.memo, format!("💔 `{}` was a poor block producer during epoch 7", key));
    facts.too_many_poor = true;
    let (stake, _) = decide_validator(&info(&key, 0, 100_000), &facts, &config);
    assert!(stake.is_none());
}

#[test]
fn warnings_are_collected_and_unenrolled_skipped() {
    let a = Pubkey::new_unique();
    let b = Pubkey::new_unique();
    let c = Pubkey::new_unique();
    let config = Config { max_infrastructure_concentration: 10, ..Config::default_for_test() };
    let mut facts = inputs();
    facts.concentration.push((Identity::new(a.to_bytes()), 150));
    facts.concentration.push((Identity::new(b.to_bytes()), 100));
    let backend = AllocationBackend::PerValidator(PerValidatorAllocation {
        baseline_stake_amount: 1,
        bonus_stake_amount: 2,
        validator_list: vec![Identity::new(a.to_bytes()), Identity::new(b.to_bytes())],
    });
    let infos = vec![info(&a, 0, 100_000), info(&b, 0, 100_000), info(&c, 0, 100_000)];
    let mut notifications = vec!["earlier".to_string()];
    let desired = desired_validator_stake(&infos, &backend, &facts, &config, &mut notifications);
    assert_eq!(desired.len(), 2);
    assert_eq!(desired[0].identity, Identity::new(a.to_bytes()));
    assert_eq!(desired[0].stake_state, ValidatorStakeState::Baseline);
    assert_eq!(notifications.len(), 2);
    assert_eq!(notifications[0], "earlier");
    assert_eq!(
        notifications[1],
        format!(
            "🗺  `{}` infrastructure concentration 15.0% is too high. Max concentration is 10%. No stake removed. Consider finding a new data center",
            a
        )
    );
    let pool = AllocationBackend::Pooled(PooledAllocation { baseline_stake_amount: 1 });
    let mut none = vec![];
    assert_eq!(desired_validator_stake(&infos, &pool, &facts, &config, &mut none).len(), 3);
}

#[test]
fn latest_vote_account_per_validator() {
    let a = Pubkey::new_unique();
    let b = Pubkey::new_unique();
    let mut first = info(&a, 0, 10);
    first.last_vote = 10;
    let mut second = info(&b, 0, 5);
    second.last_vote = 5;
    let mut third = info(&a, 3, 20);
    third.last_vote = 20;
    let mut fourth = info(&a, 4, 20);
    fourth.last_vote = 20;
    let chosen = latest_vote_accounts(&vec![first, second, third, fourth]);
    assert_eq!(chosen.len(), 2);
    assert_eq!(chosen[0].identity, Identity::new(a.to_bytes()));
    assert_eq!(chosen[0].commission, 3);
    assert_eq!(chosen[1].identity, Identity::new(b.to_bytes()));
}

#[test]
fn run_notification_texts() {
    let config = Config::default_for_test();
    assert!(run_notifications(50, false, false, 3, &config).is_empty());
    assert_eq!(
        run_notifications(51, true, true, 3, &config),
        vec![
            "Cluster average skip rate: 51 is above threshold: 50".to_string(),
            "Over 20% of validators classified as poor block producers in epoch 3".to_string(),
            "Over 10% of validators classified as running an older release".to_string(),
        ]
    );
}
