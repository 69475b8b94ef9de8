use stake_o_matic::identity::Identity;
use stake_o_matic::registry::{
    participant_by_identity, participants_with_identity, participants_with_state, Participant,
    ParticipantState, RegistryError,
};
use stake_o_matic::submission::{batch_succeeded, has_sufficient_funds, next_step, AttemptOutcome, NextStep, RetryPolicy};

fn key(n: u8) -> Identity {
    Identity::new([n; 32])
}

fn registration(state: ParticipantState, mainnet: u8, testnet: u8) -> Participant {
    Participant { state, testnet_identity: key(testnet), mainnet_identity: key(mainnet) }
}

#[test]
fn retry_policy_steps() {
    let policy = RetryPolicy { max_attempts: 3 };
    assert_eq!(next_step(&policy, 1, AttemptOutcome::Confirmed), NextStep::Done);
    assert_eq!(next_step(&policy, 1, AttemptOutcome::Rejected), NextStep::Failed);
    assert_eq!(next_step(&policy, 2, AttemptOutcome::Transient), NextStep::Retry);
    assert_eq!(next_step(&policy, 3, AttemptOutcome::Transient), NextStep::Failed);
}

#[test]
fn batch_success_needs_every_operation() {
    assert!(batch_succeeded(&vec![]));
    assert!(batch_succeeded(&vec![true, true]));
    assert!(!batch_succeeded(&vec![true, false, true]));
}

#[test]
fn funds_cover_fee_and_transfer() {
    assert!(has_sufficient_funds(10, 5, Some(5)));
    assert!(!has_sufficient_funds(10, 5, Some(6)));
    assert!(has_sufficient_funds(5, 5, None));
    assert!(!has_sufficient_funds(u64::MAX, u64::MAX, Some(1)));
}

#[test]
fn registry_lookups() {
    let participants = vec![
        (key(100), registration(ParticipantState::Pending, 1, 2)),
        (key(101), registration(ParticipantState::Approved, 3, 4)),
        (key(102), registration(ParticipantState::Rejected, 5, 1)),
    ];
    let found = participants_with_identity(&participants, &vec![key(4), key(5)]);
    assert_eq!(found.iter().map(|p| p.0).collect::<Vec<_>>(), vec![key(101), key(102)]);
    assert_eq!(participant_by_identity(&participants, &key(1)), Err(RegistryError::MultipleMatches));
    assert_eq!(participant_by_identity(&participants, &key(3)).unwrap().unwrap().0, key(101));
    assert!(participant_by_identity(&participants, &key(9)).unwrap().is_none());
    let approved = participants_with_state(&participants, Some(ParticipantState::Approved));
    assert_eq!(approved.len(), 1);
    assert_eq!(approved[0].0, key(101));
    assert_eq!(participants_with_state(&participants, None).len(), 3);
}
