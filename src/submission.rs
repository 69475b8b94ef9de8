//! Decisions of the submission pipeline: retries, batch outcome, funds.

use vstd::prelude::*;

verus! {

/// How one submission attempt of an operation ended.
#[derive(Clone, Copy, Debug, PartialEq, Eq, Structural)]
pub enum AttemptOutcome {
    /// The ledger confirmed the operation.
    Confirmed,
    /// A transient error (stale blockhash, timeout): the operation may be retried.
    Transient,
    /// The ledger rejected the operation.
    Rejected,
}

/// What the pipeline does next with an operation.
#[derive(Clone, Copy, Debug, PartialEq, Eq, Structural)]
pub enum NextStep {
    Done,
    Retry,
    Failed,
}

/// Bounded retries of transient failures.
#[derive(Clone, Copy, Debug)]
pub struct RetryPolicy {
    /// Attempts allowed per operation, the first included.
    pub max_attempts: u32,
}

/// The step after an attempt, the `attempts`-th made for the operation.
pub fn next_step(policy: &RetryPolicy, attempts: u32, outcome: AttemptOutcome) -> (r: NextStep)
    ensures
        outcome == AttemptOutcome::Confirmed ==> r == NextStep::Done,
        outcome == AttemptOutcome::Rejected ==> r == NextStep::Failed,
        outcome == AttemptOutcome::Transient ==> (r == NextStep::Retry <==> attempts
            < policy.max_attempts),
        outcome == AttemptOutcome::Transient ==> (r == NextStep::Failed <==> attempts
            >= policy.max_attempts),
{
    match outcome {
        AttemptOutcome::Confirmed => NextStep::Done,
        AttemptOutcome::Rejected => NextStep::Failed,
        AttemptOutcome::Transient => if attempts < policy.max_attempts {
            NextStep::Retry
        } else {
            NextStep::Failed
        },
    }
}

/// A batch succeeds when every operation of it was confirmed.
pub fn batch_succeeded(confirmed: &Vec<bool>) -> (r: bool)
    ensures
        r == forall|i: int| 0 <= i < confirmed@.len() ==> #[trigger] confirmed@[i],
{
    let mut i: usize = 0;
    while i < confirmed.len()
        invariant
            0 <= i <= confirmed@.len(),
            forall|j: int| 0 <= j < i ==> #[trigger] confirmed@[j],
        decreases confirmed@.len() - i,
    {
        if !confirmed[i] {
            return false;
        }
        i = i + 1;
    }
    true
}

/// The fee payer can cover the fee plus any additional funds the operation
/// moves; checked before anything is submitted.
pub fn has_sufficient_funds(balance: u64, fee: u64, additional_funds_required: Option<u64>) -> (r:
    bool)
    ensures
        r == (balance as int >= fee as int + match additional_funds_required {
            Some(a) => a as int,
            None => 0int,
        }),
{
    let extra: u64 = match additional_funds_required {
        Some(a) => a,
        None => 0,
    };
    balance as u128 >= fee as u128 + extra as u128
}

} // verus!
