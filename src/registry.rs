//! Lookups over participant registrations.

use vstd::prelude::*;
use crate::identity::{Identity, contains_identity, listed};

verus! {

#[derive(Clone, Copy, Debug, PartialEq, Eq, Structural)]
pub enum ParticipantState {
    Pending,
    Rejected,
    Approved,
}

/// A registration: one validator's mainnet and testnet node keys.
#[derive(Clone, Copy, Debug, PartialEq, Eq)]
pub struct Participant {
    pub state: ParticipantState,
    pub testnet_identity: Identity,
    pub mainnet_identity: Identity,
}

#[derive(Clone, Copy, Debug, PartialEq, Eq, Structural)]
pub enum RegistryError {
    /// More than one registration names the identity.
    MultipleMatches,
}

pub open spec fn names(p: Participant, id: Seq<u8>) -> bool {
    p.testnet_identity@ == id || p.mainnet_identity@ == id
}

pub open spec fn names_any(p: Participant, ids: Seq<Identity>) -> bool {
    listed(ids, p.testnet_identity@) || listed(ids, p.mainnet_identity@)
}

/// The registrations, by address, that name one of `ids`, in order.
pub open spec fn with_identity(
    participants: Seq<(Identity, Participant)>,
    ids: Seq<Identity>,
) -> Seq<(Identity, Participant)>
    decreases participants.len(),
{
    if participants.len() == 0 {
        Seq::empty()
    } else {
        let rest = with_identity(participants.drop_last(), ids);
        if names_any(participants.last().1, ids) {
            rest.push(participants.last())
        } else {
            rest
        }
    }
}

/// The registrations that name `id`, in order.
pub open spec fn naming(participants: Seq<(Identity, Participant)>, id: Seq<u8>) -> Seq<
    (Identity, Participant),
>
    decreases participants.len(),
{
    if participants.len() == 0 {
        Seq::empty()
    } else {
        let rest = naming(participants.drop_last(), id);
        if names(participants.last().1, id) {
            rest.push(participants.last())
        } else {
            rest
        }
    }
}

/// The registrations in `state`, or all of them when `state` is `None`.
pub open spec fn in_state(
    participants: Seq<(Identity, Participant)>,
    state: Option<ParticipantState>,
) -> Seq<(Identity, Participant)>
    decreases participants.len(),
{
    if participants.len() == 0 {
        Seq::empty()
    } else {
        let rest = in_state(participants.drop_last(), state);
        if state is None || state == Some(participants.last().1.state) {
            rest.push(participants.last())
        } else {
            rest
        }
    }
}

/// Registrations that name one of `identities` as mainnet or testnet key.
pub fn participants_with_identity(
    participants: &Vec<(Identity, Participant)>,
    identities: &Vec<Identity>,
) -> (r: Vec<(Identity, Participant)>)
    ensures
        r@ == with_identity(participants@, identities@),
{
    let mut found: Vec<(Identity, Participant)> = Vec::new();
    let mut i: usize = 0;
    while i < participants.len()
        invariant
            0 <= i <= participants@.len(),
            found@ == with_identity(participants@.take(i as int), identities@),
        decreases participants@.len() - i,
    {
        proof {
            assert(participants@.take(i + 1).drop_last() =~= participants@.take(i as int));
        }
        let entry = participants[i];
        if contains_identity(identities, &entry.1.testnet_identity) || contains_identity(
            identities,
            &entry.1.mainnet_identity,
        ) {
            found.push(entry);
        }
        i = i + 1;
    }
    proof {
        assert(participants@.take(participants@.len() as int) =~= participants@);
    }
    found
}

/// The registration that names `identity`; an error when several do.
pub fn participant_by_identity(participants: &Vec<(Identity, Participant)>, identity: &Identity) -> (r:
    Result<Option<(Identity, Participant)>, RegistryError>)
    ensures
        match r {
            Err(e) => e == RegistryError::MultipleMatches && naming(participants@, identity@).len()
                > 1,
            Ok(None) => naming(participants@, identity@).len() == 0,
            Ok(Some(p)) => naming(participants@, identity@) == seq![p],
        },
{
    let mut found: Vec<(Identity, Participant)> = Vec::new();
    let mut i: usize = 0;
    while i < participants.len()
        invariant
            0 <= i <= participants@.len(),
            found@ == naming(participants@.take(i as int), identity@),
        decreases participants@.len() - i,
    {
        proof {
            assert(participants@.take(i + 1).drop_last() =~= participants@.take(i as int));
        }
        let entry = participants[i];
        if entry.1.testnet_identity.same(identity) || entry.1.mainnet_identity.same(identity) {
            found.push(entry);
        }
        i = i + 1;
    }
    proof {
        assert(participants@.take(participants@.len() as int) =~= participants@);
    }
    if found.len() > 1 {
        Err(RegistryError::MultipleMatches)
    } else if found.len() == 1 {
        let p = found[0];
        assert(found@ =~= seq![p]);
        Ok(Some(p))
    } else {
        Ok(None)
    }
}

/// Registrations in the given state, or all when `state` is `None`.
pub fn participants_with_state(
    participants: &Vec<(Identity, Participant)>,
    state: Option<ParticipantState>,
) -> (r: Vec<(Identity, Participant)>)
    ensures
        r@ == in_state(participants@, state),
{
    let mut found: Vec<(Identity, Participant)> = Vec::new();
    let mut i: usize = 0;
    while i < participants.len()
        invariant
            0 <= i <= participants@.len(),
            found@ == in_state(participants@.take(i as int), state),
        decreases participants@.len() - i,
    {
        proof {
            assert(participants@.take(i + 1).drop_last() =~= participants@.take(i as int));
        }
        let entry = participants[i];
        let keep = match state {
            None => true,
            Some(s) => s == entry.1.state,
        };
        if keep {
            found.push(entry);
        }
        i = i + 1;
    }
    proof {
        assert(participants@.take(participants@.len() as int) =~= participants@);
    }
    found
}

} // verus!
