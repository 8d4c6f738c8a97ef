//! The outcomes of one artifact request: one per epoch, generator and output
//! kind, in that order, each available with how it was obtained or
//! unavailable with its failure, and which failures end the request instead.
use vstd::prelude::*;

use crate::generation::{CacheDisposition, FailurePolicy, disposition};

verus! {

/// What became of one output slot. Failures are named by an index into the
/// caller's list of errors.
#[derive(Clone, Copy, Debug, PartialEq, Eq, Structural)]
pub enum SlotState {
    /// The slot's generator could not be planned or prepared.
    Refused { error: usize },
    /// The artifact was found in the cache.
    Hit,
    /// The artifact came back from generation work: `generated` when it was
    /// produced rather than found, `invalidated` when it replaced an
    /// invalidated cache entry.
    Computed { generated: bool, invalidated: bool, grace_overridden: bool },
    /// Generation work failed; `fatal` when it was cancelled or ran out of time.
    Failed { error: usize, fatal: bool },
}

/// The reported outcome of one slot.
#[derive(Clone, Copy, Debug, PartialEq, Eq, Structural)]
pub enum SlotOutcome {
    Available { disposition: CacheDisposition, grace_overridden: bool },
    Unavailable { error: usize },
}

pub open spec fn disposition_spec(generated: bool, invalidated: bool) -> CacheDisposition {
    if !generated {
        CacheDisposition::Hit
    } else if invalidated {
        CacheDisposition::RegeneratedAfterInvalidation
    } else {
        CacheDisposition::Generated
    }
}

/// The outcome reported for a slot that does not end the request.
pub open spec fn slot_outcome(s: SlotState) -> SlotOutcome {
    match s {
        SlotState::Refused { error } => SlotOutcome::Unavailable { error },
        SlotState::Hit => SlotOutcome::Available { disposition: CacheDisposition::Hit, grace_overridden: false },
        SlotState::Computed { generated, invalidated, grace_overridden } => SlotOutcome::Available {
            disposition: disposition_spec(generated, invalidated),
            grace_overridden,
        },
        SlotState::Failed { error, .. } => SlotOutcome::Unavailable { error },
    }
}

/// A refused generator ends a request that requires every output. Refusals are
/// found while planning, before any generation work.
pub open spec fn refusal_ends(s: SlotState, policy: FailurePolicy) -> bool {
    s is Refused && policy == FailurePolicy::RequireAll
}

/// Failed generation work ends the request when it was fatal or the request
/// requires every output.
pub open spec fn failure_ends(s: SlotState, policy: FailurePolicy) -> bool {
    match s {
        SlotState::Failed { fatal, .. } => fatal || policy == FailurePolicy::RequireAll,
        _ => false,
    }
}

pub open spec fn slot_error(s: SlotState) -> usize {
    match s {
        SlotState::Refused { error } => error,
        SlotState::Failed { error, .. } => error,
        _ => 0,
    }
}

/// `e` is the error of the first refusal of `states` that ends the request.
pub open spec fn first_refusal_error(states: Seq<SlotState>, policy: FailurePolicy, e: usize) -> bool {
    exists|i: int|
        0 <= i < states.len() && #[trigger] refusal_ends(states[i], policy) && slot_error(states[i]) == e
            && forall|j: int| 0 <= j < i ==> !refusal_ends(#[trigger] states[j], policy)
}

/// `e` is the error of the first failure of `states` that ends the request.
pub open spec fn first_failure_error(states: Seq<SlotState>, policy: FailurePolicy, e: usize) -> bool {
    exists|i: int|
        0 <= i < states.len() && #[trigger] failure_ends(states[i], policy) && slot_error(states[i]) == e
            && forall|j: int| 0 <= j < i ==> !failure_ends(#[trigger] states[j], policy)
}

/// Whether an available outcome was produced past its grace period.
pub open spec fn any_grace_overridden(states: Seq<SlotState>) -> bool {
    exists|i: int| 0 <= i < states.len() && #[trigger] states[i] matches SlotState::Computed { grace_overridden: true, .. }
}

/// The outcomes of every slot, in slot order, and whether any available one
/// overrode its grace period; or the error that ends the request: the first
/// refusal when every output is required, else the first failure that is fatal
/// or, when every output is required, any failure.
pub fn finish_outcomes(policy: FailurePolicy, states: &Vec<SlotState>) -> (r: Result<(Vec<SlotOutcome>, bool), usize>)
    ensures
        r is Err <==> exists|i: int| 0 <= i < states.len()
            && (refusal_ends(#[trigger] states@[i], policy) || failure_ends(states@[i], policy)),
        match r {
            Ok((outcomes, grace)) => outcomes@ == states@.map_values(|s: SlotState| slot_outcome(s))
                && grace == any_grace_overridden(states@),
            Err(e) => if exists|i: int| 0 <= i < states.len() && #[trigger] refusal_ends(states@[i], policy) {
                first_refusal_error(states@, policy, e)
            } else {
                first_failure_error(states@, policy, e)
            },
        },
{
    let n = states.len();
    let require_all = match policy {
        FailurePolicy::RequireAll => true,
        FailurePolicy::AllowPartial => false,
    };
    let mut i: usize = 0;
    while i < n
        invariant
            n == states.len(),
            i <= n,
            require_all == (policy == FailurePolicy::RequireAll),
            forall|j: int| 0 <= j < i ==> !refusal_ends(#[trigger] states@[j], policy),
        decreases n - i,
    {
        match states[i] {
            SlotState::Refused { error } => {
                if require_all {
                    assert(refusal_ends(states@[i as int], policy));
                    return Err(error);
                }
            },
            _ => {},
        }
        i = i + 1;
    }
    let mut k: usize = 0;
    while k < n
        invariant
            n == states.len(),
            k <= n,
            require_all == (policy == FailurePolicy::RequireAll),
            forall|j: int| 0 <= j < n ==> !refusal_ends(#[trigger] states@[j], policy),
            forall|j: int| 0 <= j < k ==> !failure_ends(#[trigger] states@[j], policy),
        decreases n - k,
    {
        match states[k] {
            SlotState::Failed { error, fatal } => {
                if fatal || require_all {
                    assert(failure_ends(states@[k as int], policy));
                    return Err(error);
                }
            },
            _ => {},
        }
        k = k + 1;
    }
    let mut outcomes: Vec<SlotOutcome> = Vec::new();
    let mut grace = false;
    let mut m: usize = 0;
    while m < n
        invariant
            n == states.len(),
            m <= n,
            forall|j: int| 0 <= j < n ==> !refusal_ends(#[trigger] states@[j], policy),
            forall|j: int| 0 <= j < n ==> !failure_ends(#[trigger] states@[j], policy),
            outcomes@ == states@.subrange(0, m as int).map_values(|s: SlotState| slot_outcome(s)),
            grace == exists|j: int| 0 <= j < m && #[trigger] states@[j] matches SlotState::Computed { grace_overridden: true, .. },
        decreases n - m,
    {
        let outcome = match states[m] {
            SlotState::Refused { error } => SlotOutcome::Unavailable { error },
            SlotState::Hit => SlotOutcome::Available { disposition: CacheDisposition::Hit, grace_overridden: false },
            SlotState::Computed { generated, invalidated, grace_overridden } => {
                if grace_overridden {
                    grace = true;
                }
                SlotOutcome::Available { disposition: disposition(generated, invalidated), grace_overridden }
            },
            SlotState::Failed { error, .. } => SlotOutcome::Unavailable { error },
        };
        outcomes.push(outcome);
        proof {
            assert(states@.subrange(0, m + 1).map_values(|s: SlotState| slot_outcome(s)) =~= states@.subrange(
                0,
                m as int,
            ).map_values(|s: SlotState| slot_outcome(s)).push(slot_outcome(states@[m as int])));
        }
        m = m + 1;
    }
    assert(states@.subrange(0, n as int) =~= states@);
    Ok((outcomes, grace))
}

} // verus!
