//! The invariant of the observer.

use vstd::prelude::*;

use crate::blocks::well_filed;
use crate::laws::observer::blocks_stay_well_filed;
use crate::laws::rounds::{
    attempts_bounded, attempts_stay_bounded, no_proof_is_collected_twice, proofs_in_order,
};
use crate::protocol::ObserverInput;
use crate::transition::ObserverView;

verus! {

/// What holds of an observer at all times: its blocks are filed under their own
/// hashes, it tries no block too often, and it collects no proof twice.
pub open spec fn is_valid(state: ObserverView) -> bool {
    &&& well_filed(state.blocks)
    &&& attempts_bounded(state.phase)
    &&& proofs_in_order(state.phase)
}

/// Every step keeps the invariant.
pub proof fn every_step_keeps_the_observer_valid(state: ObserverView, input: ObserverInput)
    requires
        is_valid(state),
        state.accepts(input),
    ensures
        is_valid(state.step(input).state),
{
    blocks_stay_well_filed(state, input);
    attempts_stay_bounded(state, input);
    no_proof_is_collected_twice(state, input);
}

} // verus!
