//! Runs of the observer: a chain event and all the answers that its handling
//! takes.

use vstd::prelude::*;

use crate::commands::ObserverCommand;
use crate::protocol::{
    ChainhookOccurrence, ObserverActionView, ObserverInput, OccurrencePayload,
};
use crate::transition::{ObserverView, Step};
use crate::triggers::TriggerChainhook;

verus! {

/// Where one more input leads, with all the actions up to there.
#[verifier::opaque]
pub open spec fn next(at: Step, input: ObserverInput) -> Step {
    at.state.step(input).after(at.actions)
}

/// Where several inputs lead, one after the other, with all the actions on the
/// way.
pub open spec fn run(state: ObserverView, inputs: Seq<ObserverInput>) -> Step
    decreases inputs.len(),
{
    if inputs.len() == 0 {
        state.quietly()
    } else {
        next(run(state, inputs.drop_last()), inputs.last())
    }
}

/// The input at `i` answers what the observer then waits for.
pub open spec fn accepted_at(state: ObserverView, inputs: Seq<ObserverInput>, i: int) -> bool {
    run(state, inputs.take(i)).state.accepts(inputs[i])
}

/// The uuid of the predicate that an occurrence belongs to.
pub open spec fn payload_uuid(payload: OccurrencePayload) -> Seq<char> {
    match payload {
        OccurrencePayload::Bitcoin(payload) => payload.chainhook.uuid@,
        OccurrencePayload::Stacks(payload) => payload.chainhook.uuid@,
    }
}

/// The trigger that the last of some actions asks to be handled, if it does.
pub open spec fn asked_trigger(actions: Seq<ObserverActionView>) -> Option<TriggerChainhook> {
    if actions.len() == 0 {
        None
    } else {
        match actions.last() {
            ObserverActionView::HandleBitcoinTrigger(trigger, _) => Some(trigger),
            ObserverActionView::HandleStacksTrigger(trigger) => Some(trigger),
            _ => None,
        }
    }
}

/// Whether an input is true to the action that it answers: an occurrence is of
/// the predicate whose trigger was to be handled.
pub open spec fn is_faithful(before: Step, input: ObserverInput) -> bool {
    match input {
        ObserverInput::TriggerHandled(Some(ChainhookOccurrence::Http(_, payload))) => {
            asked_trigger(before.actions) matches Some(trigger) ==> payload_uuid(payload)
                == trigger.chainhook.uuid@
        },
        ObserverInput::TriggerHandled(Some(ChainhookOccurrence::Data(payload))) => {
            asked_trigger(before.actions) matches Some(trigger) ==> payload_uuid(payload)
                == trigger.chainhook.uuid@
        },
        _ => true,
    }
}

/// The input at `i` is true to the action that it answers.
pub open spec fn faithful_at(state: ObserverView, inputs: Seq<ObserverInput>, i: int) -> bool {
    is_faithful(run(state, inputs.take(i)), inputs[i])
}

/// Whether an input is the command to propagate an event of a chain.
pub open spec fn propagates(input: ObserverInput, bitcoin: bool) -> bool {
    if bitcoin {
        input matches ObserverInput::Command(ObserverCommand::PropagateBitcoinChainEvent(_))
    } else {
        input matches ObserverInput::Command(ObserverCommand::PropagateStacksChainEvent(_))
    }
}

/// Whether an input is an answer, and no command.
pub open spec fn is_answer(input: ObserverInput) -> bool {
    !(input is Command) && !(input is CommandsClosed)
}

/// Whether some inputs are the whole handling of a chain event: the command to
/// propagate it, and answers until the observer is idle, each true to the action
/// that it answers.
pub open spec fn handles_event(
    state: ObserverView,
    bitcoin: bool,
    inputs: Seq<ObserverInput>,
) -> bool {
    &&& state.phase is Idle
    &&& inputs.len() > 0
    &&& propagates(inputs[0], bitcoin)
    &&& forall|i: int| 0 < i < inputs.len() ==> is_answer(#[trigger] inputs[i])
    &&& forall|i: int| 0 <= i < inputs.len() ==> #[trigger] accepted_at(state, inputs, i)
    &&& forall|i: int| 0 <= i < inputs.len() ==> #[trigger] faithful_at(state, inputs, i)
    &&& run(state, inputs).state.phase is Idle
}

/// A run goes on step by step.
pub(crate) proof fn run_goes_on(state: ObserverView, inputs: Seq<ObserverInput>, i: int)
    requires
        0 <= i < inputs.len(),
    ensures
        run(state, inputs.take(i + 1)) == next(run(state, inputs.take(i)), inputs[i]),
{
    assert(inputs.take(i + 1).drop_last() =~= inputs.take(i));
}

/// Actions before actions before a step.
pub(crate) proof fn after_twice(
    step: Step,
    first: Seq<ObserverActionView>,
    second: Seq<ObserverActionView>,
)
    ensures
        step.after(second).after(first) == step.after(first + second),
{
    assert(first + (second + step.actions) =~= (first + second) + step.actions);
}

} // verus!
