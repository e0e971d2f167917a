//! Laws on the observer as a whole: what every step keeps, and what several steps
//! lead to.

use vstd::prelude::*;

use crate::blocks::{
    all_filed, cache_after_resolution, gained_headers, resolution, well_filed,
    BitcoinBlockDataCached, PendingChainEventView,
};
use crate::chain::EventView;
use crate::commands::{ObserverCommand, ObserverEventView};
use crate::hooks::active_hooks;
use crate::laws::blocks::filing_keeps_blocks_well_filed;
use crate::laws::triggers::count_never_falls;
use crate::protocol::{
    ChainhookOccurrence, ObserverActionView, ObserverInput, PhaseView, RoundView,
};
use crate::transition::{ObserverView, Step};
use crate::triggers::{all_counted, count_of};

verus! {

/// No action emits an event.
pub open spec fn nothing_emitted(actions: Seq<ObserverActionView>) -> bool {
    forall|i: int| 0 <= i < actions.len() ==> !((#[trigger] actions[i]) is Emit)
}

/// Whether an action asks for an answer.
pub open spec fn asks(action: ObserverActionView) -> bool {
    match action {
        ObserverActionView::Notify(_) => false,
        ObserverActionView::ConnectNode => false,
        ObserverActionView::Emit(_) => false,
        ObserverActionView::Measure(_) => false,
        ObserverActionView::ShutdownIngestion => false,
        _ => true,
    }
}

/// No action asks for an answer.
pub open spec fn nothing_asked(actions: Seq<ObserverActionView>) -> bool {
    forall|i: int| 0 <= i < actions.len() ==> !asks(#[trigger] actions[i])
}

/// Whether an observer in the given phase waits for the answer to an action.
pub open spec fn waits_for(phase: PhaseView, action: ObserverActionView) -> bool {
    match (phase, action) {
        (PhaseView::Standardizing(attempt), ObserverActionView::Standardize(block)) => {
            block == attempt.block
        },
        (PhaseView::Downloading(attempt), ObserverActionView::Download(hash)) => {
            hash == attempt.block_hash
        },
        (PhaseView::Mutating(_, blocks), ObserverActionView::MutateBlocks(sent, _)) => {
            sent == blocks
        },
        (PhaseView::Evaluating(event, _), ObserverActionView::EvaluateBitcoin(evaluated, _)) => {
            event == EventView::BitcoinChainEvent(evaluated)
        },
        (PhaseView::Evaluating(event, _), ObserverActionView::EvaluateStacks(evaluated, _)) => {
            event == EventView::StacksChainEvent(evaluated)
        },
        (PhaseView::CollectingProof(_, target), ObserverActionView::CollectProof(wanted)) => {
            wanted == target
        },
        (PhaseView::HandlingTrigger(round), ObserverActionView::HandleBitcoinTrigger(_, proofs)) => {
            round.event is BitcoinChainEvent && proofs == round.proofs
        },
        (PhaseView::HandlingTrigger(round), ObserverActionView::HandleStacksTrigger(_)) => {
            round.event is StacksChainEvent
        },
        (PhaseView::SendingRequest(_, _), ObserverActionView::SendRequest { .. }) => true,
        _ => false,
    }
}

/// Whether the actions of a step leave the observer waiting for an answer
/// exactly if the last of them asks for it.
pub open spec fn asked_last(step: Step) -> bool {
    if step.state.phase is Idle || step.state.phase is Terminated {
        nothing_asked(step.actions)
    } else {
        &&& step.actions.len() > 0
        &&& waits_for(step.state.phase, step.actions.last())
        &&& nothing_asked(step.actions.drop_last())
    }
}

/// Actions that ask for nothing may come first.
proof fn asked_last_after(step: Step, actions: Seq<ObserverActionView>)
    requires
        asked_last(step),
        nothing_asked(actions),
    ensures
        asked_last(step.after(actions)),
{
    if step.actions.len() > 0 {
        assert((actions + step.actions).drop_last() =~= actions + step.actions.drop_last());
    }
}

/// What a step within a round keeps and does.
pub open spec fn is_orderly(state: ObserverView, step: Step) -> bool {
    &&& step.state.links == state.links
    &&& step.state.bitcoin_network == state.bitcoin_network
    &&& step.state.stacks_network == state.stacks_network
    &&& step.state.occurrences == state.occurrences
    &&& step.state.blocks == state.blocks
    &&& !state.links.listener ==> nothing_emitted(step.actions)
    &&& asked_last(step)
}

/// What the deregistration of several hooks leaves as it is, and what it does.
proof fn deregistration_is_orderly(state: ObserverView, bitcoin: bool, uuids: Seq<String>)
    ensures
        ({
            let step = state.hooks_deregistered(bitcoin, uuids);
            &&& step.state == (ObserverView {
                bitcoin_hooks: step.state.bitcoin_hooks,
                stacks_hooks: step.state.stacks_hooks,
                ..state
            })
            &&& bitcoin ==> step.state.stacks_hooks == state.stacks_hooks
            &&& !bitcoin ==> step.state.bitcoin_hooks == state.bitcoin_hooks
            &&& nothing_asked(step.actions)
            &&& !state.links.listener ==> nothing_emitted(step.actions)
        }),
    decreases uuids.len(),
{
    if uuids.len() > 0 {
        deregistration_is_orderly(state, bitcoin, uuids.drop_last());
    }
}

/// The rest of a round from its requests on.
proof fn requests_are_orderly(state: ObserverView, round: RoundView)
    ensures
        is_orderly(state, state.requests_wanted(round)),
{
    let step = state.requests_wanted(round);
    if round.requests.len() > 0 {
        assert(step.actions.drop_last() =~= Seq::empty());
    }
}

/// The rest of a round from its triggers on.
proof fn triggers_are_orderly(state: ObserverView, round: RoundView)
    ensures
        is_orderly(state, state.triggers_wanted(round)),
{
    let step = state.triggers_wanted(round);
    if round.triggers.len() > 0 {
        assert(step.actions.drop_last() =~= Seq::empty());
    } else {
        let bitcoin = round.event is BitcoinChainEvent;
        let deregistered = state.hooks_deregistered(bitcoin, round.hooks_ids_to_deregister);
        let rest = RoundView { hooks_ids_to_deregister: Seq::empty(), ..round };
        deregistration_is_orderly(state, bitcoin, round.hooks_ids_to_deregister);
        requests_are_orderly(deregistered.state, rest);
        asked_last_after(deregistered.state.requests_wanted(rest), deregistered.actions);
    }
}

/// The rest of a round from its proofs on.
proof fn proofs_are_orderly(state: ObserverView, round: RoundView)
    ensures
        is_orderly(state, state.proofs_wanted(round)),
{
    let step = state.proofs_wanted(round);
    triggers_are_orderly(state, RoundView { targets: Seq::empty(), ..round });
    if step.state.phase is CollectingProof {
        assert(step.actions.drop_last() =~= Seq::empty());
    }
    asked_last_after(
        state.triggers_wanted(RoundView { targets: Seq::empty(), ..round }),
        state.emission(
            ObserverEventView::PredicatesTriggered(round.triggers.len()),
        ),
    );
}

/// What every step keeps and does.
pub open spec fn keeps_order(state: ObserverView, step: Step) -> bool {
    &&& step.state.links == state.links
    &&& step.state.bitcoin_network == state.bitcoin_network
    &&& step.state.stacks_network == state.stacks_network
    &&& !state.links.listener ==> nothing_emitted(step.actions)
    &&& asked_last(step)
}

/// A complete Bitcoin chain event.
proof fn completed_event_keeps_order(
    state: ObserverView,
    pending: PendingChainEventView,
    updated_blocks: Seq<BitcoinBlockDataCached>,
)
    ensures
        keeps_order(state, state.bitcoin_event_completed(pending, updated_blocks)),
{
    let step = state.bitcoin_event_completed(pending, updated_blocks);
    assert(nothing_asked(step.actions.drop_last()));
}

/// A command.
proof fn command_keeps_order(state: ObserverView, command: ObserverCommand)
    requires
        state.phase is Idle,
    ensures
        keeps_order(state, state.on_command(command)),
{
    let step = state.on_command(command);
    match command {
        ObserverCommand::PropagateBitcoinChainEvent(event) => {
            let required = state.links.blocks_mutator;
            let resolved = resolution(state.blocks, event, required);
            let after = ObserverView {
                blocks: cache_after_resolution(state.blocks, event, required),
                ..state
            };
            completed_event_keeps_order(after, resolved.pending, resolved.blocks_to_mutate);
        },
        _ => {},
    }
    if step.actions.len() > 0 {
        assert(nothing_asked(step.actions.drop_last()));
    }
}

/// Every step.
proof fn step_keeps_order(state: ObserverView, input: ObserverInput)
    requires
        state.accepts(input),
    ensures
        keeps_order(state, state.step(input)),
{
    let idle = state.in_phase(PhaseView::Idle);
    match (state.phase, input) {
        (PhaseView::Idle, ObserverInput::Command(command)) => {
            command_keeps_order(idle, command);
        },
        (PhaseView::Mutating(pending, blocks), ObserverInput::BlocksMutated(reply)) => {
            completed_event_keeps_order(
                idle,
                pending,
                match reply {
                    Some(updated_blocks) => updated_blocks@,
                    None => blocks,
                },
            );
        },
        (PhaseView::Evaluating(event, new_tip), ObserverInput::Evaluated(evaluation)) => {
            let after = ObserverView {
                occurrences: all_counted(idle.occurrences, evaluation.predicates_triggered@),
                ..idle
            };
            let round = idle.first_round(event, new_tip, evaluation);
            proofs_are_orderly(after, round);
            asked_last_after(after.proofs_wanted(round), ObserverView::preparation(round));
        },
        (PhaseView::CollectingProof(round, target), ObserverInput::ProofCollected(answer)) => {
            proofs_are_orderly(idle, round);
            if let Ok(proof) = answer {
                proofs_are_orderly(idle, round.with_proof(target, proof@));
            }
        },
        (PhaseView::HandlingTrigger(round), ObserverInput::TriggerHandled(occurrence)) => {
            triggers_are_orderly(idle, round);
            match occurrence {
                Some(ChainhookOccurrence::Http(request, payload)) => {
                    triggers_are_orderly(idle, round.with_request(request, payload));
                },
                Some(ChainhookOccurrence::Data(payload)) => {
                    asked_last_after(idle.triggers_wanted(round), idle.occurrence_told(payload));
                },
                _ => {},
            }
        },
        (
            PhaseView::SendingRequest(round, payload),
            ObserverInput::RequestSent { outcome, predicate_key },
        ) => {
            match outcome {
                Ok(_) => {
                    requests_are_orderly(idle, round);
                    asked_last_after(idle.requests_wanted(round), idle.occurrence_told(payload));
                },
                Err(error) => {
                    let interrupted = idle.predicate_interrupted(payload, predicate_key, error@);
                    requests_are_orderly(interrupted.state, round);
                    asked_last_after(
                        interrupted.state.requests_wanted(round),
                        interrupted.actions,
                    );
                },
            }
        },
        _ => {
            let step = state.step(input);
            if step.actions.len() > 0 {
                assert(nothing_asked(step.actions.drop_last()));
            }
        },
    }
}

/// No step changes the observer's partners or the networks that it observes.
pub proof fn partners_and_networks_stay(state: ObserverView, input: ObserverInput)
    requires
        state.accepts(input),
    ensures
        state.step(input).state.links == state.links,
        state.step(input).state.bitcoin_network == state.bitcoin_network,
        state.step(input).state.stacks_network == state.stacks_network,
{
    step_keeps_order(state, input);
}

/// Where nobody listens, no event is emitted.
pub proof fn nothing_is_emitted_unless_someone_listens(state: ObserverView, input: ObserverInput)
    requires
        state.accepts(input),
        !state.links.listener,
    ensures
        nothing_emitted(state.step(input).actions),
{
    step_keeps_order(state, input);
}

/// The observer waits for an answer exactly if the last action of its step asked
/// for it, and no other action of the step asks for anything: whoever drives it
/// performs the actions in order, and feeds in the answer to the last.
pub proof fn question_is_asked_last(state: ObserverView, input: ObserverInput)
    requires
        state.accepts(input),
    ensures
        asked_last(state.step(input)),
{
    step_keeps_order(state, input);
}

/// An observer that has come to its end takes no input any more, and does
/// nothing.
pub proof fn terminated_observer_stays_so(state: ObserverView, input: ObserverInput)
    requires
        state.phase is Terminated,
    ensures
        !state.accepts(input),
        state.step(input) == (Step { state, actions: Seq::empty() }),
{
}

/// Every block stays filed under its own hash.
pub proof fn blocks_stay_well_filed(state: ObserverView, input: ObserverInput)
    requires
        state.accepts(input),
        well_filed(state.blocks),
    ensures
        well_filed(state.step(input).state.blocks),
{
    let idle = state.in_phase(PhaseView::Idle);
    match (state.phase, input) {
        (PhaseView::Idle, ObserverInput::Command(command)) => {
            if let ObserverCommand::PropagateBitcoinChainEvent(event) = command {
                let required = state.links.blocks_mutator;
                let after = cache_after_resolution(state.blocks, event, required);
                let resolved = resolution(state.blocks, event, required);
                assert(all_filed(state.blocks, Seq::empty()) == state.blocks);
                filing_keeps_blocks_well_filed(state.blocks, Seq::empty(), gained_headers(event));
                filing_keeps_blocks_well_filed(
                    after,
                    resolved.blocks_to_mutate,
                    resolved.pending.confirmed_headers,
                );
            }
        },
        (PhaseView::Mutating(pending, blocks), ObserverInput::BlocksMutated(reply)) => {
            let updated_blocks = match reply {
                Some(updated_blocks) => updated_blocks@,
                None => blocks,
            };
            filing_keeps_blocks_well_filed(
                idle.blocks,
                updated_blocks,
                pending.confirmed_headers,
            );
        },
        (PhaseView::Evaluating(event, new_tip), ObserverInput::Evaluated(evaluation)) => {
            let after = ObserverView {
                occurrences: all_counted(idle.occurrences, evaluation.predicates_triggered@),
                ..idle
            };
            proofs_are_orderly(after, idle.first_round(event, new_tip, evaluation));
        },
        _ => {
            round_steps_spare_blocks_and_counts(state, input);
        },
    }
}

/// Within a round, neither the cache nor the counts change.
proof fn round_steps_spare_blocks_and_counts(state: ObserverView, input: ObserverInput)
    requires
        state.accepts(input),
    ensures
        state.phase is CollectingProof || state.phase is HandlingTrigger
            || state.phase is SendingRequest ==> {
            &&& state.step(input).state.blocks == state.blocks
            &&& state.step(input).state.occurrences == state.occurrences
        },
{
    let idle = state.in_phase(PhaseView::Idle);
    match (state.phase, input) {
        (PhaseView::CollectingProof(round, target), ObserverInput::ProofCollected(answer)) => {
            proofs_are_orderly(idle, round);
            if let Ok(proof) = answer {
                proofs_are_orderly(idle, round.with_proof(target, proof@));
            }
        },
        (PhaseView::HandlingTrigger(round), ObserverInput::TriggerHandled(occurrence)) => {
            triggers_are_orderly(idle, round);
            if let Some(ChainhookOccurrence::Http(request, payload)) = occurrence {
                triggers_are_orderly(idle, round.with_request(request, payload));
            }
        },
        _ => {},
    }
}

/// From the evaluation of a chain event until the observer is idle, the cache does
/// not change.
pub proof fn handling_spares_the_cache(state: ObserverView, input: ObserverInput)
    requires
        state.accepts(input),
        state.phase is Evaluating || state.phase is CollectingProof || state.phase is HandlingTrigger
            || state.phase is SendingRequest,
    ensures
        state.step(input).state.blocks == state.blocks,
{
    let idle = state.in_phase(PhaseView::Idle);
    match (state.phase, input) {
        (PhaseView::Evaluating(event, new_tip), ObserverInput::Evaluated(evaluation)) => {
            let after = ObserverView {
                occurrences: all_counted(idle.occurrences, evaluation.predicates_triggered@),
                ..idle
            };
            proofs_are_orderly(after, idle.first_round(event, new_tip, evaluation));
        },
        _ => {
            round_steps_spare_blocks_and_counts(state, input);
        },
    }
}

/// What comes of a request, once it is answered, is no news to the monitoring, except
/// for the new tip when it was the last.
pub proof fn outcome_of_a_request_is_not_measured(
    state: ObserverView,
    outcome: Result<(), String>,
    predicate_key: String,
    i: int,
)
    requires
        state.phase is SendingRequest,
        0 <= i < state.step(
            ObserverInput::RequestSent { outcome, predicate_key },
        ).actions.len(),
    ensures
        state.step(ObserverInput::RequestSent { outcome, predicate_key }).actions[i] matches
            ObserverActionView::Measure(metric) ==> metric is BitcoinBlockEvaluated
            || metric is StacksBlockEvaluated,
{
}

/// The count of a predicate's occurrences never falls, and only an evaluation
/// changes it.
pub proof fn occurrences_never_fall(state: ObserverView, input: ObserverInput, uuid: Seq<char>)
    requires
        state.accepts(input),
    ensures
        count_of(state.occurrences, uuid) <= count_of(state.step(input).state.occurrences, uuid),
        !(input is Evaluated) ==> state.step(input).state.occurrences == state.occurrences,
{
    let idle = state.in_phase(PhaseView::Idle);
    match (state.phase, input) {
        (PhaseView::Evaluating(event, new_tip), ObserverInput::Evaluated(evaluation)) => {
            let after = ObserverView {
                occurrences: all_counted(idle.occurrences, evaluation.predicates_triggered@),
                ..idle
            };
            proofs_are_orderly(after, idle.first_round(event, new_tip, evaluation));
            count_never_falls(state.occurrences, evaluation.predicates_triggered@, uuid);
        },
        _ => {
            round_steps_spare_blocks_and_counts(state, input);
        },
    }
}

/// Chain events are evaluated against the active hooks of the store, all of them
/// and no others.
pub proof fn exactly_the_active_hooks_are_evaluated(
    state: ObserverView,
    input: ObserverInput,
    i: int,
)
    requires
        state.accepts(input),
        0 <= i < state.step(input).actions.len(),
    ensures
        state.step(input).actions[i] matches ObserverActionView::EvaluateBitcoin(_, hooks) ==> hooks
            == active_hooks(state.bitcoin_hooks),
        state.step(input).actions[i] matches ObserverActionView::EvaluateStacks(_, hooks) ==> hooks
            == active_hooks(state.stacks_hooks),
{
    let step = state.step(input);
    step_keeps_order(state, input);
    if asks(step.actions[i]) {
        if i < step.actions.len() - 1 && !(step.state.phase is Idle
            || step.state.phase is Terminated) {
            assert(step.actions.drop_last()[i] == step.actions[i]);
        }
        assert(i == step.actions.len() - 1);
        match step.actions[i] {
            ObserverActionView::EvaluateBitcoin(_, _) => {
                evaluation_starts_from_idle_or_mutation(state, input);
            },
            ObserverActionView::EvaluateStacks(_, _) => {
                evaluation_starts_from_idle_or_mutation(state, input);
            },
            _ => {},
        }
    }
}

/// Where a step leads to an evaluation, its last action names the active hooks.
proof fn evaluation_starts_from_idle_or_mutation(state: ObserverView, input: ObserverInput)
    requires
        state.accepts(input),
        state.step(input).state.phase is Evaluating,
    ensures
        state.step(input).actions.last() matches ObserverActionView::EvaluateBitcoin(_, hooks)
            ==> hooks == active_hooks(state.bitcoin_hooks),
        state.step(input).actions.last() matches ObserverActionView::EvaluateStacks(_, hooks)
            ==> hooks == active_hooks(state.stacks_hooks),
{
    let idle = state.in_phase(PhaseView::Idle);
    match (state.phase, input) {
        (PhaseView::Evaluating(event, new_tip), ObserverInput::Evaluated(evaluation)) => {
            let after = ObserverView {
                occurrences: all_counted(idle.occurrences, evaluation.predicates_triggered@),
                ..idle
            };
            round_leads_to_no_evaluation(after, idle.first_round(event, new_tip, evaluation));
        },
        (PhaseView::CollectingProof(round, target), ObserverInput::ProofCollected(answer)) => {
            round_leads_to_no_evaluation(idle, round);
            if let Ok(proof) = answer {
                round_leads_to_no_evaluation(idle, round.with_proof(target, proof@));
            }
        },
        (PhaseView::HandlingTrigger(round), ObserverInput::TriggerHandled(occurrence)) => {
            round_leads_to_no_evaluation(idle, round);
            if let Some(ChainhookOccurrence::Http(request, payload)) = occurrence {
                round_leads_to_no_evaluation(idle, round.with_request(request, payload));
            }
        },
        _ => {},
    }
}

/// The rest of a round starts no evaluation.
proof fn round_leads_to_no_evaluation(state: ObserverView, round: RoundView)
    ensures
        !(state.triggers_wanted(round).state.phase is Evaluating),
        !(state.proofs_wanted(round).state.phase is Evaluating),
{
}

} // verus!
