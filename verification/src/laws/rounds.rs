//! Laws on rounds: how the handling of an evaluated chain event goes on, and
//! that it comes to its end.

use vstd::prelude::*;

use crate::chain::EventView;
use crate::commands::ObserverEventView;
use crate::proofs::{has_proof, next_target, proofs_distinct, ProofTarget, ProofView};
use crate::protocol::{
    ChainhookOccurrence, ObserverActionView, ObserverInput, PhaseView, RoundView,
};
use crate::transition::{ObserverView, Step, MAX_ATTEMPTS};
use crate::triggers::{all_counted, Evaluation};

verus! {

/// The round that the observer is in, if it is in one.
pub open spec fn round_of(phase: PhaseView) -> Option<RoundView> {
    match phase {
        PhaseView::CollectingProof(round, _) => Some(round),
        PhaseView::HandlingTrigger(round) => Some(round),
        PhaseView::SendingRequest(round, _) => Some(round),
        _ => None,
    }
}

/// Whether a round continues another: it is about the same chain event.
pub open spec fn continues(round: RoundView, next: RoundView) -> bool {
    &&& next.event == round.event
    &&& next.new_tip == round.new_tip
    &&& next.report == round.report
}

/// Whether a step continues a round, or ends it as it is to end. The exhausted
/// predicates stay named until the triggers are handled.
pub open spec fn goes_on(state: ObserverView, round: RoundView, step: Step) -> bool {
    match round_of(step.state.phase) {
        Some(next) => {
            &&& continues(round, next)
            &&& !(step.state.phase is SendingRequest) ==> next.hooks_ids_to_deregister
                == round.hooks_ids_to_deregister
        },
        None => {
            let end = state.conclusion(round);
            &&& step.state.phase is Idle
            &&& step.actions.len() >= end.len()
            &&& step.actions.skip(step.actions.len() - end.len()) == end
        },
    }
}

/// Further actions may come first.
proof fn goes_on_after(
    state: ObserverView,
    round: RoundView,
    step: Step,
    actions: Seq<ObserverActionView>,
)
    requires
        goes_on(state, round, step),
    ensures
        goes_on(state, round, step.after(actions)),
{
    let end = state.conclusion(round);
    if round_of(step.state.phase) is None {
        let more = actions + step.actions;
        assert(more.skip(more.len() - end.len()) =~= step.actions.skip(
            step.actions.len() - end.len(),
        ));
    }
}

proof fn deregistration_keeps_links(state: ObserverView, bitcoin: bool, uuids: Seq<String>)
    ensures
        state.hooks_deregistered(bitcoin, uuids).state.links == state.links,
    decreases uuids.len(),
{
    if uuids.len() > 0 {
        deregistration_keeps_links(state, bitcoin, uuids.drop_last());
    }
}

proof fn requests_go_on(state: ObserverView, round: RoundView)
    ensures
        goes_on(state, round, state.requests_wanted(round)),
{
    let step = state.requests_wanted(round);
    assert(step.actions.skip(0) =~= step.actions);
}

proof fn triggers_go_on(state: ObserverView, round: RoundView)
    ensures
        goes_on(state, round, state.triggers_wanted(round)),
{
    if round.triggers.len() == 0 {
        let bitcoin = round.event is BitcoinChainEvent;
        let deregistered = state.hooks_deregistered(bitcoin, round.hooks_ids_to_deregister);
        let rest = RoundView { hooks_ids_to_deregister: Seq::empty(), ..round };
        deregistration_keeps_links(state, bitcoin, round.hooks_ids_to_deregister);
        requests_go_on(deregistered.state, rest);
        assert(goes_on(state, round, deregistered.state.requests_wanted(rest)));
        goes_on_after(
            state,
            round,
            deregistered.state.requests_wanted(rest),
            deregistered.actions,
        );
    }
}

proof fn proofs_go_on(state: ObserverView, round: RoundView)
    ensures
        goes_on(state, round, state.proofs_wanted(round)),
{
    let rest = RoundView { targets: Seq::empty(), ..round };
    triggers_go_on(state, rest);
    assert(goes_on(state, round, state.triggers_wanted(rest)));
    goes_on_after(
        state,
        round,
        state.triggers_wanted(rest),
        state.emission(
            ObserverEventView::PredicatesTriggered(round.triggers.len()),
        ),
    );
}

/// A chain event that was evaluated goes through its round unchanged, with the
/// report on its evaluation. The round ends with the event and the report being
/// told to the listener, and the new tip to the monitoring.
pub proof fn round_ends_with_its_event_and_report(
    state: ObserverView,
    round: RoundView,
    input: ObserverInput,
)
    requires
        state.accepts(input),
        round_of(state.phase) == Some(round),
    ensures
        goes_on(state, round, state.step(input)),
{
    let idle = state.in_phase(PhaseView::Idle);
    match (state.phase, input) {
        (PhaseView::CollectingProof(_, target), ObserverInput::ProofCollected(answer)) => {
            proofs_go_on(idle, round);
            if let Ok(proof) = answer {
                proofs_go_on(idle, round.with_proof(target, proof@));
            }
        },
        (PhaseView::HandlingTrigger(_), ObserverInput::TriggerHandled(occurrence)) => {
            triggers_go_on(idle, round);
            match occurrence {
                Some(ChainhookOccurrence::Http(request, payload)) => {
                    triggers_go_on(idle, round.with_request(request, payload));
                },
                Some(ChainhookOccurrence::Data(payload)) => {
                    goes_on_after(
                        idle,
                        round,
                        idle.triggers_wanted(round),
                        idle.occurrence_told(payload),
                    );
                },
                _ => {},
            }
        },
        (
            PhaseView::SendingRequest(_, payload),
            ObserverInput::RequestSent { outcome, predicate_key },
        ) => {
            match outcome {
                Ok(_) => {
                    requests_go_on(idle, round);
                    goes_on_after(
                        idle,
                        round,
                        idle.requests_wanted(round),
                        idle.occurrence_told(payload),
                    );
                },
                Err(error) => {
                    let interrupted = idle.predicate_interrupted(payload, predicate_key, error@);
                    requests_go_on(interrupted.state, round);
                    assert(goes_on(idle, round, interrupted.state.requests_wanted(round)));
                    goes_on_after(
                        idle,
                        round,
                        interrupted.state.requests_wanted(round),
                        interrupted.actions,
                    );
                },
            }
        },
        _ => {},
    }
}

/// An evaluation starts a round on the chain event that was evaluated, with the
/// report on the evaluation; or that round is over at once.
pub proof fn evaluation_starts_a_round(
    state: ObserverView,
    event: EventView,
    new_tip: u64,
    evaluation: Evaluation,
)
    requires
        state.phase == PhaseView::Evaluating(event, new_tip),
        state.accepts(ObserverInput::Evaluated(evaluation)),
    ensures
        goes_on(
            state,
            state.first_round(event, new_tip, evaluation),
            state.step(ObserverInput::Evaluated(evaluation)),
        ),
        state.first_round(event, new_tip, evaluation).event == event,
        state.first_round(event, new_tip, evaluation).new_tip == new_tip,
        state.first_round(event, new_tip, evaluation).report == evaluation.spec_report(),
{
    let idle = state.in_phase(PhaseView::Idle);
    let after = ObserverView {
        occurrences: all_counted(idle.occurrences, evaluation.predicates_triggered@),
        ..idle
    };
    let round = idle.first_round(event, new_tip, evaluation);
    proofs_go_on(after, round);
    goes_on_after(
        after,
        round,
        after.proofs_wanted(round),
        ObserverView::preparation(round),
    );
}

/// A bound on how many more answers the observer waits for before it is idle,
/// while it is at a block or in a round.
pub open spec fn work_left(phase: PhaseView) -> int {
    match phase {
        PhaseView::Standardizing(attempt) => 2 * (MAX_ATTEMPTS + 2 - attempt.attempts),
        PhaseView::Downloading(attempt) => 2 * (MAX_ATTEMPTS + 2 - attempt.attempts) + 1,
        PhaseView::CollectingProof(round, _) => {
            1int + round.targets.len() + 2 * round.triggers.len() + round.requests.len()
        },
        PhaseView::HandlingTrigger(round) => 2int + 2 * round.triggers.len() + round.requests.len(),
        PhaseView::SendingRequest(round, _) => 1int + round.requests.len(),
        _ => 0,
    }
}

proof fn next_target_shortens(targets: Seq<ProofTarget>, proofs: Seq<ProofView>)
    ensures
        next_target(targets, proofs) matches Some((_, rest)) ==> rest.len() < targets.len(),
    decreases targets.len(),
{
    if targets.len() > 0 {
        next_target_shortens(targets.drop_first(), proofs);
    }
}

/// A block is not tried more often than the limit allows.
pub open spec fn attempts_bounded(phase: PhaseView) -> bool {
    match phase {
        PhaseView::Standardizing(attempt) => attempt.attempts <= MAX_ATTEMPTS,
        PhaseView::Downloading(attempt) => attempt.attempts <= MAX_ATTEMPTS,
        _ => true,
    }
}

/// Every answer brings the observer nearer to being idle: at a block as well as
/// in a round the work left shrinks, and there is always some left while the
/// observer waits.
pub proof fn every_answer_leaves_less_work(state: ObserverView, input: ObserverInput)
    requires
        state.accepts(input),
        attempts_bounded(state.phase),
        state.phase is Standardizing || state.phase is Downloading || round_of(state.phase) is Some,
    ensures
        0 <= work_left(state.step(input).state.phase) < work_left(state.phase),
{
    match (state.phase, input) {
        (PhaseView::CollectingProof(round, target), ObserverInput::ProofCollected(answer)) => {
            next_target_shortens(round.targets, round.proofs);
            if let Ok(proof) = answer {
                next_target_shortens(round.targets, round.with_proof(target, proof@).proofs);
            }
        },
        _ => {},
    }
}

/// The number of attempts at a block stays within its bound.
pub proof fn attempts_stay_bounded(state: ObserverView, input: ObserverInput)
    requires
        state.accepts(input),
        attempts_bounded(state.phase),
    ensures
        attempts_bounded(state.step(input).state.phase),
{
}

/// Proofs are at hand for distinct transactions, and the one that is asked for
/// is not among them.
pub open spec fn proofs_in_order(phase: PhaseView) -> bool {
    match phase {
        PhaseView::CollectingProof(round, target) => {
            &&& proofs_distinct(round.proofs)
            &&& !has_proof(round.proofs, target.transaction_identifier.hash@)
        },
        PhaseView::HandlingTrigger(round) => proofs_distinct(round.proofs),
        PhaseView::SendingRequest(round, _) => proofs_distinct(round.proofs),
        _ => true,
    }
}

proof fn next_target_is_not_at_hand(targets: Seq<ProofTarget>, proofs: Seq<ProofView>)
    ensures
        next_target(targets, proofs) matches Some((target, _)) ==> !has_proof(
            proofs,
            target.transaction_identifier.hash@,
        ),
    decreases targets.len(),
{
    if targets.len() > 0 {
        next_target_is_not_at_hand(targets.drop_first(), proofs);
    }
}

proof fn distinct_proofs_stay_in_order(state: ObserverView, round: RoundView)
    requires
        proofs_distinct(round.proofs),
    ensures
        proofs_in_order(state.proofs_wanted(round).state.phase),
        proofs_in_order(state.triggers_wanted(round).state.phase),
{
    next_target_is_not_at_hand(round.targets, round.proofs);
}

/// No proof is asked for that is at hand, and none is held twice.
pub proof fn no_proof_is_collected_twice(state: ObserverView, input: ObserverInput)
    requires
        state.accepts(input),
        proofs_in_order(state.phase),
    ensures
        proofs_in_order(state.step(input).state.phase),
{
    let idle = state.in_phase(PhaseView::Idle);
    match (state.phase, input) {
        (PhaseView::Evaluating(event, new_tip), ObserverInput::Evaluated(evaluation)) => {
            let after = ObserverView {
                occurrences: all_counted(idle.occurrences, evaluation.predicates_triggered@),
                ..idle
            };
            distinct_proofs_stay_in_order(after, idle.first_round(event, new_tip, evaluation));
        },
        (PhaseView::CollectingProof(round, target), ObserverInput::ProofCollected(answer)) => {
            distinct_proofs_stay_in_order(idle, round);
            if let Ok(proof) = answer {
                let more = round.with_proof(target, proof@);
                assert forall|i: int, j: int| 0 <= i < j < more.proofs.len() implies (
                #[trigger] more.proofs[i]).hash != (#[trigger] more.proofs[j]).hash by {
                    assert(more.proofs[i] == round.proofs[i]);
                    if j < round.proofs.len() {
                        assert(more.proofs[j] == round.proofs[j]);
                    }
                }
                distinct_proofs_stay_in_order(idle, more);
            }
        },
        (PhaseView::HandlingTrigger(round), ObserverInput::TriggerHandled(occurrence)) => {
            distinct_proofs_stay_in_order(idle, round);
            if let Some(ChainhookOccurrence::Http(request, payload)) = occurrence {
                distinct_proofs_stay_in_order(idle, round.with_request(request, payload));
            }
        },
        _ => {},
    }
}

} // verus!
