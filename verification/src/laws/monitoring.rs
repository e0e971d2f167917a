//! Laws on the monitoring: what it is told agrees with the store.

use vstd::prelude::*;

use crate::blocks::{BitcoinBlockDataCached, PendingChainEventView};
use crate::commands::{ObserverCommand, ObserverEventView};
use crate::hooks::{has_hook, is_first_hook, position_of, without_hook, NetworkChainhook};
use crate::metrics::Metric;
use crate::protocol::{
    ChainhookOccurrence, ObserverActionView, ObserverInput, OccurrencePayload, PhaseView, RoundView,
};
use crate::transition::{ObserverView, Step};
use crate::triggers::all_counted;

verus! {

/// How often the monitoring is told something.
pub open spec fn told(actions: Seq<ObserverActionView>, metric: Metric) -> nat {
    actions.filter(|action: ObserverActionView| action == ObserverActionView::Measure(metric)).len()
}

/// What some actions tell the monitoring adds up.
proof fn told_adds_up(
    first: Seq<ObserverActionView>,
    second: Seq<ObserverActionView>,
    metric: Metric,
)
    ensures
        told(first + second, metric) == told(first, metric) + told(second, metric),
{
    Seq::filter_distributes_over_add(
        first,
        second,
        |action: ObserverActionView| action == ObserverActionView::Measure(metric),
    );
}

/// Whether something told to the monitoring is about the coming or going of a
/// predicate.
pub open spec fn is_about_store(action: ObserverActionView) -> bool {
    match action {
        ObserverActionView::Measure(Metric::BitcoinPredicateRegistered) => true,
        ObserverActionView::Measure(Metric::BitcoinPredicateDeregistered) => true,
        ObserverActionView::Measure(Metric::StacksPredicateRegistered) => true,
        ObserverActionView::Measure(Metric::StacksPredicateDeregistered) => true,
        _ => false,
    }
}

/// No action tells the monitoring of the coming or going of a predicate.
pub open spec fn nothing_about_store(actions: Seq<ObserverActionView>) -> bool {
    forall|i: int| 0 <= i < actions.len() ==> !is_about_store(#[trigger] actions[i])
}

/// Whether what a step tells the monitoring agrees with what it does to the
/// store: the number of predicates changes by those that are told to come, less
/// those that are told to go.
pub open spec fn agrees(state: ObserverView, step: Step) -> bool {
    &&& step.state.bitcoin_hooks.len() + told(step.actions, Metric::BitcoinPredicateDeregistered)
        == state.bitcoin_hooks.len() + told(step.actions, Metric::BitcoinPredicateRegistered)
    &&& step.state.stacks_hooks.len() + told(step.actions, Metric::StacksPredicateDeregistered)
        == state.stacks_hooks.len() + told(step.actions, Metric::StacksPredicateRegistered)
}

proof fn nothing_is_told(actions: Seq<ObserverActionView>)
    requires
        nothing_about_store(actions),
    ensures
        told(actions, Metric::BitcoinPredicateRegistered) == 0,
        told(actions, Metric::BitcoinPredicateDeregistered) == 0,
        told(actions, Metric::StacksPredicateRegistered) == 0,
        told(actions, Metric::StacksPredicateDeregistered) == 0,
    decreases actions.len(),
{
    reveal(Seq::filter);
    if actions.len() > 0 {
        let shorter = actions.drop_last();
        assert forall|i: int| 0 <= i < shorter.len() implies !is_about_store(
            #[trigger] shorter[i],
        ) by {
            assert(shorter[i] == actions[i]);
        }
        nothing_is_told(shorter);
        assert(!is_about_store(actions[actions.len() - 1]));
    }
}

/// A single piece of news, and then nothing more about the store.
proof fn one_thing_is_told(metric: Metric, rest: Seq<ObserverActionView>, other: Metric)
    requires
        nothing_about_store(rest),
        is_about_store(ObserverActionView::Measure(other)),
    ensures
        told(seq![ObserverActionView::Measure(metric)] + rest, other) == if other == metric {
            1nat
        } else {
            0nat
        },
{
    reveal_with_fuel(Seq::filter, 2);
    let first = seq![ObserverActionView::Measure(metric)];
    assert(first.drop_last() =~= Seq::empty());
    told_adds_up(first, rest, other);
    nothing_is_told(rest);
}

/// Further actions may come first, if they agree with what is done before.
proof fn agreement_adds_up(state: ObserverView, first: Step, second: Step)
    requires
        agrees(state, first),
        agrees(first.state, second),
    ensures
        agrees(state, second.after(first.actions)),
{
    told_adds_up(first.actions, second.actions, Metric::BitcoinPredicateRegistered);
    told_adds_up(first.actions, second.actions, Metric::BitcoinPredicateDeregistered);
    told_adds_up(first.actions, second.actions, Metric::StacksPredicateRegistered);
    told_adds_up(first.actions, second.actions, Metric::StacksPredicateDeregistered);
}

/// A step that leaves the number of predicates and says nothing about the store.
proof fn silence_agrees(state: ObserverView, step: Step)
    requires
        step.state.bitcoin_hooks.len() == state.bitcoin_hooks.len(),
        step.state.stacks_hooks.len() == state.stacks_hooks.len(),
        nothing_about_store(step.actions),
    ensures
        agrees(state, step),
{
    nothing_is_told(step.actions);
}

proof fn removal_shortens<N>(hooks: Seq<NetworkChainhook<N>>, uuid: Seq<char>)
    ensures
        without_hook(hooks, uuid).len() == if has_hook(hooks, uuid) {
            hooks.len() - 1
        } else {
            hooks.len() as int
        },
{
    if has_hook(hooks, uuid) {
        assert(is_first_hook(hooks, uuid, position_of(hooks, uuid)->0));
    }
}

proof fn one_deregistration_agrees(state: ObserverView, uuid: String)
    ensures
        agrees(state, state.bitcoin_hook_deregistered(uuid)),
        agrees(state, state.stacks_hook_deregistered(uuid)),
{
    let news = state.emission(ObserverEventView::PredicateDeregistered(uuid));
    assert(nothing_about_store(news));
    removal_shortens(state.bitcoin_hooks, uuid@);
    removal_shortens(state.stacks_hooks, uuid@);
    if has_hook(state.bitcoin_hooks, uuid@) {
        registry_metrics_are_told_once(Metric::BitcoinPredicateDeregistered, news);
    } else {
        silence_agrees(state, state.bitcoin_hook_deregistered(uuid));
    }
    if has_hook(state.stacks_hooks, uuid@) {
        registry_metrics_are_told_once(Metric::StacksPredicateDeregistered, news);
    } else {
        silence_agrees(state, state.stacks_hook_deregistered(uuid));
    }
}

proof fn registry_metrics_are_told_once(metric: Metric, rest: Seq<ObserverActionView>)
    requires
        nothing_about_store(rest),
    ensures
        ({
            let actions = seq![ObserverActionView::Measure(metric)] + rest;
            &&& told(actions, Metric::BitcoinPredicateRegistered) == if metric
                == Metric::BitcoinPredicateRegistered {
                1nat
            } else {
                0nat
            }
            &&& told(actions, Metric::BitcoinPredicateDeregistered) == if metric
                == Metric::BitcoinPredicateDeregistered {
                1nat
            } else {
                0nat
            }
            &&& told(actions, Metric::StacksPredicateRegistered) == if metric
                == Metric::StacksPredicateRegistered {
                1nat
            } else {
                0nat
            }
            &&& told(actions, Metric::StacksPredicateDeregistered) == if metric
                == Metric::StacksPredicateDeregistered {
                1nat
            } else {
                0nat
            }
        }),
{
    one_thing_is_told(metric, rest, Metric::BitcoinPredicateRegistered);
    one_thing_is_told(metric, rest, Metric::BitcoinPredicateDeregistered);
    one_thing_is_told(metric, rest, Metric::StacksPredicateRegistered);
    one_thing_is_told(metric, rest, Metric::StacksPredicateDeregistered);
}

proof fn deregistrations_agree(state: ObserverView, bitcoin: bool, uuids: Seq<String>)
    ensures
        agrees(state, state.hooks_deregistered(bitcoin, uuids)),
    decreases uuids.len(),
{
    if uuids.len() == 0 {
        silence_agrees(state, state.hooks_deregistered(bitcoin, uuids));
    } else {
        let before = state.hooks_deregistered(bitcoin, uuids.drop_last());
        deregistrations_agree(state, bitcoin, uuids.drop_last());
        one_deregistration_agrees(before.state, uuids.last());
        if bitcoin {
            agreement_adds_up(
                state,
                before,
                before.state.bitcoin_hook_deregistered(uuids.last()),
            );
        } else {
            agreement_adds_up(state, before, before.state.stacks_hook_deregistered(uuids.last()));
        }
    }
}

proof fn requests_agree(state: ObserverView, round: RoundView)
    ensures
        agrees(state, state.requests_wanted(round)),
{
    silence_agrees(state, state.requests_wanted(round));
}

proof fn triggers_agree(state: ObserverView, round: RoundView)
    ensures
        agrees(state, state.triggers_wanted(round)),
{
    if round.triggers.len() > 0 {
        silence_agrees(state, state.triggers_wanted(round));
    } else {
        let bitcoin = round.event is BitcoinChainEvent;
        let deregistered = state.hooks_deregistered(bitcoin, round.hooks_ids_to_deregister);
        let rest = RoundView { hooks_ids_to_deregister: Seq::empty(), ..round };
        deregistrations_agree(state, bitcoin, round.hooks_ids_to_deregister);
        requests_agree(deregistered.state, rest);
        agreement_adds_up(state, deregistered, deregistered.state.requests_wanted(rest));
    }
}

proof fn proofs_agree(state: ObserverView, round: RoundView)
    ensures
        agrees(state, state.proofs_wanted(round)),
{
    let step = state.proofs_wanted(round);
    if step.state.phase is CollectingProof {
        silence_agrees(state, step);
    }
    let rest = RoundView { targets: Seq::empty(), ..round };
    let news = Step {
        state,
        actions: state.emission(ObserverEventView::PredicatesTriggered(round.triggers.len())),
    };
    silence_agrees(state, news);
    triggers_agree(state, rest);
    agreement_adds_up(state, news, state.triggers_wanted(rest));
}

proof fn completed_event_agrees(
    state: ObserverView,
    pending: PendingChainEventView,
    updated_blocks: Seq<BitcoinBlockDataCached>,
)
    ensures
        agrees(state, state.bitcoin_event_completed(pending, updated_blocks)),
{
    silence_agrees(state, state.bitcoin_event_completed(pending, updated_blocks));
}

proof fn block_step_agrees(state: ObserverView, input: ObserverInput)
    requires
        state.accepts(input),
        state.phase is Standardizing || state.phase is Downloading || input is CommandsClosed,
    ensures
        agrees(state, state.step(input)),
{
    silence_agrees(state, state.step(input));
}

proof fn command_agrees(state: ObserverView, command: ObserverCommand)
    ensures
        agrees(state, state.on_command(command)),
{
    let step = state.on_command(command);
    match command {
        ObserverCommand::RegisterPredicate(hook) => {
            if step.actions.len() > 0 {
                let rest = step.actions.drop_first();
                let metric = step.actions.first()->Measure_0;
                assert(nothing_about_store(rest));
                assert(step.actions =~= seq![ObserverActionView::Measure(metric)] + rest);
                registry_metrics_are_told_once(metric, rest);
            } else {
                silence_agrees(state, step);
            }
        },
        ObserverCommand::DeregisterBitcoinPredicate(uuid) => {
            one_deregistration_agrees(state, uuid);
        },
        ObserverCommand::DeregisterStacksPredicate(uuid) => {
            one_deregistration_agrees(state, uuid);
        },
        _ => {
            silence_agrees(state, step);
        },
    }
}

/// Whether an input makes a predicate go because its request could not be sent.
pub open spec fn interrupts(state: ObserverView, input: ObserverInput) -> bool {
    match (state.phase, input) {
        (
            PhaseView::SendingRequest(_, payload),
            ObserverInput::RequestSent { outcome: Err(_), .. },
        ) => match payload {
            OccurrencePayload::Bitcoin(payload) => has_hook(
                state.bitcoin_hooks,
                payload.chainhook.uuid@,
            ),
            OccurrencePayload::Stacks(payload) => has_hook(
                state.stacks_hooks,
                payload.chainhook.uuid@,
            ),
        },
        _ => false,
    }
}

/// The monitoring's count of predicates follows the store: whatever it is told
/// of the coming and going of predicates agrees with the store. The exception is
/// a predicate that goes because its request could not be sent, of which the
/// monitoring is not told.
pub proof fn monitoring_follows_the_store(state: ObserverView, input: ObserverInput)
    requires
        state.accepts(input),
        !interrupts(state, input),
    ensures
        agrees(state, state.step(input)),
{
    let idle = state.in_phase(PhaseView::Idle);
    match (state.phase, input) {
        (PhaseView::Idle, ObserverInput::Command(command)) => {
            command_agrees(idle, command);
        },
        (PhaseView::Evaluating(event, new_tip), ObserverInput::Evaluated(evaluation)) => {
            let after = ObserverView {
                occurrences: all_counted(idle.occurrences, evaluation.predicates_triggered@),
                ..idle
            };
            let round = idle.first_round(event, new_tip, evaluation);
            let ready = Step { state: after, actions: ObserverView::preparation(round) };
            silence_agrees(after, ready);
            proofs_agree(after, round);
            agreement_adds_up(after, ready, after.proofs_wanted(round));
        },
        (PhaseView::CollectingProof(round, target), ObserverInput::ProofCollected(answer)) => {
            proofs_agree(idle, round);
            if let Ok(proof) = answer {
                proofs_agree(idle, round.with_proof(target, proof@));
            }
        },
        (PhaseView::HandlingTrigger(round), ObserverInput::TriggerHandled(occurrence)) => {
            triggers_agree(idle, round);
            match occurrence {
                Some(ChainhookOccurrence::Http(request, payload)) => {
                    triggers_agree(idle, round.with_request(request, payload));
                },
                Some(ChainhookOccurrence::Data(payload)) => {
                    let news = Step { state: idle, actions: idle.occurrence_told(payload) };
                    silence_agrees(idle, news);
                    agreement_adds_up(idle, news, idle.triggers_wanted(round));
                },
                _ => {},
            }
        },
        (
            PhaseView::SendingRequest(round, payload),
            ObserverInput::RequestSent { outcome, predicate_key },
        ) => {
            let news = match outcome {
                Ok(_) => Step { state: idle, actions: idle.occurrence_told(payload) },
                Err(error) => idle.predicate_interrupted(payload, predicate_key, error@),
            };
            silence_agrees(idle, news);
            requests_agree(news.state, round);
            agreement_adds_up(idle, news, news.state.requests_wanted(round));
        },
        (PhaseView::Mutating(pending, blocks), ObserverInput::BlocksMutated(reply)) => {
            completed_event_agrees(
                idle,
                pending,
                match reply {
                    Some(updated_blocks) => updated_blocks@,
                    None => blocks,
                },
            );
        },
        _ => {
            block_step_agrees(state, input);
        },
    }
}

} // verus!
