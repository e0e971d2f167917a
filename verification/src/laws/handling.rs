//! Laws on the handling of a chain event as a whole.

use vstd::prelude::*;

use crate::chain::EventView;
use crate::commands::{ObserverCommand, ObserverEventView};
use crate::laws::commands::deregistering_concerns_one_hook;
use crate::laws::counting::{
    counts_fit_unless_too_great, is_sorted_out, tallied, triggers_are_sorted_out,
};
use crate::laws::course::{
    answers, brought, brought_by_the_first, data_events, failed, farewells, has_lost, heard_of,
    is_wanted, next_target_skips_what_is_at_hand, occurrence_event, one_more_is_gone, outcome_event,
    outcome_events, sendings, targets_are_what_is_wanted, texts, trace, trace_of_one, traces_add_up,
    wants_any, Answers, Trace,
};
use crate::laws::events::{
    gains, highest_header_is_tip, is_stacks_tip_of, is_tip_of, stacks_event_is_evaluated_as_it_came,
    stacks_gained_in,
};
use crate::laws::report::{evaluation_is_reported_in_full, is_report_on};
use crate::laws::runs::{
    accepted_at, after_twice, is_answer, next, payload_uuid, propagates, run, run_goes_on,
};
use crate::metrics::Metric;
use crate::proofs::{has_proof, next_target, ProofTarget, ProofView};
use crate::protocol::{
    ChainhookOccurrence, ObserverActionView, ObserverInput, OccurrencePayload, PhaseView, RoundView,
};
use crate::report::ReportView;
use crate::transition::{ObserverView, Step};
use crate::triggers::{admitted, all_counted, exhausted, tally_fits, Evaluation, TriggerChainhook};

verus! {

/// Where the handling of an event starts from: the state in which the event was
/// propagated, its chain, and the new tip that it leads to.
pub struct Origin {
    pub state: ObserverView,
    pub bitcoin: bool,
    pub tip: u64,
}

/// The triggers of an evaluation that stay within their limits.
pub open spec fn within(origin: Origin, evaluation: Evaluation) -> Seq<TriggerChainhook> {
    admitted(origin.state.occurrences, evaluation.predicates_triggered@)
}

/// The uuids of the triggers of an evaluation that exceed their limits.
pub open spec fn beyond(origin: Origin, evaluation: Evaluation) -> Seq<String> {
    exhausted(origin.state.occurrences, evaluation.predicates_triggered@)
}

/// Nothing was answered, and nothing but the evaluation can have been asked.
spec fn has_just_begun(origin: Origin, given: Answers, done: Trace, state: ObserverView) -> bool {
    &&& given == Answers::empty()
    &&& done.connections == 0
    &&& done.asked.len() == 0
    &&& done.handled.len() == 0
    &&& done.sent.len() == 0
    &&& done.told.len() == 0
    &&& done.tips.len() == 0
    &&& state.links == origin.state.links
    &&& state.occurrences == origin.state.occurrences
    &&& state.bitcoin_hooks == origin.state.bitcoin_hooks
    &&& state.stacks_hooks == origin.state.stacks_hooks
}

/// What holds all through a round.
spec fn is_in_round(
    origin: Origin,
    given: Answers,
    done: Trace,
    state: ObserverView,
    round: RoundView,
) -> bool {
    &&& given.evaluations.len() == 1
    &&& state.links == origin.state.links
    &&& state.occurrences == all_counted(
        origin.state.occurrences,
        given.evaluations[0].predicates_triggered@,
    )
    &&& round.event is BitcoinChainEvent == origin.bitcoin
    &&& round.new_tip == origin.tip
    &&& round.report == given.evaluations[0].spec_report()
    &&& done.handed == seq![round.event]
    &&& done.tips.len() == 0
    &&& done.connections == if origin.bitcoin && wants_any(within(origin, given.evaluations[0])) {
        1nat
    } else {
        0nat
    }
    &&& given.proofs.len() <= done.asked.len()
    &&& round.proofs == brought(done.asked, given.proofs)
    &&& forall|target: ProofTarget| #[trigger]
        done.asked.contains(target) ==> origin.bitcoin && is_wanted(
            within(origin, given.evaluations[0]),
            target,
        )
    &&& forall|k: int|
        0 <= k < given.requests.len() ==> (#[trigger] given.requests[k]).payload is Bitcoin
            == origin.bitcoin
}

/// What is wanted is still to be gone through, or was asked for, or is at hand.
spec fn is_covered(
    triggers: Seq<TriggerChainhook>,
    left: Seq<ProofTarget>,
    asked: Seq<ProofTarget>,
    proofs: Seq<ProofView>,
) -> bool {
    forall|target: ProofTarget| #[trigger]
        is_wanted(triggers, target) ==> left.contains(target) || asked.contains(target)
            || has_proof(proofs, target.transaction_identifier.hash@)
}

/// While proofs are collected.
spec fn is_collecting(
    origin: Origin,
    given: Answers,
    done: Trace,
    state: ObserverView,
    round: RoundView,
) -> bool {
    let evaluation = given.evaluations[0];
    &&& is_in_round(origin, given, done, state, round)
    &&& round.triggers == within(origin, evaluation)
    &&& round.hooks_ids_to_deregister == beyond(origin, evaluation)
    &&& round.requests.len() == 0
    &&& given.data.len() == 0
    &&& given.requests.len() == 0
    &&& given.outcomes.len() == 0
    &&& done.handled.len() == 0
    &&& done.sent.len() == 0
    &&& done.told.len() == 0
    &&& state.bitcoin_hooks == origin.state.bitcoin_hooks
    &&& state.stacks_hooks == origin.state.stacks_hooks
    &&& forall|target: ProofTarget| #[trigger]
        round.targets.contains(target) ==> origin.bitcoin && is_wanted(round.triggers, target)
    &&& origin.bitcoin ==> is_covered(round.triggers, round.targets, done.asked, round.proofs)
}

/// The proofs for the triggers of a round.
pub open spec fn proofs_for(bitcoin: bool, proofs: Seq<ProofView>) -> Option<Seq<ProofView>> {
    if bitcoin {
        Some(proofs)
    } else {
        None
    }
}

/// The first of the triggers were handled, in order, each with the proofs that
/// were brought.
pub open spec fn are_handled(
    triggers: Seq<TriggerChainhook>,
    proofs: Option<Seq<ProofView>>,
    handled: Seq<(TriggerChainhook, Option<Seq<ProofView>>)>,
) -> bool {
    &&& handled.len() <= triggers.len()
    &&& forall|k: int|
        0 <= k < handled.len() ==> #[trigger] handled[k] == (triggers[k], proofs)
}

/// While triggers are handled.
spec fn is_handling(
    origin: Origin,
    given: Answers,
    done: Trace,
    state: ObserverView,
    round: RoundView,
) -> bool {
    let triggers = within(origin, given.evaluations[0]);
    &&& is_in_round(origin, given, done, state, round)
    &&& given.proofs.len() == done.asked.len()
    &&& round.hooks_ids_to_deregister == beyond(origin, given.evaluations[0])
    &&& round.requests == given.requests
    &&& given.outcomes.len() == 0
    &&& are_handled(triggers, proofs_for(origin.bitcoin, round.proofs), done.handled)
    &&& round.triggers == triggers.skip(done.handled.len() as int)
    &&& done.sent.len() == 0
    &&& done.told == heard_of(
        origin.state.links.listener,
        seq![ObserverEventView::PredicatesTriggered(triggers.len())] + data_events(given.data),
    )
    &&& state.bitcoin_hooks == origin.state.bitcoin_hooks
    &&& state.stacks_hooks == origin.state.stacks_hooks
    &&& origin.bitcoin ==> is_covered(triggers, Seq::empty(), done.asked, round.proofs)
}

/// While requests are sent.
spec fn is_sending(
    origin: Origin,
    given: Answers,
    done: Trace,
    state: ObserverView,
    round: RoundView,
) -> bool {
    let triggers = within(origin, given.evaluations[0]);
    let uuids = beyond(origin, given.evaluations[0]);
    &&& is_in_round(origin, given, done, state, round)
    &&& given.proofs.len() == done.asked.len()
    &&& given.outcomes.len() <= done.sent.len() <= given.requests.len()
    &&& round.requests == given.requests.skip(done.sent.len() as int)
    &&& are_handled(triggers, proofs_for(origin.bitcoin, round.proofs), done.handled)
    &&& done.handled.len() == triggers.len()
    &&& done.sent == sendings(given.requests.take(done.sent.len() as int))
    &&& done.told == heard_of(
        origin.state.links.listener,
        seq![ObserverEventView::PredicatesTriggered(triggers.len())] + data_events(given.data)
            + farewells(uuids) + outcome_events(given.requests, given.outcomes),
    )
    &&& has_lost(
        origin.state,
        origin.bitcoin,
        texts(uuids) + failed(given.requests, given.outcomes),
        state,
    )
    &&& origin.bitcoin ==> is_covered(triggers, Seq::empty(), done.asked, round.proofs)
}

/// The chain event together with the report, as the listener hears of it.
pub open spec fn closing_event(
    event: EventView,
    report: ReportView,
) -> ObserverEventView {
    match event {
        EventView::BitcoinChainEvent(event) => ObserverEventView::BitcoinChainEvent(event, report),
        EventView::StacksChainEvent(event) => ObserverEventView::StacksChainEvent(event, report),
    }
}

/// The height up to which a chain is evaluated, as the monitoring hears of it.
pub open spec fn closing_metric(bitcoin: bool, tip: u64) -> Metric {
    if bitcoin {
        Metric::BitcoinBlockEvaluated(tip)
    } else {
        Metric::StacksBlockEvaluated(tip)
    }
}

/// Once the round is over.
spec fn is_over(origin: Origin, given: Answers, done: Trace, state: ObserverView) -> bool {
    let evaluation = given.evaluations[0];
    let triggers = within(origin, evaluation);
    let uuids = beyond(origin, evaluation);
    let proofs = brought(done.asked, given.proofs);
    &&& given.evaluations.len() == 1
    &&& state.links == origin.state.links
    &&& state.occurrences == all_counted(
        origin.state.occurrences,
        evaluation.predicates_triggered@,
    )
    &&& done.handed.len() == 1
    &&& done.handed[0] is BitcoinChainEvent == origin.bitcoin
    &&& done.tips == seq![closing_metric(origin.bitcoin, origin.tip)]
    &&& done.connections == if origin.bitcoin && wants_any(triggers) {
        1nat
    } else {
        0nat
    }
    &&& given.proofs.len() == done.asked.len()
    &&& forall|target: ProofTarget| #[trigger]
        done.asked.contains(target) ==> origin.bitcoin && is_wanted(triggers, target)
    &&& origin.bitcoin ==> is_covered(triggers, Seq::empty(), done.asked, proofs)
    &&& are_handled(triggers, proofs_for(origin.bitcoin, proofs), done.handled)
    &&& done.handled.len() == triggers.len()
    &&& given.outcomes.len() == given.requests.len()
    &&& done.sent == sendings(given.requests)
    &&& done.told == heard_of(
        origin.state.links.listener,
        seq![ObserverEventView::PredicatesTriggered(triggers.len())] + data_events(given.data)
            + farewells(uuids) + outcome_events(given.requests, given.outcomes)
            + seq![closing_event(done.handed[0], evaluation.spec_report())],
    )
    &&& has_lost(
        origin.state,
        origin.bitcoin,
        texts(uuids) + failed(given.requests, given.outcomes),
        state,
    )
}

/// Where the handling of an event stands.
spec fn is_underway(origin: Origin, given: Answers, done: Trace, state: ObserverView) -> bool {
    match state.phase {
        PhaseView::Mutating(pending, _) => {
            &&& has_just_begun(origin, given, done, state)
            &&& done.handed.len() == 0
            &&& origin.bitcoin
            &&& pending.new_tip == origin.tip
        },
        PhaseView::Evaluating(event, tip) => {
            &&& has_just_begun(origin, given, done, state)
            &&& done.handed == seq![event]
            &&& event is BitcoinChainEvent == origin.bitcoin
            &&& tip == origin.tip
        },
        PhaseView::CollectingProof(round, target) => {
            &&& is_collecting(origin, given, done, state, round)
            &&& done.asked.len() == given.proofs.len() + 1
            &&& done.asked.last() == target
        },
        PhaseView::HandlingTrigger(round) => is_handling(origin, given, done, state, round),
        PhaseView::SendingRequest(round, payload) => {
            &&& is_sending(origin, given, done, state, round)
            &&& done.sent.len() == given.outcomes.len() + 1
            &&& payload == given.requests[given.outcomes.len() as int].payload
        },
        PhaseView::Idle => is_over(origin, given, done, state),
        _ => false,
    }
}

/// The same, of a step with all the actions up to it.
spec fn stands(origin: Origin, given: Answers, at: Step) -> bool {
    let done = trace(at.actions);
    &&& is_underway(origin, given, done, at.state)
    &&& at.state.phase is Idle && origin.state.links.listener ==> at.actions.len() > 0
        && at.actions.last() == ObserverActionView::Emit(
        closing_event(done.handed[0], given.evaluations[0].spec_report()),
    )
}

proof fn requests_follow(
    origin: Origin,
    given: Answers,
    actions: Seq<ObserverActionView>,
    state: ObserverView,
    round: RoundView,
)
    requires
        is_sending(origin, given, trace(actions), state, round),
        given.outcomes.len() == trace(actions).sent.len(),
    ensures
        stands(origin, given, state.requests_wanted(round).after(actions)),
        trace(state.requests_wanted(round).actions).others.len() == 0,
{
    let done = trace(actions);
    let n = done.sent.len() as int;
    let step = state.requests_wanted(round);
    traces_add_up(actions, step.actions);
    if round.requests.len() > 0 {
        trace_of_one(step.actions[0]);
        assert(step.actions =~= seq![step.actions[0]]);
        let more = trace(actions + step.actions);
        let rest = RoundView { requests: round.requests.drop_first(), ..round };
        assert(given.requests[n] == round.requests[0]);
        assert(rest.requests =~= given.requests.skip(n + 1));
        assert(more.sent =~= sendings(given.requests.take(n + 1)));
        assert(more.asked =~= done.asked);
        assert(more.handed =~= done.handed);
        assert(more.handled =~= done.handled);
        assert(more.told =~= done.told);
        assert(is_sending(origin, given, more, state.in_phase(step.state.phase), rest));
    } else {
        let conclusion = state.conclusion(round);
        let metric = ObserverActionView::Measure(closing_metric(origin.bitcoin, origin.tip));
        let event = closing_event(round.event, round.report);
        trace_of_one(metric);
        trace_of_one(ObserverActionView::Emit(event));
        traces_add_up(seq![metric], state.emission(event));
        assert(conclusion =~= seq![metric] + state.emission(event));
        assert(trace(Seq::<ObserverActionView>::empty()) == Trace::empty());
        let more = trace(actions + step.actions);
        assert(given.requests.len() == n);
        assert(given.requests.take(n) =~= given.requests);
        assert(more.asked =~= done.asked);
        assert(more.handed =~= done.handed);
        assert(more.handled =~= done.handled);
        assert(more.sent =~= done.sent);
        assert(more.tips =~= seq![closing_metric(origin.bitcoin, origin.tip)]);
        let evaluation = given.evaluations[0];
        let triggers = within(origin, evaluation);
        let before = seq![ObserverEventView::PredicatesTriggered(triggers.len())] + data_events(
            given.data,
        ) + farewells(beyond(origin, evaluation)) + outcome_events(given.requests, given.outcomes);
        assert(more.told =~= heard_of(origin.state.links.listener, before + seq![event]));
    }
}

proof fn trace_of_metric_and_emission(
    state: ObserverView,
    metric: Seq<ObserverActionView>,
    event: ObserverEventView,
)
    requires
        metric.len() == 0 || metric == seq![
            ObserverActionView::Measure(Metric::BitcoinPredicateDeregistered),
        ] || metric == seq![ObserverActionView::Measure(Metric::StacksPredicateDeregistered)],
    ensures
        trace(metric + state.emission(event)) == (Trace {
            told: heard_of(state.links.listener, seq![event]),
            ..Trace::empty()
        }),
        trace(state.emission(event)) == (Trace {
            told: heard_of(state.links.listener, seq![event]),
            ..Trace::empty()
        }),
{
    traces_add_up(metric, state.emission(event));
    trace_of_one(ObserverActionView::Emit(event));
    assert(trace(Seq::<ObserverActionView>::empty()) == Trace::empty());
    if metric.len() > 0 {
        trace_of_one(metric[0]);
    } else {
        assert(metric =~= Seq::empty());
    }
    assert(trace(metric) == Trace::empty());
    assert(trace(metric + state.emission(event)) =~= Trace {
        told: heard_of(state.links.listener, seq![event]),
        ..Trace::empty()
    });
    assert(trace(state.emission(event)) =~= Trace {
        told: heard_of(state.links.listener, seq![event]),
        ..Trace::empty()
    });
}

pub(crate) proof fn deregistrations_follow(state: ObserverView, bitcoin: bool, uuids: Seq<String>)
    ensures
        ({
            let step = state.hooks_deregistered(bitcoin, uuids);
            &&& trace(step.actions) == (Trace {
                told: heard_of(state.links.listener, farewells(uuids)),
                ..Trace::empty()
            })
            &&& step.state.links == state.links
            &&& step.state.occurrences == state.occurrences
            &&& has_lost(state, bitcoin, texts(uuids), step.state)
        }),
    decreases uuids.len(),
{
    let step = state.hooks_deregistered(bitcoin, uuids);
    if uuids.len() == 0 {
        assert(farewells(uuids) =~= Seq::empty());
        assert(texts(uuids) =~= Seq::empty());
    } else {
        let shorter = uuids.drop_last();
        let uuid = uuids.last();
        let before = state.hooks_deregistered(bitcoin, shorter);
        let last = if bitcoin {
            before.state.bitcoin_hook_deregistered(uuid)
        } else {
            before.state.stacks_hook_deregistered(uuid)
        };
        deregistrations_follow(state, bitcoin, shorter);
        traces_add_up(before.actions, last.actions);
        let event = ObserverEventView::PredicateDeregistered(uuid);
        let metric = last.actions.take(last.actions.len() - before.state.emission(event).len());
        assert(last.actions =~= metric + before.state.emission(event));
        if metric.len() > 0 {
            assert(metric =~= seq![metric[0]]);
        }
        trace_of_metric_and_emission(before.state, metric, event);
        assert(farewells(uuids) =~= farewells(shorter).push(event));
        assert(texts(uuids) =~= texts(shorter).push(uuid@));
        if bitcoin {
            deregistering_concerns_one_hook(before.state.bitcoin_hooks, uuid@);
            one_more_is_gone(
                state.bitcoin_hooks,
                texts(shorter),
                before.state.bitcoin_hooks,
                uuid@,
                last.state.bitcoin_hooks,
            );
        } else {
            deregistering_concerns_one_hook(before.state.stacks_hooks, uuid@);
            one_more_is_gone(
                state.stacks_hooks,
                texts(shorter),
                before.state.stacks_hooks,
                uuid@,
                last.state.stacks_hooks,
            );
        }
        assert(trace(step.actions) =~= Trace {
            told: heard_of(state.links.listener, farewells(uuids)),
            ..Trace::empty()
        });
    }
}

proof fn triggers_follow(
    origin: Origin,
    given: Answers,
    actions: Seq<ObserverActionView>,
    state: ObserverView,
    round: RoundView,
)
    requires
        is_handling(origin, given, trace(actions), state, round),
    ensures
        stands(origin, given, state.triggers_wanted(round).after(actions)),
        trace(state.triggers_wanted(round).actions).others.len() == 0,
{
    let done = trace(actions);
    let n = done.handled.len() as int;
    let triggers = within(origin, given.evaluations[0]);
    let uuids = beyond(origin, given.evaluations[0]);
    let step = state.triggers_wanted(round);
    if round.triggers.len() > 0 {
        traces_add_up(actions, step.actions);
        trace_of_one(step.actions[0]);
        assert(step.actions =~= seq![step.actions[0]]);
        let more = trace(actions + step.actions);
        let rest = RoundView { triggers: round.triggers.drop_first(), ..round };
        assert(triggers[n] == round.triggers[0]);
        assert(rest.triggers =~= triggers.skip(n + 1));
        assert(more.handled =~= done.handled.push(
            (triggers[n], proofs_for(origin.bitcoin, round.proofs)),
        ));
        assert(more.asked =~= done.asked);
        assert(more.handed =~= done.handed);
        assert(more.told =~= done.told);
        assert(is_handling(origin, given, more, state.in_phase(step.state.phase), rest));
    } else {
        let deregistered = state.hooks_deregistered(origin.bitcoin, uuids);
        let before = actions + deregistered.actions;
        let rest = RoundView { hooks_ids_to_deregister: Seq::empty(), ..round };
        deregistrations_follow(state, origin.bitcoin, uuids);
        traces_add_up(actions, deregistered.actions);
        let more = trace(before);
        assert(triggers.len() == n);
        assert(more.asked =~= done.asked);
        assert(more.handed =~= done.handed);
        assert(more.handled =~= done.handled);
        assert(more.sent =~= Seq::empty());
        assert(given.requests.take(0) =~= Seq::empty());
        assert(sendings(given.requests.take(0)) =~= Seq::empty());
        assert(given.requests.skip(0) =~= given.requests);
        assert(outcome_events(given.requests, given.outcomes) =~= Seq::empty());
        assert(failed(given.requests, given.outcomes) =~= Seq::empty());
        assert(texts(uuids) + Seq::<Seq<char>>::empty() =~= texts(uuids));
        assert(more.told =~= heard_of(
            origin.state.links.listener,
            seq![ObserverEventView::PredicatesTriggered(triggers.len())] + data_events(given.data)
                + farewells(uuids) + outcome_events(given.requests, given.outcomes),
        ));
        assert(is_sending(origin, given, more, deregistered.state, rest));
        requests_follow(origin, given, before, deregistered.state, rest);
        traces_add_up(deregistered.actions, deregistered.state.requests_wanted(rest).actions);
        after_twice(
            deregistered.state.requests_wanted(rest),
            actions,
            deregistered.actions,
        );
    }
}

proof fn proofs_follow(
    origin: Origin,
    given: Answers,
    actions: Seq<ObserverActionView>,
    state: ObserverView,
    round: RoundView,
)
    requires
        is_collecting(origin, given, trace(actions), state, round),
        given.proofs.len() == trace(actions).asked.len(),
    ensures
        stands(origin, given, state.proofs_wanted(round).after(actions)),
        trace(state.proofs_wanted(round).actions).others.len() == 0,
{
    let done = trace(actions);
    let triggers = within(origin, given.evaluations[0]);
    let step = state.proofs_wanted(round);
    match next_target(round.targets, round.proofs) {
        Some((target, left)) => {
            traces_add_up(actions, step.actions);
            trace_of_one(step.actions[0]);
            assert(step.actions =~= seq![step.actions[0]]);
            let more = trace(actions + step.actions);
            let rest = RoundView { targets: left, ..round };
            assert(more.asked =~= done.asked + seq![target]);
            assert(more.asked =~= done.asked.push(target));
            assert(more.handed =~= done.handed);
            brought_by_the_first(done.asked, seq![target], given.proofs);
            next_target_skips_what_is_at_hand(round.targets, round.proofs, target);
            assert forall|other: ProofTarget| #[trigger]
                more.asked.contains(other) implies origin.bitcoin && is_wanted(
                triggers,
                other,
            ) by {
                let k = choose|k: int| 0 <= k < more.asked.len() && more.asked[k] == other;
                if k < done.asked.len() {
                    assert(done.asked[k] == other);
                    assert(done.asked.contains(other));
                }
            }
            assert forall|other: ProofTarget| #[trigger] left.contains(other) implies origin.bitcoin
                && is_wanted(round.triggers, other) by {
                next_target_skips_what_is_at_hand(round.targets, round.proofs, other);
            }
            if origin.bitcoin {
                assert forall|other: ProofTarget| #[trigger]
                    is_wanted(triggers, other) implies left.contains(other) || more.asked.contains(
                    other,
                ) || has_proof(round.proofs, other.transaction_identifier.hash@) by {
                    next_target_skips_what_is_at_hand(round.targets, round.proofs, other);
                    assert(more.asked[done.asked.len() as int] == target);
                    if done.asked.contains(other) {
                        let k = choose|k: int| 0 <= k < done.asked.len() && done.asked[k] == other;
                        assert(more.asked[k] == other);
                    }
                }
            }
            assert(is_collecting(origin, given, more, state.in_phase(step.state.phase), rest));
        },
        None => {
            let event = ObserverEventView::PredicatesTriggered(triggers.len());
            let emission = state.emission(event);
            let before = actions + emission;
            let rest = RoundView { targets: Seq::empty(), ..round };
            trace_of_metric_and_emission(state, Seq::empty(), event);
            traces_add_up(actions, emission);
            let more = trace(before);
            assert(more.asked =~= done.asked);
            assert(more.handed =~= done.handed);
            assert(more.handled =~= Seq::empty());
            assert(data_events(given.data) =~= Seq::empty());
            assert(more.told =~= heard_of(
                origin.state.links.listener,
                seq![event] + data_events(given.data),
            ));
            assert(triggers.skip(0) =~= triggers);
            assert(rest.requests =~= given.requests);
            if origin.bitcoin {
                assert forall|other: ProofTarget| #[trigger]
                    is_wanted(triggers, other) implies done.asked.contains(other) || has_proof(
                    round.proofs,
                    other.transaction_identifier.hash@,
                ) by {
                    next_target_skips_what_is_at_hand(round.targets, round.proofs, other);
                }
            }
            assert(is_handling(origin, given, more, state, rest));
            triggers_follow(origin, given, before, state, rest);
            traces_add_up(emission, state.triggers_wanted(rest).actions);
            after_twice(state.triggers_wanted(rest), actions, emission);
        },
    }
}

proof fn evaluation_follows(
    origin: Origin,
    given: Answers,
    at: Step,
    event: EventView,
    tip: u64,
    evaluation: Evaluation,
)
    requires
        stands(origin, given, at),
        at.state.phase == PhaseView::Evaluating(event, tip),
    ensures
        stands(
            origin,
            given.with(ObserverInput::Evaluated(evaluation)),
            next(at, ObserverInput::Evaluated(evaluation)),
        ),
        trace(at.state.step(ObserverInput::Evaluated(evaluation)).actions).others.len() == 0,
{
    reveal(next);
    let done = trace(at.actions);
    let more = given.with(ObserverInput::Evaluated(evaluation));
    let idle = at.state.in_phase(PhaseView::Idle);
    let state = ObserverView {
        occurrences: all_counted(idle.occurrences, evaluation.predicates_triggered@),
        ..idle
    };
    let round = idle.first_round(event, tip, evaluation);
    let preparation = ObserverView::preparation(round);
    let before = at.actions + preparation;
    traces_add_up(at.actions, preparation);
    trace_of_one(ObserverActionView::ConnectNode);
    assert(trace(Seq::<ObserverActionView>::empty()) == Trace::empty());
    let after = trace(before);
    assert(after.asked =~= Seq::empty());
    assert(after.handed =~= done.handed);
    assert(more.evaluations[0] == evaluation);
    assert(round.proofs =~= brought(after.asked, more.proofs));
    assert forall|target: ProofTarget| #[trigger]
        round.targets.contains(target) implies origin.bitcoin && is_wanted(
        round.triggers,
        target,
    ) by {
        targets_are_what_is_wanted(round.triggers, target);
    }
    if origin.bitcoin {
        assert forall|target: ProofTarget| #[trigger]
            is_wanted(round.triggers, target) implies round.targets.contains(target) by {
            targets_are_what_is_wanted(round.triggers, target);
        }
    }
    assert(is_collecting(origin, more, after, state, round));
    proofs_follow(origin, more, before, state, round);
    traces_add_up(preparation, state.proofs_wanted(round).actions);
    after_twice(state.proofs_wanted(round), at.actions, preparation);
}

proof fn proof_follows(
    origin: Origin,
    given: Answers,
    at: Step,
    round: RoundView,
    target: ProofTarget,
    answer: Result<Vec<u8>, String>,
)
    requires
        stands(origin, given, at),
        at.state.phase == PhaseView::CollectingProof(round, target),
    ensures
        stands(
            origin,
            given.with(ObserverInput::ProofCollected(answer)),
            next(at, ObserverInput::ProofCollected(answer)),
        ),
        trace(at.state.step(ObserverInput::ProofCollected(answer)).actions).others.len() == 0,
{
    reveal(next);
    let done = trace(at.actions);
    let more = given.with(ObserverInput::ProofCollected(answer));
    let idle = at.state.in_phase(PhaseView::Idle);
    assert(more.proofs.drop_last() =~= given.proofs);
    let longer = match answer {
        Ok(proof) => round.with_proof(target, proof@),
        Err(_) => round,
    };
    assert(longer.proofs =~= brought(done.asked, more.proofs));
    if origin.bitcoin {
        assert forall|other: ProofTarget| #[trigger]
            is_wanted(round.triggers, other) implies round.targets.contains(other)
            || done.asked.contains(other) || has_proof(
            longer.proofs,
            other.transaction_identifier.hash@,
        ) by {
            if has_proof(round.proofs, other.transaction_identifier.hash@) {
                let k = choose|k: int|
                    0 <= k < round.proofs.len() && (#[trigger] round.proofs[k]).hash
                        == other.transaction_identifier.hash@;
                assert(longer.proofs[k] == round.proofs[k]);
            }
        }
    }
    assert(is_collecting(origin, more, done, idle, longer));
    proofs_follow(origin, more, at.actions, idle, longer);
}

proof fn occurrence_follows(
    origin: Origin,
    given: Answers,
    at: Step,
    round: RoundView,
    occurrence: Option<ChainhookOccurrence>,
)
    requires
        stands(origin, given, at),
        at.state.phase == PhaseView::HandlingTrigger(round),
        at.state.accepts(ObserverInput::TriggerHandled(occurrence)),
    ensures
        stands(
            origin,
            given.with(ObserverInput::TriggerHandled(occurrence)),
            next(at, ObserverInput::TriggerHandled(occurrence)),
        ),
        trace(at.state.step(ObserverInput::TriggerHandled(occurrence)).actions).others.len() == 0,
{
    reveal(next);
    let done = trace(at.actions);
    let more = given.with(ObserverInput::TriggerHandled(occurrence));
    let idle = at.state.in_phase(PhaseView::Idle);
    match occurrence {
        Some(ChainhookOccurrence::Http(request, payload)) => {
            let longer = round.with_request(request, payload);
            assert(is_handling(origin, more, done, idle, longer));
            triggers_follow(origin, more, at.actions, idle, longer);
        },
        Some(ChainhookOccurrence::Data(payload)) => {
            let event = occurrence_event(payload);
            let emission = idle.emission(event);
            let before = at.actions + emission;
            trace_of_metric_and_emission(idle, Seq::empty(), event);
            traces_add_up(at.actions, emission);
            let after = trace(before);
            let first = seq![
                ObserverEventView::PredicatesTriggered(
                    within(origin, given.evaluations[0]).len(),
                ),
            ];
            assert(after.asked =~= done.asked);
            assert(after.handed =~= done.handed);
            assert(after.handled =~= done.handled);
            assert(data_events(more.data) =~= data_events(given.data).push(event));
            assert(after.told =~= heard_of(
                origin.state.links.listener,
                first + data_events(more.data),
            ));
            assert(is_handling(origin, more, after, idle, round));
            triggers_follow(origin, more, before, idle, round);
            traces_add_up(emission, idle.triggers_wanted(round).actions);
            after_twice(idle.triggers_wanted(round), at.actions, emission);
        },
        _ => {
            triggers_follow(origin, more, at.actions, idle, round);
        },
    }
}

proof fn outcome_follows(
    origin: Origin,
    given: Answers,
    at: Step,
    round: RoundView,
    payload: OccurrencePayload,
    outcome: Result<(), String>,
    predicate_key: String,
)
    requires
        stands(origin, given, at),
        at.state.phase == PhaseView::SendingRequest(round, payload),
    ensures
        stands(
            origin,
            given.with(ObserverInput::RequestSent { outcome, predicate_key }),
            next(at, ObserverInput::RequestSent { outcome, predicate_key }),
        ),
        trace(
            at.state.step(ObserverInput::RequestSent { outcome, predicate_key }).actions,
        ).others.len() == 0,
{
    reveal(next);
    let done = trace(at.actions);
    let more = given.with(ObserverInput::RequestSent { outcome, predicate_key });
    let n = given.outcomes.len() as int;
    let idle = at.state.in_phase(PhaseView::Idle);
    let uuids = beyond(origin, given.evaluations[0]);
    let request = given.requests[n];
    let event = outcome_event(request, (outcome, predicate_key));
    let emission = idle.emission(event);
    let before = at.actions + emission;
    trace_of_metric_and_emission(idle, Seq::empty(), event);
    traces_add_up(at.actions, emission);
    let after = trace(before);
    let first = seq![
        ObserverEventView::PredicatesTriggered(within(origin, given.evaluations[0]).len()),
    ] + data_events(given.data) + farewells(uuids);
    assert(after.asked =~= done.asked);
    assert(after.handed =~= done.handed);
    assert(after.handled =~= done.handled);
    assert(after.sent =~= done.sent);
    assert(more.outcomes.drop_last() =~= given.outcomes);
    assert(outcome_events(given.requests, more.outcomes) =~= outcome_events(
        given.requests,
        given.outcomes,
    ).push(event));
    assert(after.told =~= heard_of(
        origin.state.links.listener,
        first + outcome_events(given.requests, more.outcomes),
    ));
    let lost = texts(uuids) + failed(given.requests, given.outcomes);
    let state = match outcome {
        Ok(_) => idle,
        Err(error) => idle.predicate_interrupted(payload, predicate_key, error@).state,
    };
    if outcome is Err {
        let uuid = payload_uuid(payload);
        assert(texts(uuids) + failed(given.requests, more.outcomes) =~= lost.push(uuid));
        if origin.bitcoin {
            deregistering_concerns_one_hook(idle.bitcoin_hooks, uuid);
            one_more_is_gone(
                origin.state.bitcoin_hooks,
                lost,
                idle.bitcoin_hooks,
                uuid,
                state.bitcoin_hooks,
            );
        } else {
            deregistering_concerns_one_hook(idle.stacks_hooks, uuid);
            one_more_is_gone(
                origin.state.stacks_hooks,
                lost,
                idle.stacks_hooks,
                uuid,
                state.stacks_hooks,
            );
        }
    }
    assert(is_sending(origin, more, after, state, round));
    requests_follow(origin, more, before, state, round);
    traces_add_up(emission, state.requests_wanted(round).actions);
    after_twice(state.requests_wanted(round), at.actions, emission);
}

/// What comes before an evaluation is neither asked nor told.
proof fn preamble_leaves_no_trace(actions: Seq<ObserverActionView>)
    requires
        forall|i: int|
            0 <= i < actions.len() ==> (#[trigger] actions[i]) is Notify || (actions[i] matches
                ObserverActionView::Measure(metric) && (metric is BitcoinReorg
                || metric is StacksReorg)),
    ensures
        trace(actions) == (Trace { others: actions, ..Trace::empty() }),
    decreases actions.len(),
{
    if actions.len() > 0 {
        let shorter = actions.drop_last();
        assert forall|i: int| 0 <= i < shorter.len() implies (#[trigger] shorter[i]) is Notify || (
        shorter[i] matches ObserverActionView::Measure(metric) && (metric is BitcoinReorg
            || metric is StacksReorg)) by {
            assert(shorter[i] == actions[i]);
        }
        preamble_leaves_no_trace(shorter);
        assert(actions.last() == actions[actions.len() - 1]);
        assert(trace(actions) =~= Trace { others: actions, ..Trace::empty() });
    } else {
        assert(trace(actions) =~= Trace { others: actions, ..Trace::empty() });
    }
}

/// The event that an action asks to be evaluated, if it does.
spec fn event_to_evaluate(action: ObserverActionView) -> Option<EventView> {
    match action {
        ObserverActionView::EvaluateBitcoin(event, _) => Some(EventView::BitcoinChainEvent(event)),
        ObserverActionView::EvaluateStacks(event, _) => Some(EventView::StacksChainEvent(event)),
        _ => None,
    }
}

proof fn request_to_evaluate_follows(
    origin: Origin,
    given: Answers,
    actions: Seq<ObserverActionView>,
    step: Step,
)
    requires
        has_just_begun(origin, given, trace(actions), step.state),
        trace(actions).handed.len() == 0,
        step.state.phase matches PhaseView::Evaluating(event, tip) && tip == origin.tip
            && event is BitcoinChainEvent == origin.bitcoin && step.actions.len() > 0
            && event_to_evaluate(step.actions.last()) == Some(event),
        forall|i: int|
            0 <= i < step.actions.len() - 1 ==> (#[trigger] step.actions[i]) is Notify || (
            step.actions[i] matches ObserverActionView::Measure(metric) && (metric is BitcoinReorg
                || metric is StacksReorg)),
    ensures
        stands(origin, given, step.after(actions)),
{
    let before = step.actions.drop_last();
    let last = step.actions.last();
    assert forall|i: int| 0 <= i < before.len() implies (#[trigger] before[i]) is Notify || (
    before[i] matches ObserverActionView::Measure(metric) && (metric is BitcoinReorg
        || metric is StacksReorg)) by {
        assert(before[i] == step.actions[i]);
    }
    preamble_leaves_no_trace(before);
    assert(step.actions =~= before + seq![last]);
    traces_add_up(before, seq![last]);
    trace_of_one(last);
    traces_add_up(actions, step.actions);
    let done = trace(actions + step.actions);
    match step.state.phase {
        PhaseView::Evaluating(event, _) => {
            assert(done.handed =~= seq![event]);
        },
        _ => {},
    }
}

proof fn completed_event_follows(
    origin: Origin,
    given: Answers,
    actions: Seq<ObserverActionView>,
    state: ObserverView,
    pending: crate::blocks::PendingChainEventView,
    updated: Seq<crate::blocks::BitcoinBlockDataCached>,
)
    requires
        has_just_begun(origin, given, trace(actions), state),
        trace(actions).handed.len() == 0,
        origin.bitcoin,
        pending.new_tip == origin.tip,
    ensures
        stands(origin, given, state.bitcoin_event_completed(pending, updated).after(actions)),
{
    let step = state.bitcoin_event_completed(pending, updated);
    request_to_evaluate_follows(origin, given, actions, step);
}

/// The new tip that an observer knows of that has an event to evaluate.
pub open spec fn tip_of(phase: PhaseView) -> u64 {
    match phase {
        PhaseView::Mutating(pending, _) => pending.new_tip,
        PhaseView::Evaluating(_, tip) => tip,
        _ => 0,
    }
}

/// Where the handling of a propagated event starts from.
pub open spec fn origin_of(state: ObserverView, bitcoin: bool, input: ObserverInput) -> Origin {
    Origin { state, bitcoin, tip: tip_of(state.step(input).state.phase) }
}

proof fn propagation_follows(state: ObserverView, bitcoin: bool, input: ObserverInput)
    requires
        state.phase is Idle,
        propagates(input, bitcoin),
    ensures
        stands(
            origin_of(state, bitcoin, input),
            Answers::empty().with(input),
            next(state.quietly(), input),
        ),
{
    reveal(next);
    let origin = origin_of(state, bitcoin, input);
    let nothing = Seq::<ObserverActionView>::empty();
    let given = Answers::empty();
    let step = state.step(input);
    assert(trace(nothing) == Trace::empty());
    assert(given.with(input) == given);
    assert(state.in_phase(PhaseView::Idle) == state);
    if bitcoin {
        let event = input->Command_0->PropagateBitcoinChainEvent_0;
        let required = state.links.blocks_mutator;
        let resolved = crate::blocks::resolution(state.blocks, event, required);
        let after = ObserverView {
            blocks: crate::blocks::cache_after_resolution(state.blocks, event, required),
            ..state
        };
        if required {
            trace_of_one(step.actions[0]);
            traces_add_up(nothing, step.actions);
            assert(step.actions =~= seq![step.actions[0]]);
            assert(nothing + step.actions =~= step.actions);
        } else {
            completed_event_follows(
                origin,
                given,
                nothing,
                after,
                resolved.pending,
                resolved.blocks_to_mutate,
            );
        }
    } else {
        request_to_evaluate_follows(origin, given, nothing, step);
    }
}

proof fn handling_goes_on(origin: Origin, given: Answers, at: Step, input: ObserverInput)
    requires
        stands(origin, given, at),
        is_answer(input),
        at.state.accepts(input),
    ensures
        stands(origin, given.with(input), next(at, input)),
{
    match (at.state.phase, input) {
        (PhaseView::Mutating(pending, blocks), ObserverInput::BlocksMutated(reply)) => {
            reveal(next);
            completed_event_follows(
                origin,
                given,
                at.actions,
                at.state.in_phase(PhaseView::Idle),
                pending,
                match reply {
                    Some(updated_blocks) => updated_blocks@,
                    None => blocks,
                },
            );
        },
        (PhaseView::Evaluating(event, tip), ObserverInput::Evaluated(evaluation)) => {
            evaluation_follows(origin, given, at, event, tip, evaluation);
        },
        (PhaseView::CollectingProof(round, target), ObserverInput::ProofCollected(answer)) => {
            proof_follows(origin, given, at, round, target, answer);
        },
        (PhaseView::HandlingTrigger(round), ObserverInput::TriggerHandled(occurrence)) => {
            occurrence_follows(origin, given, at, round, occurrence);
        },
        (
            PhaseView::SendingRequest(round, payload),
            ObserverInput::RequestSent { outcome, predicate_key },
        ) => {
            outcome_follows(origin, given, at, round, payload, outcome, predicate_key);
        },
        _ => {},
    }
}

/// Whether some inputs are the whole handling of a chain event: the command to
/// propagate it, and answers until the observer is idle again.
pub open spec fn is_whole_handling(
    state: ObserverView,
    bitcoin: bool,
    inputs: Seq<ObserverInput>,
) -> bool {
    &&& state.phase is Idle
    &&& inputs.len() > 0
    &&& propagates(inputs[0], bitcoin)
    &&& forall|i: int| 0 < i < inputs.len() ==> is_answer(#[trigger] inputs[i])
    &&& forall|i: int| 0 <= i < inputs.len() ==> #[trigger] accepted_at(state, inputs, i)
    &&& run(state, inputs).state.phase is Idle
}

proof fn handling_stands(
    state: ObserverView,
    bitcoin: bool,
    inputs: Seq<ObserverInput>,
    n: int,
)
    requires
        is_whole_handling(state, bitcoin, inputs),
        0 < n <= inputs.len(),
    ensures
        stands(
            origin_of(state, bitcoin, inputs[0]),
            answers(inputs.take(n)),
            run(state, inputs.take(n)),
        ),
    decreases n,
{
    let origin = origin_of(state, bitcoin, inputs[0]);
    let shorter = inputs.take(n - 1);
    run_goes_on(state, inputs, n - 1);
    assert(inputs.take(n).drop_last() =~= shorter);
    assert(inputs.take(n).last() == inputs[n - 1]);
    assert(answers(inputs.take(n)) == answers(shorter).with(inputs[n - 1]));
    if n == 1 {
        assert(shorter =~= Seq::empty());
        assert(run(state, shorter) == state.quietly());
        assert(answers(shorter) == Answers::empty());
        propagation_follows(state, bitcoin, inputs[0]);
    } else {
        handling_stands(state, bitcoin, inputs, n - 1);
        assert(accepted_at(state, inputs, n - 1));
        handling_goes_on(origin, answers(shorter), run(state, shorter), inputs[n - 1]);
    }
}

proof fn handling_is_over(state: ObserverView, bitcoin: bool, inputs: Seq<ObserverInput>)
    requires
        is_whole_handling(state, bitcoin, inputs),
    ensures
        stands(origin_of(state, bitcoin, inputs[0]), answers(inputs), run(state, inputs)),
        is_over(
            origin_of(state, bitcoin, inputs[0]),
            answers(inputs),
            trace(run(state, inputs).actions),
            run(state, inputs).state,
        ),
{
    handling_stands(state, bitcoin, inputs, inputs.len() as int);
    assert(inputs.take(inputs.len() as int) =~= inputs);
}

/// The height is that of the new tip that a propagated event leads to: the greatest
/// among the blocks that the chain gains.
pub open spec fn is_new_tip(input: ObserverInput, tip: u64) -> bool {
    match input {
        ObserverInput::Command(ObserverCommand::PropagateBitcoinChainEvent(event)) => is_tip_of(
            gains(event),
            tip,
        ),
        ObserverInput::Command(ObserverCommand::PropagateStacksChainEvent(event)) => {
            is_stacks_tip_of(stacks_gained_in(event@), tip)
        },
        _ => false,
    }
}

proof fn origin_knows_the_new_tip(state: ObserverView, bitcoin: bool, input: ObserverInput)
    requires
        state.phase is Idle,
        propagates(input, bitcoin),
    ensures
        is_new_tip(input, origin_of(state, bitcoin, input).tip),
{
    if bitcoin {
        let event = input->Command_0->PropagateBitcoinChainEvent_0;
        highest_header_is_tip(gains(event));
    } else {
        stacks_event_is_evaluated_as_it_came(
            state,
            input->Command_0->PropagateStacksChainEvent_0,
        );
    }
}

/// Whether actions and what they leave behind are the full course of an event's
/// handling, where the driver gave the given answers. In order:
/// - the event is evaluated, and its triggers are counted;
/// - the node is connected to, if some trigger that is let through wants proofs,
///   and the proofs are asked for;
/// - the listener hears how many predicates are triggered;
/// - the triggers are handled, in order, with the proofs that were brought, and the
///   listener hears of the data that comes of them;
/// - the predicates beyond their limits are deregistered, and the listener hears of
///   each;
/// - the requests are sent, in order, and the listener hears of each what came of
///   it; a predicate whose request could not be sent is gone;
/// - the monitoring hears of the new tip, and the listener of the event, with the
///   report on its evaluation.
pub open spec fn is_full_course(
    state: ObserverView,
    bitcoin: bool,
    given: Answers,
    step: Step,
    tip: u64,
    through: Seq<TriggerChainhook>,
    gone: Seq<String>,
    report: ReportView,
) -> bool {
    let done = trace(step.actions);
    let evaluation = given.evaluations[0];
    let proofs = brought(done.asked, given.proofs);
    &&& given.evaluations.len() == 1
    &&& done.handed.len() == 1
    &&& done.handed[0] is BitcoinChainEvent == bitcoin
    &&& is_report_on(evaluation, report)
    &&& is_sorted_out(
        state.occurrences,
        evaluation.predicates_triggered@,
        through,
        gone,
        step.state.occurrences,
    )
    &&& done.connections == if bitcoin && wants_any(through) {
        1nat
    } else {
        0nat
    }
    &&& given.proofs.len() == done.asked.len()
    &&& done.handled.len() == through.len()
    &&& are_handled(through, proofs_for(bitcoin, proofs), done.handled)
    &&& given.outcomes.len() == given.requests.len()
    &&& done.sent == sendings(given.requests)
    &&& done.tips == seq![closing_metric(bitcoin, tip)]
    &&& done.told == heard_of(
        state.links.listener,
        seq![ObserverEventView::PredicatesTriggered(through.len())] + data_events(given.data)
            + farewells(gone) + outcome_events(given.requests, given.outcomes)
            + seq![closing_event(done.handed[0], report)],
    )
    &&& has_lost(
        state,
        bitcoin,
        texts(gone) + failed(given.requests, given.outcomes),
        step.state,
    )
}

proof fn evaluation_was_accepted(
    state: ObserverView,
    bitcoin: bool,
    inputs: Seq<ObserverInput>,
    n: int,
)
    requires
        is_whole_handling(state, bitcoin, inputs),
        0 < n <= inputs.len(),
        answers(inputs.take(n)).evaluations.len() == 1,
    ensures
        tally_fits(
            state.occurrences,
            answers(inputs.take(n)).evaluations[0].predicates_triggered@,
        ),
    decreases n,
{
    let shorter = inputs.take(n - 1);
    assert(inputs.take(n).drop_last() =~= shorter);
    assert(inputs.take(n).last() == inputs[n - 1]);
    if n > 1 {
        assert(accepted_at(state, inputs, n - 1));
        handling_stands(state, bitcoin, inputs, n - 1);
        if answers(shorter).evaluations.len() == 1 {
            evaluation_was_accepted(state, bitcoin, inputs, n - 1);
            if let ObserverInput::Evaluated(_) = inputs[n - 1] {
                assert(false);
            }
        }
    } else {
        assert(shorter =~= Seq::empty());
    }
}

/// The handling of every chain event, of either chain, takes its full course.
pub proof fn event_takes_its_full_course(
    state: ObserverView,
    bitcoin: bool,
    inputs: Seq<ObserverInput>,
)
    requires
        is_whole_handling(state, bitcoin, inputs),
    ensures
        exists|tip: u64, through: Seq<TriggerChainhook>, gone: Seq<String>, report: ReportView|
            is_new_tip(inputs[0], tip) && #[trigger] is_full_course(
                state,
                bitcoin,
                answers(inputs),
                run(state, inputs),
                tip,
                through,
                gone,
                report,
            ),
{
    let origin = origin_of(state, bitcoin, inputs[0]);
    let given = answers(inputs);
    let step = run(state, inputs);
    handling_is_over(state, bitcoin, inputs);
    origin_knows_the_new_tip(state, bitcoin, inputs[0]);
    assert(inputs.take(inputs.len() as int) =~= inputs);
    evaluation_was_accepted(state, bitcoin, inputs, inputs.len() as int);
    let evaluation = given.evaluations[0];
    triggers_are_sorted_out(state.occurrences, evaluation.predicates_triggered@);
    evaluation_is_reported_in_full(evaluation);
    assert(is_full_course(
        state,
        bitcoin,
        given,
        step,
        origin.tip,
        within(origin, evaluation),
        beyond(origin, evaluation),
        evaluation.spec_report(),
    ));
}

/// An event that tells of a chain event together with a report.
pub open spec fn tells_of_chain(event: ObserverEventView) -> bool {
    event is BitcoinChainEvent || event is StacksChainEvent
}

/// Where someone listens, the handling of every chain event, of whichever kind, ends
/// with an event that tells of the chain event that was evaluated, together with the
/// report on its evaluation; and no other event in its course tells of a chain event.
pub proof fn event_is_told_once_and_last(
    state: ObserverView,
    bitcoin: bool,
    inputs: Seq<ObserverInput>,
)
    requires
        is_whole_handling(state, bitcoin, inputs),
        state.links.listener,
    ensures
        ({
            let actions = run(state, inputs).actions;
            let done = trace(actions);
            &&& answers(inputs).evaluations.len() == 1
            &&& done.handed.len() == 1
            &&& exists|report: ReportView| #[trigger]
                is_report_on(answers(inputs).evaluations[0], report) && actions.len() > 0
                    && actions.last() == ObserverActionView::Emit(
                    closing_event(done.handed[0], report),
                )
            &&& done.told.len() > 0
            &&& tells_of_chain(done.told.last())
            &&& forall|k: int|
                0 <= k < done.told.len() - 1 ==> !tells_of_chain(#[trigger] done.told[k])
        }),
{
    let given = answers(inputs);
    let done = trace(run(state, inputs).actions);
    handling_is_over(state, bitcoin, inputs);
    evaluation_is_reported_in_full(given.evaluations[0]);
    let origin = origin_of(state, bitcoin, inputs[0]);
    let uuids = beyond(origin, given.evaluations[0]);
    let first = seq![
        ObserverEventView::PredicatesTriggered(within(origin, given.evaluations[0]).len()),
    ];
    let second = first + data_events(given.data);
    let third = second + farewells(uuids);
    let fourth = third + outcome_events(given.requests, given.outcomes);
    let last = closing_event(done.handed[0], given.evaluations[0].spec_report());
    assert(done.told == fourth + seq![last]);
    assert forall|k: int| 0 <= k < done.told.len() - 1 implies !tells_of_chain(
        #[trigger] done.told[k],
    ) by {
        assert(done.told[k] == fourth[k]);
        if k < third.len() {
            assert(fourth[k] == third[k]);
            if k < second.len() {
                assert(third[k] == second[k]);
                if k >= first.len() {
                    assert(second[k] == data_events(given.data)[k - first.len()]);
                }
            } else {
                assert(third[k] == farewells(uuids)[k - second.len()]);
            }
        } else {
            assert(fourth[k] == outcome_events(given.requests, given.outcomes)[k - third.len()]);
        }
    }
}

/// Every transaction of every block that a trigger applies to whose proof the trigger
/// wants, among the triggers that are handled on the Bitcoin chain, was asked for with
/// its block, or its proof was at hand; and nothing else was asked for. For a Stacks
/// chain event nothing is asked for.
pub proof fn wanted_proofs_are_asked_for(
    state: ObserverView,
    bitcoin: bool,
    inputs: Seq<ObserverInput>,
    target: ProofTarget,
)
    requires
        is_whole_handling(state, bitcoin, inputs),
    ensures
        ({
            let done = trace(run(state, inputs).actions);
            let proofs = brought(done.asked, answers(inputs).proofs);
            let triggers = handled_triggers(done);
            &&& bitcoin && is_wanted(triggers, target) ==> done.asked.contains(target) || exists|
                k: int,
            |
                0 <= k < proofs.len() && (#[trigger] proofs[k]).hash
                    == target.transaction_identifier.hash@
            &&& done.asked.contains(target) ==> bitcoin && is_wanted(triggers, target)
        }),
{
    handling_is_over(state, bitcoin, inputs);
    let done = trace(run(state, inputs).actions);
    let origin = origin_of(state, bitcoin, inputs[0]);
    let triggers = within(origin, answers(inputs).evaluations[0]);
    assert(handled_triggers(done) =~= triggers);
    if bitcoin && is_wanted(triggers, target) && !done.asked.contains(target) {
        assert(has_proof(
            brought(done.asked, answers(inputs).proofs),
            target.transaction_identifier.hash@,
        ));
    }
}

/// The triggers that were handled.
pub open spec fn handled_triggers(done: Trace) -> Seq<TriggerChainhook> {
    Seq::new(done.handled.len(), |k: int| done.handled[k].0)
}

proof fn trace_goes_on(at: Step, input: ObserverInput)
    ensures
        trace(next(at, input).actions).handled.len() >= trace(at.actions).handled.len(),
        trace(next(at, input).actions).asked.len() >= trace(at.actions).asked.len(),
        forall|k: int|
            0 <= k < trace(at.actions).asked.len() ==> #[trigger] trace(
                next(at, input).actions,
            ).asked[k] == trace(at.actions).asked[k],
{
    reveal(next);
    traces_add_up(at.actions, at.state.step(input).actions);
}

/// Once a trigger is handled, no more proofs are brought.
proof fn proofs_are_brought_first(origin: Origin, given: Answers, at: Step, input: ObserverInput)
    requires
        stands(origin, given, at),
        trace(at.actions).handled.len() > 0,
    ensures
        trace(at.actions).asked.len() == given.proofs.len(),
        is_answer(input) && at.state.accepts(input) ==> given.with(input).proofs == given.proofs,
{
}

/// No trigger is handled before the last proof is asked for: once one is, whatever
/// the triggers want was asked for or is at hand.
pub proof fn proofs_are_collected_before_triggers_are_handled(
    state: ObserverView,
    bitcoin: bool,
    inputs: Seq<ObserverInput>,
    n: int,
)
    requires
        is_whole_handling(state, bitcoin, inputs),
        0 < n <= inputs.len(),
        trace(run(state, inputs.take(n)).actions).handled.len() > 0,
    ensures
        trace(run(state, inputs.take(n)).actions).asked == trace(run(state, inputs).actions).asked,
    decreases inputs.len() - n,
{
    assert(inputs.take(inputs.len() as int) =~= inputs);
    if n < inputs.len() {
        let origin = origin_of(state, bitcoin, inputs[0]);
        let before = run(state, inputs.take(n));
        let after = run(state, inputs.take(n + 1));
        let input = inputs[n];
        handling_stands(state, bitcoin, inputs, n);
        handling_stands(state, bitcoin, inputs, n + 1);
        run_goes_on(state, inputs, n);
        trace_goes_on(before, input);
        assert(accepted_at(state, inputs, n));
        assert(inputs.take(n + 1).drop_last() =~= inputs.take(n));
        assert(answers(inputs.take(n + 1)) == answers(inputs.take(n)).with(input));
        proofs_are_brought_first(origin, answers(inputs.take(n)), before, input);
        proofs_are_brought_first(origin, answers(inputs.take(n + 1)), after, input);
        assert(trace(after.actions).asked =~= trace(before.actions).asked);
        proofs_are_collected_before_triggers_are_handled(state, bitcoin, inputs, n + 1);
    }
}

proof fn others_go_on(at: Step, input: ObserverInput)
    requires
        trace(at.state.step(input).actions).others.len() == 0,
    ensures
        trace(next(at, input).actions).others == trace(at.actions).others,
{
    reveal(next);
    traces_add_up(at.actions, at.state.step(input).actions);
    assert(trace(next(at, input).actions).others =~= trace(at.actions).others);
}

/// In a round the observer does nothing but what belongs to it.
pub proof fn round_does_nothing_else(
    state: ObserverView,
    bitcoin: bool,
    inputs: Seq<ObserverInput>,
    n: int,
)
    requires
        is_whole_handling(state, bitcoin, inputs),
        0 < n < inputs.len(),
        !(run(state, inputs.take(n)).state.phase is Mutating),
    ensures
        trace(run(state, inputs.take(n + 1)).actions).others == trace(
            run(state, inputs.take(n)).actions,
        ).others,
{
    handling_stands(state, bitcoin, inputs, n);
    run_goes_on(state, inputs, n);
    assert(accepted_at(state, inputs, n));
    let origin = origin_of(state, bitcoin, inputs[0]);
    let given = answers(inputs.take(n));
    let at = run(state, inputs.take(n));
    match (at.state.phase, inputs[n]) {
        (PhaseView::Evaluating(event, tip), ObserverInput::Evaluated(evaluation)) => {
            evaluation_follows(origin, given, at, event, tip, evaluation);
        },
        (PhaseView::CollectingProof(round, target), ObserverInput::ProofCollected(answer)) => {
            proof_follows(origin, given, at, round, target, answer);
        },
        (PhaseView::HandlingTrigger(round), ObserverInput::TriggerHandled(occurrence)) => {
            occurrence_follows(origin, given, at, round, occurrence);
        },
        (
            PhaseView::SendingRequest(round, payload),
            ObserverInput::RequestSent { outcome, predicate_key },
        ) => {
            outcome_follows(origin, given, at, round, payload, outcome, predicate_key);
        },
        _ => {},
    }
    others_go_on(at, inputs[n]);
}

/// An evaluation is taken unless a count could become too great to be written down.
pub proof fn evaluation_is_taken(
    state: ObserverView,
    evaluation: Evaluation,
)
    requires
        state.phase is Evaluating,
        forall|uuid: Seq<char>| #[trigger]
            tallied(state.occurrences, uuid) + evaluation.predicates_triggered@.len() <= u64::MAX,
    ensures
        state.accepts(ObserverInput::Evaluated(evaluation)),
{
    counts_fit_unless_too_great(state.occurrences, evaluation.predicates_triggered@);
}

} // verus!
