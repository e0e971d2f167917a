//! Laws on which predicates a chain event concerns.

use vstd::prelude::*;

use crate::chain::{BlockIdentifier, BlockKey, EventView};
use crate::commands::ObserverEventView;
use crate::hooks::{active_hooks, has_hook};
use crate::laws::runs::{
    accepted_at, asked_trigger, faithful_at, handles_event, is_answer, is_faithful, next,
    payload_uuid, propagates, run, run_goes_on,
};
use crate::protocol::{
    ChainhookOccurrence, ObserverActionView, ObserverInput, OccurrencePayload, PhaseView, RoundView,
};
use crate::report::{noted_blocks, noted_pairs, ReportView};
use crate::transition::{ObserverView, Step};
use crate::triggers::{
    admitted, all_counted, applied_keys, noted_triggers, Evaluation, Tally, TriggerChainhook,
};

verus! {

/// The uuids of the active hooks of a chain.
pub open spec fn active_uuids(state: ObserverView, bitcoin: bool) -> Set<Seq<char>> {
    Set::new(
        |uuid: Seq<char>|
            if bitcoin {
                has_hook(active_hooks(state.bitcoin_hooks), uuid)
            } else {
                has_hook(active_hooks(state.stacks_hooks), uuid)
            },
    )
}

/// Whether an evaluation names a predicate: as evaluated, as triggered or as
/// expired.
pub open spec fn evaluation_names(evaluation: Evaluation, uuid: Seq<char>) -> bool {
    ||| exists|i: int|
        0 <= i < evaluation.predicates_triggered@.len() && (
        #[trigger] evaluation.predicates_triggered@[i]).chainhook.uuid@ == uuid
    ||| exists|i: int|
        0 <= i < evaluation.predicates_evaluated@.len() && (
        #[trigger] evaluation.predicates_evaluated@[i]).0@ == uuid
    ||| exists|i: int|
        0 <= i < evaluation.predicates_expired@.len() && (
        #[trigger] evaluation.predicates_expired@[i]).0@ == uuid
}

/// Whether an evaluation names predicates of a set alone.
pub open spec fn evaluation_stays_in(concerned: Set<Seq<char>>, evaluation: Evaluation) -> bool {
    forall|uuid: Seq<char>| #[trigger]
        evaluation_names(evaluation, uuid) ==> concerned.contains(uuid)
}

/// Whether an input, if it is an evaluation, names predicates of a set alone.
pub open spec fn input_keeps_to(concerned: Set<Seq<char>>, input: ObserverInput) -> bool {
    match input {
        ObserverInput::Evaluated(evaluation) => evaluation_stays_in(concerned, evaluation),
        _ => true,
    }
}

/// The uuids that the evaluations among some inputs name.
pub open spec fn evaluated_uuids(inputs: Seq<ObserverInput>) -> Set<Seq<char>> {
    Set::new(
        |uuid: Seq<char>|
            exists|i: int|
                0 <= i < inputs.len() && ((#[trigger] inputs[i]) matches ObserverInput::Evaluated(
                    evaluation,
                ) && evaluation_names(evaluation, uuid)),
    )
}

/// Whether a report names predicates of a set alone.
pub open spec fn report_keeps_to(concerned: Set<Seq<char>>, report: ReportView) -> bool {
    &&& forall|uuid: Seq<char>| #[trigger]
        report.evaluated.contains_key(uuid) ==> concerned.contains(uuid)
    &&& forall|uuid: Seq<char>| #[trigger]
        report.triggered.contains_key(uuid) ==> concerned.contains(uuid)
    &&& forall|uuid: Seq<char>| #[trigger]
        report.expired.contains_key(uuid) ==> concerned.contains(uuid)
}

/// Whether an action, taken for an event of one chain, is of that chain, hands
/// out the active hooks of that chain alone to be evaluated, and names predicates
/// of a set alone: as triggers to be handled, in the report, and as predicates
/// that were triggered.
pub open spec fn action_keeps_to(
    state: ObserverView,
    bitcoin: bool,
    concerned: Set<Seq<char>>,
    action: ObserverActionView,
) -> bool {
    match action {
        ObserverActionView::EvaluateBitcoin(_, hooks) => {
            bitcoin && hooks == active_hooks(state.bitcoin_hooks)
        },
        ObserverActionView::EvaluateStacks(_, hooks) => {
            !bitcoin && hooks == active_hooks(state.stacks_hooks)
        },
        ObserverActionView::HandleBitcoinTrigger(trigger, _) => {
            bitcoin && concerned.contains(trigger.chainhook.uuid@)
        },
        ObserverActionView::HandleStacksTrigger(trigger) => {
            !bitcoin && concerned.contains(trigger.chainhook.uuid@)
        },
        ObserverActionView::Emit(ObserverEventView::BitcoinPredicateTriggered(payload)) => {
            bitcoin && concerned.contains(payload.chainhook.uuid@)
        },
        ObserverActionView::Emit(ObserverEventView::StacksPredicateTriggered(payload)) => {
            !bitcoin && concerned.contains(payload.chainhook.uuid@)
        },
        ObserverActionView::Emit(ObserverEventView::BitcoinChainEvent(_, report)) => {
            bitcoin && report_keeps_to(concerned, report)
        },
        ObserverActionView::Emit(ObserverEventView::StacksChainEvent(_, report)) => {
            !bitcoin && report_keeps_to(concerned, report)
        },
        _ => true,
    }
}

/// Whether all of some actions keep to a set of predicates.
pub open spec fn actions_keep_to(
    state: ObserverView,
    bitcoin: bool,
    concerned: Set<Seq<char>>,
    actions: Seq<ObserverActionView>,
) -> bool {
    forall|i: int|
        0 <= i < actions.len() ==> action_keeps_to(state, bitcoin, concerned, #[trigger] actions[i])
}

/// Whether an occurrence is of a predicate of the set.
spec fn payload_keeps_to(
    state: ObserverView,
    bitcoin: bool,
    concerned: Set<Seq<char>>,
    payload: OccurrencePayload) -> bool {
    &&& payload is Bitcoin == bitcoin
    &&& concerned.contains(payload_uuid(payload))
}

/// Whether a round is about predicates of the set alone.
spec fn round_keeps_to(
    state: ObserverView,
    bitcoin: bool,
    concerned: Set<Seq<char>>,
    round: RoundView) -> bool {
    &&& round.event is BitcoinChainEvent == bitcoin
    &&& report_keeps_to(concerned, round.report)
    &&& forall|i: int|
        0 <= i < round.triggers.len() ==> concerned.contains(
            (#[trigger] round.triggers[i]).chainhook.uuid@,
        )
    &&& forall|i: int|
        0 <= i < round.requests.len() ==> payload_keeps_to(
            state,
            bitcoin,
            concerned,
            (#[trigger] round.requests[i]).payload,
        )
}

/// What holds at each point of the handling of a chain event that found the
/// store as in `state`.
spec fn keeps_to_concerned(
    state: ObserverView,
    bitcoin: bool,
    concerned: Set<Seq<char>>,
    at: Step) -> bool {
    &&& actions_keep_to(state, bitcoin, concerned, at.actions)
    &&& match at.state.phase {
        PhaseView::Idle => true,
        PhaseView::Mutating(_, _) => {
            &&& bitcoin
            &&& at.state.bitcoin_hooks == state.bitcoin_hooks
            &&& at.state.stacks_hooks == state.stacks_hooks
        },
        PhaseView::Evaluating(event, _) => {
            &&& event is BitcoinChainEvent == bitcoin
            &&& at.actions.len() > 0
            &&& if bitcoin {
                at.actions.last() is EvaluateBitcoin
            } else {
                at.actions.last() is EvaluateStacks
            }
        },
        PhaseView::CollectingProof(round, _) => round_keeps_to(state, bitcoin, concerned, round),
        PhaseView::HandlingTrigger(round) => {
            &&& round_keeps_to(state, bitcoin, concerned, round)
            &&& asked_trigger(at.actions) is Some
        },
        PhaseView::SendingRequest(round, payload) => {
            &&& round_keeps_to(state, bitcoin, concerned, round)
            &&& payload_keeps_to(state, bitcoin, concerned, payload)
        },
        _ => false,
    }
}

proof fn keeps_to_after(
    state: ObserverView,
    bitcoin: bool,
    concerned: Set<Seq<char>>,
    step: Step,
    actions: Seq<ObserverActionView>,
)
    requires
        keeps_to_concerned(state, bitcoin, concerned, step),
        actions_keep_to(state, bitcoin, concerned, actions),
    ensures
        keeps_to_concerned(state, bitcoin, concerned, step.after(actions)),
{
    if step.actions.len() > 0 {
        assert((actions + step.actions).last() == step.actions.last());
    }
}

proof fn deregistrations_keep_to(
    state: ObserverView,
    bitcoin: bool,
    concerned: Set<Seq<char>>,
    at: ObserverView,
    uuids: Seq<String>,
)
    ensures
        actions_keep_to(state, bitcoin, concerned, at.hooks_deregistered(bitcoin, uuids).actions),
    decreases uuids.len(),
{
    if uuids.len() > 0 {
        deregistrations_keep_to(state, bitcoin, concerned, at, uuids.drop_last());
    }
}

proof fn requests_keep_to(
    state: ObserverView,
    bitcoin: bool,
    concerned: Set<Seq<char>>,
    at: ObserverView,
    round: RoundView,
)
    requires
        round_keeps_to(state, bitcoin, concerned, round),
    ensures
        keeps_to_concerned(state, bitcoin, concerned, at.requests_wanted(round)),
{
}

proof fn triggers_keep_to(
    state: ObserverView,
    bitcoin: bool,
    concerned: Set<Seq<char>>,
    at: ObserverView,
    round: RoundView,
)
    requires
        round_keeps_to(state, bitcoin, concerned, round),
    ensures
        keeps_to_concerned(state, bitcoin, concerned, at.triggers_wanted(round)),
{
    if round.triggers.len() == 0 {
        let deregistered = at.hooks_deregistered(bitcoin, round.hooks_ids_to_deregister);
        let rest = RoundView { hooks_ids_to_deregister: Seq::empty(), ..round };
        deregistrations_keep_to(state, bitcoin, concerned, at, round.hooks_ids_to_deregister);
        requests_keep_to(state, bitcoin, concerned, deregistered.state, rest);
        keeps_to_after(
            state,
            bitcoin,
            concerned,
            deregistered.state.requests_wanted(rest),
            deregistered.actions,
        );
    }
}

proof fn proofs_keep_to(
    state: ObserverView,
    bitcoin: bool,
    concerned: Set<Seq<char>>,
    at: ObserverView,
    round: RoundView,
)
    requires
        round_keeps_to(state, bitcoin, concerned, round),
    ensures
        keeps_to_concerned(state, bitcoin, concerned, at.proofs_wanted(round)),
{
    let rest = RoundView { targets: Seq::empty(), ..round };
    triggers_keep_to(state, bitcoin, concerned, at, rest);
    keeps_to_after(
        state,
        bitcoin,
        concerned,
        at.triggers_wanted(rest),
        at.emission(ObserverEventView::PredicatesTriggered(round.triggers.len())),
    );
}

proof fn listed_predicates_are_concerned(
    concerned: Set<Seq<char>>,
    pairs: Seq<(String, BlockIdentifier)>,
    uuid: Seq<char>,
)
    requires
        forall|i: int|
            0 <= i < pairs.len() ==> concerned.contains((#[trigger] pairs[i]).0@),
        noted_pairs(Map::empty(), pairs).contains_key(uuid),
    ensures
        concerned.contains(uuid),
    decreases pairs.len(),
{
    if pairs.len() > 0 {
        let shorter = pairs.drop_last();
        assert forall|i: int| 0 <= i < shorter.len() implies concerned.contains(
            (#[trigger] shorter[i]).0@,
        ) by {
            assert(shorter[i] == pairs[i]);
        }
        assert(concerned.contains(pairs[pairs.len() - 1].0@));
        if uuid != pairs.last().0@ {
            listed_predicates_are_concerned(concerned, shorter, uuid);
        }
    }
}

proof fn noted_blocks_add_one_key(
    map: Map<Seq<char>, Set<BlockKey>>,
    predicate: Seq<char>,
    blocks: Seq<BlockKey>,
    uuid: Seq<char>,
)
    requires
        noted_blocks(map, predicate, blocks).contains_key(uuid),
    ensures
        map.contains_key(uuid) || uuid == predicate,
    decreases blocks.len(),
{
    if blocks.len() > 0 && uuid != predicate {
        noted_blocks_add_one_key(map, predicate, blocks.drop_last(), uuid);
    }
}

proof fn triggered_predicates_are_concerned(
    concerned: Set<Seq<char>>,
    triggers: Seq<TriggerChainhook>,
    uuid: Seq<char>,
)
    requires
        forall|i: int|
            0 <= i < triggers.len() ==> concerned.contains(
                (#[trigger] triggers[i]).chainhook.uuid@,
            ),
        noted_triggers(Map::empty(), triggers).contains_key(uuid),
    ensures
        concerned.contains(uuid),
    decreases triggers.len(),
{
    if triggers.len() > 0 {
        let shorter = triggers.drop_last();
        assert forall|i: int| 0 <= i < shorter.len() implies concerned.contains(
            (#[trigger] shorter[i]).chainhook.uuid@,
        ) by {
            assert(shorter[i] == triggers[i]);
        }
        assert(concerned.contains(triggers[triggers.len() - 1].chainhook.uuid@));
        if uuid != triggers.last().chainhook.uuid@ {
            noted_blocks_add_one_key(
                noted_triggers(Map::empty(), shorter),
                triggers.last().chainhook.uuid@,
                applied_keys(triggers.last().apply@),
                uuid,
            );
            triggered_predicates_are_concerned(concerned, shorter, uuid);
        }
    }
}

proof fn admitted_triggers_are_among_all(
    tally: Tally,
    triggers: Seq<TriggerChainhook>,
    i: int,
)
    requires
        0 <= i < admitted(tally, triggers).len(),
    ensures
        triggers.contains(admitted(tally, triggers)[i]),
    decreases triggers.len(),
{
    if triggers.len() > 0 {
        let shorter = triggers.drop_last();
        if i < admitted(tally, shorter).len() {
            admitted_triggers_are_among_all(tally, shorter, i);
            let item = admitted(tally, shorter)[i];
            let k = choose|k: int| 0 <= k < shorter.len() && shorter[k] == item;
            assert(triggers[k] == item);
        } else {
            assert(triggers[triggers.len() - 1] == admitted(tally, triggers)[i]);
        }
    }
}

/// The round that an evaluation starts is about the predicates that the
/// evaluation names.
proof fn first_round_is_concerned(
    state: ObserverView,
    bitcoin: bool,
    concerned: Set<Seq<char>>,
    at: ObserverView,
    event: EventView,
    new_tip: u64,
    evaluation: Evaluation,
)
    requires
        event is BitcoinChainEvent == bitcoin,
        evaluation_stays_in(concerned, evaluation),
    ensures
        round_keeps_to(state, bitcoin, concerned, at.first_round(event, new_tip, evaluation)),
{
    let triggers = evaluation.predicates_triggered@;
    assert forall|i: int| 0 <= i < triggers.len() implies concerned.contains(
        (#[trigger] triggers[i]).chainhook.uuid@,
    ) by {
        assert(evaluation_names(evaluation, triggers[i].chainhook.uuid@));
    }
    let evaluated = evaluation.predicates_evaluated@;
    assert forall|i: int| 0 <= i < evaluated.len() implies concerned.contains(
        (#[trigger] evaluated[i]).0@,
    ) by {
        assert(evaluation_names(evaluation, evaluated[i].0@));
    }
    let expired = evaluation.predicates_expired@;
    assert forall|i: int| 0 <= i < expired.len() implies concerned.contains(
        (#[trigger] expired[i]).0@,
    ) by {
        assert(evaluation_names(evaluation, expired[i].0@));
    }
    let report = evaluation.spec_report();
    assert forall|uuid: Seq<char>| #[trigger]
        report.evaluated.contains_key(uuid) implies concerned.contains(uuid) by {
        listed_predicates_are_concerned(concerned, evaluation.predicates_evaluated@, uuid);
    }
    assert forall|uuid: Seq<char>| #[trigger]
        report.expired.contains_key(uuid) implies concerned.contains(uuid) by {
        listed_predicates_are_concerned(concerned, evaluation.predicates_expired@, uuid);
    }
    assert forall|uuid: Seq<char>| #[trigger]
        report.triggered.contains_key(uuid) implies concerned.contains(uuid) by {
        triggered_predicates_are_concerned(concerned, triggers, uuid);
    }
    let round = at.first_round(event, new_tip, evaluation);
    assert forall|i: int| 0 <= i < round.triggers.len() implies concerned.contains(
        (#[trigger] round.triggers[i]).chainhook.uuid@,
    ) by {
        admitted_triggers_are_among_all(at.occurrences, triggers, i);
        let k = choose|k: int| 0 <= k < triggers.len() && triggers[k] == round.triggers[i];
        assert(concerned.contains(triggers[k].chainhook.uuid@));
    }
}

/// The command to propagate a chain event.
proof fn propagation_keeps_to(
    state: ObserverView,
    bitcoin: bool,
    concerned: Set<Seq<char>>,
    input: ObserverInput,
)
    requires
        state.phase is Idle,
        propagates(input, bitcoin),
    ensures
        keeps_to_concerned(state, bitcoin, concerned, next(state.quietly(), input)),
{
    reveal(next);
    assert(state.in_phase(PhaseView::Idle) == state);
    assert(keeps_to_concerned(state, bitcoin, concerned, state.step(input)));
    keeps_to_after(state, bitcoin, concerned, state.step(input), Seq::empty());
}

/// An answer on the way to the evaluation.
proof fn mutation_keeps_to(
    state: ObserverView,
    bitcoin: bool,
    concerned: Set<Seq<char>>,
    at: Step,
    input: ObserverInput,
)
    requires
        keeps_to_concerned(state, bitcoin, concerned, at),
        at.state.phase is Mutating,
        at.state.accepts(input),
    ensures
        keeps_to_concerned(state, bitcoin, concerned, next(at, input)),
{
    reveal(next);
    assert(keeps_to_concerned(state, bitcoin, concerned, at.state.step(input)));
    keeps_to_after(state, bitcoin, concerned, at.state.step(input), at.actions);
}

/// The evaluation.
proof fn evaluation_keeps_to(
    state: ObserverView,
    bitcoin: bool,
    concerned: Set<Seq<char>>,
    at: Step,
    input: ObserverInput,
)
    requires
        keeps_to_concerned(state, bitcoin, concerned, at),
        at.state.phase is Evaluating,
        at.state.accepts(input),
        is_faithful(at, input),
        input_keeps_to(concerned, input),
    ensures
        keeps_to_concerned(state, bitcoin, concerned, next(at, input)),
{
    reveal(next);
    let idle = at.state.in_phase(PhaseView::Idle);
    assert(action_keeps_to(state, bitcoin, concerned, at.actions[at.actions.len() - 1]));
    if let PhaseView::Evaluating(event, new_tip) = at.state.phase {
        if let ObserverInput::Evaluated(evaluation) = input {
            let counted = ObserverView {
                occurrences: all_counted(idle.occurrences, evaluation.predicates_triggered@),
                ..idle
            };
            first_round_is_concerned(state, bitcoin, concerned, idle, event, new_tip, evaluation);
            proofs_keep_to(
                state,
                bitcoin,
                concerned,
                counted,
                idle.first_round(event, new_tip, evaluation),
            );
            let round = idle.first_round(event, new_tip, evaluation);
            keeps_to_after(
                state,
                bitcoin,
                concerned,
                counted.proofs_wanted(round),
                ObserverView::preparation(round),
            );
            keeps_to_after(state, bitcoin, concerned, at.state.step(input), at.actions);
        }
    }
}

/// An answer in the round.
proof fn round_step_keeps_to(
    state: ObserverView,
    bitcoin: bool,
    concerned: Set<Seq<char>>,
    at: Step,
    input: ObserverInput,
)
    requires
        keeps_to_concerned(state, bitcoin, concerned, at),
        at.state.phase is CollectingProof || at.state.phase is HandlingTrigger
            || at.state.phase is SendingRequest,
        at.state.accepts(input),
        is_faithful(at, input),
    ensures
        keeps_to_concerned(state, bitcoin, concerned, next(at, input)),
{
    reveal(next);
    let idle = at.state.in_phase(PhaseView::Idle);
    match (at.state.phase, input) {
        (PhaseView::CollectingProof(round, target), ObserverInput::ProofCollected(answer)) => {
            proofs_keep_to(state, bitcoin, concerned, idle, round);
            if let Ok(proof) = answer {
                proofs_keep_to(state, bitcoin, concerned, idle, round.with_proof(target, proof@));
            }
        },
        (PhaseView::HandlingTrigger(round), ObserverInput::TriggerHandled(occurrence)) => {
            assert(action_keeps_to(state, bitcoin, concerned, at.actions[at.actions.len() - 1]));
            triggers_keep_to(state, bitcoin, concerned, idle, round);
            match occurrence {
                Some(ChainhookOccurrence::Http(request, payload)) => {
                    let more = round.with_request(request, payload);
                    assert forall|i: int| 0 <= i < more.requests.len() implies payload_keeps_to(
                        state,
                        bitcoin,
                        concerned,
                        (#[trigger] more.requests[i]).payload,
                    ) by {
                        if i < round.requests.len() {
                            assert(more.requests[i] == round.requests[i]);
                        }
                    }
                    triggers_keep_to(state, bitcoin, concerned, idle, more);
                },
                Some(ChainhookOccurrence::Data(payload)) => {
                    keeps_to_after(
                        state,
                        bitcoin,
                        concerned,
                        idle.triggers_wanted(round),
                        idle.occurrence_told(payload),
                    );
                },
                _ => {},
            }
        },
        (
            PhaseView::SendingRequest(round, payload),
            ObserverInput::RequestSent { outcome, predicate_key },
        ) => {
            match outcome {
                Ok(_) => {
                    requests_keep_to(state, bitcoin, concerned, idle, round);
                    keeps_to_after(
                        state,
                        bitcoin,
                        concerned,
                        idle.requests_wanted(round),
                        idle.occurrence_told(payload),
                    );
                },
                Err(error) => {
                    let interrupted = idle.predicate_interrupted(payload, predicate_key, error@);
                    requests_keep_to(state, bitcoin, concerned, interrupted.state, round);
                    keeps_to_after(
                        state,
                        bitcoin,
                        concerned,
                        interrupted.state.requests_wanted(round),
                        interrupted.actions,
                    );
                },
            }
        },
        _ => {},
    }
    keeps_to_after(state, bitcoin, concerned, at.state.step(input), at.actions);
}

/// An answer.
proof fn answer_keeps_to(
    state: ObserverView,
    bitcoin: bool,
    concerned: Set<Seq<char>>,
    at: Step,
    input: ObserverInput,
)
    requires
        keeps_to_concerned(state, bitcoin, concerned, at),
        at.state.accepts(input),
        is_answer(input),
        is_faithful(at, input),
        input_keeps_to(concerned, input),
    ensures
        keeps_to_concerned(state, bitcoin, concerned, next(at, input)),
{
    match at.state.phase {
        PhaseView::Mutating(_, _) => {
            mutation_keeps_to(state, bitcoin, concerned, at, input);
        },
        PhaseView::Evaluating(_, _) => {
            evaluation_keeps_to(state, bitcoin, concerned, at, input);
        },
        PhaseView::Idle => {},
        _ => {
            round_step_keeps_to(state, bitcoin, concerned, at, input);
        },
    }
}

proof fn handling_keeps_to_concerned(
    state: ObserverView,
    bitcoin: bool,
    concerned: Set<Seq<char>>,
    inputs: Seq<ObserverInput>,
    i: int,
)
    requires
        handles_event(state, bitcoin, inputs),
        0 < i <= inputs.len(),
        forall|k: int| 0 <= k < inputs.len() ==> input_keeps_to(concerned, #[trigger] inputs[k]),
    ensures
        keeps_to_concerned(state, bitcoin, concerned, run(state, inputs.take(i))),
    decreases i,
{
    run_goes_on(state, inputs, i - 1);
    if i == 1 {
        assert(inputs.take(0) =~= Seq::empty());
        propagation_keeps_to(state, bitcoin, concerned, inputs[0]);
    } else {
        handling_keeps_to_concerned(state, bitcoin, concerned, inputs, i - 1);
        assert(accepted_at(state, inputs, i - 1));
        assert(faithful_at(state, inputs, i - 1));
        answer_keeps_to(state, bitcoin, concerned, run(state, inputs.take(i - 1)), inputs[i - 1]);
    }
}

/// The observer names no predicate of its own accord: whatever the evaluation of
/// a chain event finds, the triggers that are handled, the report that is
/// emitted and the predicates that are told to be triggered are among those that
/// the evaluation named. The evaluation is handed the active hooks of the event's
/// chain, as they were when the command to propagate it came, and no others.
pub proof fn event_concerns_evaluated_predicates_alone(
    state: ObserverView,
    bitcoin: bool,
    inputs: Seq<ObserverInput>,
)
    requires
        handles_event(state, bitcoin, inputs),
    ensures
        actions_keep_to(state, bitcoin, evaluated_uuids(inputs), run(state, inputs).actions),
{
    evaluations_keep_to_themselves(inputs);
    handling_keeps_to_concerned(
        state,
        bitcoin,
        evaluated_uuids(inputs),
        inputs,
        inputs.len() as int,
    );
    assert(inputs.take(inputs.len() as int) =~= inputs);
}

proof fn evaluations_keep_to_themselves(inputs: Seq<ObserverInput>)
    ensures
        forall|k: int|
            0 <= k < inputs.len() ==> input_keeps_to(evaluated_uuids(inputs), #[trigger] inputs[k]),
{
    assert forall|k: int| 0 <= k < inputs.len() implies input_keeps_to(
        evaluated_uuids(inputs),
        #[trigger] inputs[k],
    ) by {
        if let ObserverInput::Evaluated(evaluation) = inputs[k] {
            assert forall|uuid: Seq<char>| #[trigger]
                evaluation_names(evaluation, uuid) implies evaluated_uuids(inputs).contains(
                uuid,
            ) by {
                assert(inputs[k] matches ObserverInput::Evaluated(evaluation) && evaluation_names(
                    evaluation,
                    uuid,
                ));
            }
        }
    }
}

/// Whether the input at `i`, if it is an evaluation, names hooks alone that were
/// handed out for it.
pub open spec fn names_handed_hooks_at(
    state: ObserverView,
    inputs: Seq<ObserverInput>,
    i: int,
) -> bool {
    inputs[i] matches ObserverInput::Evaluated(evaluation) ==> {
        let asked = run(state, inputs.take(i)).actions.last();
        forall|uuid: Seq<char>| #[trigger]
            evaluation_names(evaluation, uuid) ==> {
                &&& asked matches ObserverActionView::EvaluateBitcoin(_, hooks) ==> has_hook(
                    hooks,
                    uuid,
                )
                &&& asked matches ObserverActionView::EvaluateStacks(_, hooks) ==> has_hook(
                    hooks,
                    uuid,
                )
            }
    }
}

/// A chain event concerns the predicates of its chain that were active when the
/// command to propagate it came, and no others: they are evaluated, they alone
/// are named in the report that is emitted, their triggers alone are handled, and
/// they alone are told to be triggered. For this the evaluation must name hooks
/// alone that it was handed.
pub proof fn event_concerns_active_predicates_alone(
    state: ObserverView,
    bitcoin: bool,
    inputs: Seq<ObserverInput>,
)
    requires
        handles_event(state, bitcoin, inputs),
        forall|i: int|
            0 <= i < inputs.len() ==> #[trigger] names_handed_hooks_at(state, inputs, i),
    ensures
        actions_keep_to(state, bitcoin, active_uuids(state, bitcoin), run(state, inputs).actions),
{
    let concerned = active_uuids(state, bitcoin);
    assert forall|k: int| 0 <= k < inputs.len() implies input_keeps_to(
        concerned,
        #[trigger] inputs[k],
    ) by {
        handed_hooks_are_active(state, bitcoin, inputs, k);
    }
    handling_keeps_to_concerned(state, bitcoin, concerned, inputs, inputs.len() as int);
    assert(inputs.take(inputs.len() as int) =~= inputs);
}

/// The hooks that are handed out for an evaluation are the active ones.
proof fn handed_hooks_are_active(
    state: ObserverView,
    bitcoin: bool,
    inputs: Seq<ObserverInput>,
    k: int,
)
    requires
        handles_event(state, bitcoin, inputs),
        0 <= k < inputs.len(),
        names_handed_hooks_at(state, inputs, k),
    ensures
        input_keeps_to(active_uuids(state, bitcoin), inputs[k]),
{
    if let ObserverInput::Evaluated(evaluation) = inputs[k] {
        let all = evaluated_uuids(inputs);
        let at = run(state, inputs.take(k));
        assert(accepted_at(state, inputs, k));
        if k == 0 {
            assert(propagates(inputs[0], bitcoin));
        } else {
            evaluations_keep_to_themselves(inputs);
            handling_keeps_to_concerned(state, bitcoin, all, inputs, k);
            assert(action_keeps_to(state, bitcoin, all, at.actions[at.actions.len() - 1]));
            assert forall|uuid: Seq<char>| #[trigger]
                evaluation_names(evaluation, uuid) implies active_uuids(state, bitcoin).contains(
                uuid,
            ) by {}
        }
    }
}

} // verus!
