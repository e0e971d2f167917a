//! The course of an event's handling, from its propagation until the observer is
//! idle again: what is asked, in which order, what is told to whom, and what is
//! left in the store.

use vstd::prelude::*;

use crate::chain::EventView;
use crate::commands::ObserverEventView;
use crate::hooks::NetworkChainhook;
use crate::laws::commands::is_gone_from;
use crate::laws::runs::payload_uuid;
use crate::metrics::Metric;
use crate::outside::hex_text;
use crate::proofs::{
    apply_targets, block_targets, has_proof, next_target, trigger_targets, ProofTarget, ProofView,
};
use crate::protocol::{
    ChainhookOccurrence, ObserverActionView, ObserverInput, OccurrencePayload, PendingRequest,
};
use crate::transition::ObserverView;
use crate::triggers::{AppliedBlock, Evaluation, TriggerChainhook};

verus! {

/// What some actions come to, sorted by kind.
#[verifier::ext_equal]
pub struct Trace {
    /// The events that are handed to the evaluation.
    pub handed: Seq<EventView>,
    /// How often the node is connected to.
    pub connections: nat,
    /// The transactions whose proofs are asked for.
    pub asked: Seq<ProofTarget>,
    /// The triggers that are to be handled, with the proofs for them on the
    /// Bitcoin chain.
    pub handled: Seq<(TriggerChainhook, Option<Seq<ProofView>>)>,
    /// The requests that are to be sent, with the number of attempts and the
    /// seconds in between.
    pub sent: Seq<(u64, u16, u16)>,
    /// What the listener hears.
    pub told: Seq<ObserverEventView>,
    /// The heights up to which the chain is evaluated, as told to the monitoring.
    pub tips: Seq<Metric>,
    /// Whatever else, but for the predicates that the monitoring hears are gone.
    pub others: Seq<ObserverActionView>,
}

impl Trace {
    pub open spec fn empty() -> Trace {
        Trace {
            handed: Seq::empty(),
            connections: 0,
            asked: Seq::empty(),
            handled: Seq::empty(),
            sent: Seq::empty(),
            told: Seq::empty(),
            tips: Seq::empty(),
            others: Seq::empty(),
        }
    }

    pub open spec fn plus(self, more: Trace) -> Trace {
        Trace {
            handed: self.handed + more.handed,
            connections: self.connections + more.connections,
            asked: self.asked + more.asked,
            handled: self.handled + more.handled,
            sent: self.sent + more.sent,
            told: self.told + more.told,
            tips: self.tips + more.tips,
            others: self.others + more.others,
        }
    }

    /// What one more action adds.
    pub open spec fn with(self, action: ObserverActionView) -> Trace {
        match action {
            ObserverActionView::EvaluateBitcoin(event, _) => Trace {
                handed: self.handed.push(EventView::BitcoinChainEvent(event)),
                ..self
            },
            ObserverActionView::EvaluateStacks(event, _) => Trace {
                handed: self.handed.push(EventView::StacksChainEvent(event)),
                ..self
            },
            ObserverActionView::ConnectNode => Trace { connections: self.connections + 1, ..self },
            ObserverActionView::CollectProof(target) => Trace {
                asked: self.asked.push(target),
                ..self
            },
            ObserverActionView::HandleBitcoinTrigger(trigger, proofs) => Trace {
                handled: self.handled.push((trigger, Some(proofs))),
                ..self
            },
            ObserverActionView::HandleStacksTrigger(trigger) => Trace {
                handled: self.handled.push((trigger, None)),
                ..self
            },
            ObserverActionView::SendRequest { request, attempts_max, attempts_interval_seconds } => {
                Trace {
                    sent: self.sent.push((request, attempts_max, attempts_interval_seconds)),
                    ..self
                }
            },
            ObserverActionView::Emit(event) => Trace { told: self.told.push(event), ..self },
            ObserverActionView::Measure(Metric::BitcoinBlockEvaluated(height)) => Trace {
                tips: self.tips.push(Metric::BitcoinBlockEvaluated(height)),
                ..self
            },
            ObserverActionView::Measure(Metric::StacksBlockEvaluated(height)) => Trace {
                tips: self.tips.push(Metric::StacksBlockEvaluated(height)),
                ..self
            },
            ObserverActionView::Measure(Metric::BitcoinPredicateDeregistered) => self,
            ObserverActionView::Measure(Metric::StacksPredicateDeregistered) => self,
            _ => Trace { others: self.others.push(action), ..self },
        }
    }
}

/// What some actions come to.
pub open spec fn trace(actions: Seq<ObserverActionView>) -> Trace
    decreases actions.len(),
{
    if actions.len() == 0 {
        Trace::empty()
    } else {
        trace(actions.drop_last()).with(actions.last())
    }
}

proof fn with_after_plus(first: Trace, second: Trace, action: ObserverActionView)
    ensures
        first.plus(second.with(action)) =~= first.plus(second).with(action),
{
    assert(first.handed + second.with(action).handed =~= first.plus(second).with(action).handed);
    assert(first.asked + second.with(action).asked =~= first.plus(second).with(action).asked);
    assert(first.handled + second.with(action).handled =~= first.plus(second).with(
        action,
    ).handled);
    assert(first.sent + second.with(action).sent =~= first.plus(second).with(action).sent);
    assert(first.told + second.with(action).told =~= first.plus(second).with(action).told);
    assert(first.tips + second.with(action).tips =~= first.plus(second).with(action).tips);
    assert(first.others + second.with(action).others =~= first.plus(second).with(action).others);
}

/// Actions behind actions come to what both come to.
pub proof fn traces_add_up(first: Seq<ObserverActionView>, second: Seq<ObserverActionView>)
    ensures
        trace(first + second) == trace(first).plus(trace(second)),
    decreases second.len(),
{
    if second.len() == 0 {
        assert(first + second =~= first);
        assert(trace(first).plus(Trace::empty()) =~= trace(first));
    } else {
        let shorter = second.drop_last();
        traces_add_up(first, shorter);
        assert((first + second).drop_last() =~= first + shorter);
        with_after_plus(trace(first), trace(shorter), second.last());
    }
}

pub(crate) proof fn trace_of_one(action: ObserverActionView)
    ensures
        trace(seq![action]) == Trace::empty().with(action),
{
    assert(seq![action].drop_last() =~= Seq::empty());
    assert(trace(seq![action].drop_last()) == Trace::empty());
}

/// What the driver answered in the course of a round.
#[verifier::ext_equal]
pub struct Answers {
    pub evaluations: Seq<Evaluation>,
    pub proofs: Seq<Result<Vec<u8>, String>>,
    /// The occurrences that come with data for the listener.
    pub data: Seq<OccurrencePayload>,
    /// The occurrences that come with a request to be sent.
    pub requests: Seq<PendingRequest>,
    /// What came of the requests, with the keys of their predicates.
    pub outcomes: Seq<(Result<(), String>, String)>,
}

impl Answers {
    pub open spec fn empty() -> Answers {
        Answers {
            evaluations: Seq::empty(),
            proofs: Seq::empty(),
            data: Seq::empty(),
            requests: Seq::empty(),
            outcomes: Seq::empty(),
        }
    }

    /// One more answer.
    pub open spec fn with(self, input: ObserverInput) -> Answers {
        match input {
            ObserverInput::Evaluated(evaluation) => Answers {
                evaluations: self.evaluations.push(evaluation),
                ..self
            },
            ObserverInput::ProofCollected(answer) => Answers {
                proofs: self.proofs.push(answer),
                ..self
            },
            ObserverInput::TriggerHandled(Some(ChainhookOccurrence::Http(request, payload))) => {
                Answers {
                    requests: self.requests.push(PendingRequest { request, payload }),
                    ..self
                }
            },
            ObserverInput::TriggerHandled(Some(ChainhookOccurrence::Data(payload))) => Answers {
                data: self.data.push(payload),
                ..self
            },
            ObserverInput::RequestSent { outcome, predicate_key } => Answers {
                outcomes: self.outcomes.push((outcome, predicate_key)),
                ..self
            },
            _ => self,
        }
    }
}

/// What the driver answered in some inputs.
pub open spec fn answers(inputs: Seq<ObserverInput>) -> Answers
    decreases inputs.len(),
{
    if inputs.len() == 0 {
        Answers::empty()
    } else {
        answers(inputs.drop_last()).with(inputs.last())
    }
}

/// Whether a transaction's proof is wanted: a trigger that wants proofs has a
/// block to apply, and the transaction is one of that block.
pub open spec fn is_wanted_at(
    triggers: Seq<TriggerChainhook>,
    target: ProofTarget,
    t: int,
    b: int,
    x: int,
) -> bool {
    &&& 0 <= t < triggers.len()
    &&& triggers[t].chainhook.include_proof
    &&& 0 <= b < triggers[t].apply@.len()
    &&& triggers[t].apply@[b].block_identifier == target.block_identifier
    &&& 0 <= x < triggers[t].apply@[b].transactions@.len()
    &&& triggers[t].apply@[b].transactions@[x] == target.transaction_identifier
}

/// Some trigger wants the transaction's proof.
pub open spec fn is_wanted(triggers: Seq<TriggerChainhook>, target: ProofTarget) -> bool {
    exists|t: int, b: int, x: int| is_wanted_at(triggers, target, t, b, x)
}

/// Whether some trigger wants proofs.
pub open spec fn wants_any(triggers: Seq<TriggerChainhook>) -> bool {
    exists|t: int| 0 <= t < triggers.len() && (#[trigger] triggers[t]).chainhook.include_proof
}

/// The proofs that the node's answers bring, for the transactions that were asked
/// for one after the other: their bytes in hexadecimal, behind a `0x`.
pub open spec fn brought(
    asked: Seq<ProofTarget>,
    proofs: Seq<Result<Vec<u8>, String>>,
) -> Seq<ProofView>
    decreases proofs.len(),
{
    if proofs.len() == 0 {
        Seq::empty()
    } else {
        let before = brought(asked, proofs.drop_last());
        match proofs.last() {
            Ok(bytes) => before.push(
                ProofView {
                    hash: asked[proofs.len() - 1].transaction_identifier.hash@,
                    proof: "0x"@ + hex_text(bytes@),
                },
            ),
            Err(_) => before,
        }
    }
}

/// What the listener hears of an occurrence.
pub open spec fn occurrence_event(payload: OccurrencePayload) -> ObserverEventView {
    match payload {
        OccurrencePayload::Bitcoin(payload) => ObserverEventView::BitcoinPredicateTriggered(
            payload,
        ),
        OccurrencePayload::Stacks(payload) => ObserverEventView::StacksPredicateTriggered(payload),
    }
}

/// What the listener hears of occurrences with data.
pub open spec fn data_events(data: Seq<OccurrencePayload>) -> Seq<ObserverEventView> {
    Seq::new(data.len(), |k: int| occurrence_event(data[k]))
}

/// What the listener hears of predicates that are gone.
pub open spec fn farewells(uuids: Seq<String>) -> Seq<ObserverEventView> {
    Seq::new(uuids.len(), |k: int| ObserverEventView::PredicateDeregistered(uuids[k]))
}

/// What the listener hears of a request: the occurrence, once it is sent; or that
/// its predicate is interrupted, and why.
pub open spec fn outcome_event(
    request: PendingRequest,
    outcome: (Result<(), String>, String),
) -> ObserverEventView {
    match outcome.0 {
        Ok(_) => occurrence_event(request.payload),
        Err(error) => ObserverEventView::PredicateInterrupted {
            predicate_key: outcome.1,
            error: "Unable to evaluate predicate on Bitcoin chainstate: "@ + error@,
        },
    }
}

/// What the listener hears of requests, one by one.
pub open spec fn outcome_events(
    requests: Seq<PendingRequest>,
    outcomes: Seq<(Result<(), String>, String)>,
) -> Seq<ObserverEventView> {
    Seq::new(outcomes.len(), |k: int| outcome_event(requests[k], outcomes[k]))
}

/// The requests as they are to be sent: each with three attempts, a second apart.
pub open spec fn sendings(requests: Seq<PendingRequest>) -> Seq<(u64, u16, u16)> {
    Seq::new(requests.len(), |k: int| (requests[k].request, 3u16, 1u16))
}

/// What the listener hears, where there is one.
pub open spec fn heard_of(listener: bool, events: Seq<ObserverEventView>) -> Seq<
    ObserverEventView,
> {
    if listener {
        events
    } else {
        Seq::empty()
    }
}

/// The uuids of the predicates whose requests could not be sent.
pub open spec fn failed(
    requests: Seq<PendingRequest>,
    outcomes: Seq<(Result<(), String>, String)>,
) -> Seq<Seq<char>>
    decreases outcomes.len(),
{
    if outcomes.len() == 0 {
        Seq::empty()
    } else {
        let before = failed(requests, outcomes.drop_last());
        match outcomes.last().0 {
            Ok(_) => before,
            Err(_) => before.push(payload_uuid(requests[outcomes.len() - 1].payload)),
        }
    }
}

/// The uuids, as text.
pub open spec fn texts(uuids: Seq<String>) -> Seq<Seq<char>> {
    Seq::new(uuids.len(), |k: int| uuids[k]@)
}

/// Hooks are gone, one uuid after the other, and nothing else is different.
pub open spec fn are_gone_from<N>(
    before: Seq<NetworkChainhook<N>>,
    uuids: Seq<Seq<char>>,
    after: Seq<NetworkChainhook<N>>,
) -> bool
    decreases uuids.len(),
{
    if uuids.len() == 0 {
        after == before
    } else {
        exists|between: Seq<NetworkChainhook<N>>|
            are_gone_from(before, uuids.drop_last(), between) && #[trigger] is_gone_from(
                between,
                uuids.last(),
                after,
            )
    }
}

pub(crate) proof fn one_more_is_gone<N>(
    before: Seq<NetworkChainhook<N>>,
    uuids: Seq<Seq<char>>,
    between: Seq<NetworkChainhook<N>>,
    uuid: Seq<char>,
    after: Seq<NetworkChainhook<N>>,
)
    requires
        are_gone_from(before, uuids, between),
        is_gone_from(between, uuid, after),
    ensures
        are_gone_from(before, uuids.push(uuid), after),
{
    reveal_with_fuel(are_gone_from, 2);
    let more = uuids.push(uuid);
    assert(more.drop_last() =~= uuids);
    assert(are_gone_from(before, more.drop_last(), between));
    assert(is_gone_from(between, more.last(), after));
}

/// Whether the store of the one chain has lost the given hooks, one after the
/// other, and nothing else is different in either store.
pub open spec fn has_lost(
    start: ObserverView,
    bitcoin: bool,
    uuids: Seq<Seq<char>>,
    state: ObserverView,
) -> bool {
    if bitcoin {
        are_gone_from(start.bitcoin_hooks, uuids, state.bitcoin_hooks) && state.stacks_hooks
            == start.stacks_hooks
    } else {
        are_gone_from(start.stacks_hooks, uuids, state.stacks_hooks) && state.bitcoin_hooks
            == start.bitcoin_hooks
    }
}

// Facts about lists.
proof fn block_targets_are_its_transactions(applied: AppliedBlock, target: ProofTarget)
    ensures
        block_targets(applied).contains(target) <==> applied.block_identifier
            == target.block_identifier && applied.transactions@.contains(
            target.transaction_identifier,
        ),
{
    let targets = block_targets(applied);
    if targets.contains(target) {
        let x = choose|x: int| 0 <= x < targets.len() && targets[x] == target;
        assert(applied.transactions@[x] == target.transaction_identifier);
    }
    if applied.block_identifier == target.block_identifier && applied.transactions@.contains(
        target.transaction_identifier,
    ) {
        let x = choose|x: int|
            0 <= x < applied.transactions@.len() && applied.transactions@[x]
                == target.transaction_identifier;
        assert(targets[x] == target);
    }
}

proof fn sum_contains<A>(first: Seq<A>, second: Seq<A>, item: A)
    ensures
        (first + second).contains(item) <==> first.contains(item) || second.contains(item),
{
    let both = first + second;
    if first.contains(item) {
        let i = choose|i: int| 0 <= i < first.len() && first[i] == item;
        assert(both[i] == item);
    }
    if second.contains(item) {
        let i = choose|i: int| 0 <= i < second.len() && second[i] == item;
        assert(both[first.len() + i] == item);
    }
    if both.contains(item) {
        let i = choose|i: int| 0 <= i < both.len() && both[i] == item;
        if i < first.len() {
            assert(first[i] == item);
        } else {
            assert(second[i - first.len()] == item);
        }
    }
}

proof fn apply_targets_are_the_transactions(apply: Seq<AppliedBlock>, target: ProofTarget)
    ensures
        apply_targets(apply).contains(target) <==> exists|b: int|
            0 <= b < apply.len() && (#[trigger] apply[b]).block_identifier
                == target.block_identifier && apply[b].transactions@.contains(
                target.transaction_identifier,
            ),
    decreases apply.len(),
{
    if apply.len() > 0 {
        let shorter = apply.drop_last();
        apply_targets_are_the_transactions(shorter, target);
        block_targets_are_its_transactions(apply.last(), target);
        sum_contains(apply_targets(shorter), block_targets(apply.last()), target);
        assert forall|b: int| 0 <= b < shorter.len() implies shorter[b] == #[trigger] apply[b] by {}
        if apply_targets(shorter).contains(target) {
            let b = choose|b: int|
                0 <= b < shorter.len() && (#[trigger] shorter[b]).block_identifier
                    == target.block_identifier && shorter[b].transactions@.contains(
                    target.transaction_identifier,
                );
            assert(apply[b] == shorter[b]);
        }
        assert(apply[apply.len() - 1] == apply.last());
        if exists|b: int|
            0 <= b < apply.len() && (#[trigger] apply[b]).block_identifier
                == target.block_identifier && apply[b].transactions@.contains(
                target.transaction_identifier,
            ) {
            let b = choose|b: int|
                0 <= b < apply.len() && (#[trigger] apply[b]).block_identifier
                    == target.block_identifier && apply[b].transactions@.contains(
                    target.transaction_identifier,
                );
            if b < shorter.len() {
                assert(shorter[b] == apply[b]);
            }
        }
    }
}

/// The transactions that are gone through for their proofs are those that some
/// trigger wants proofs of: every one of every block that it applies to.
pub proof fn targets_are_what_is_wanted(triggers: Seq<TriggerChainhook>, target: ProofTarget)
    ensures
        trigger_targets(triggers).contains(target) <==> is_wanted(triggers, target),
    decreases triggers.len(),
{
    if triggers.len() > 0 {
        let shorter = triggers.drop_last();
        let last = triggers.last();
        let l = triggers.len() - 1;
        targets_are_what_is_wanted(shorter, target);
        apply_targets_are_the_transactions(last.apply@, target);
        sum_contains(trigger_targets(shorter), apply_targets(last.apply@), target);
        assert(triggers[l] == last);
        if is_wanted(shorter, target) {
            let (t, b, x) = choose|t: int, b: int, x: int| is_wanted_at(shorter, target, t, b, x);
            assert(shorter[t] == triggers[t]);
            assert(is_wanted_at(triggers, target, t, b, x));
        }
        if last.chainhook.include_proof && apply_targets(last.apply@).contains(target) {
            let b = choose|b: int|
                0 <= b < last.apply@.len() && (#[trigger] last.apply@[b]).block_identifier
                    == target.block_identifier && last.apply@[b].transactions@.contains(
                    target.transaction_identifier,
                );
            let x = choose|x: int|
                0 <= x < last.apply@[b].transactions@.len() && last.apply@[b].transactions@[x]
                    == target.transaction_identifier;
            assert(is_wanted_at(triggers, target, l, b, x));
        }
        if is_wanted(triggers, target) {
            let (t, b, x) = choose|t: int, b: int, x: int| is_wanted_at(triggers, target, t, b, x);
            if t < l {
                assert(shorter[t] == triggers[t]);
                assert(is_wanted_at(shorter, target, t, b, x));
            } else {
                assert(last.apply@[b].transactions@.contains(target.transaction_identifier));
            }
        }
    }
}

pub(crate) proof fn next_target_skips_what_is_at_hand(
    targets: Seq<ProofTarget>,
    proofs: Seq<ProofView>,
    target: ProofTarget,
)
    ensures
        match next_target(targets, proofs) {
            Some((first, rest)) => {
                &&& targets.contains(target) ==> target == first || rest.contains(target)
                    || has_proof(proofs, target.transaction_identifier.hash@)
                &&& targets.contains(first)
                &&& rest.contains(target) ==> targets.contains(target)
            },
            None => targets.contains(target) ==> has_proof(
                proofs,
                target.transaction_identifier.hash@,
            ),
        },
    decreases targets.len(),
{
    if targets.len() > 0 {
        let rest = targets.drop_first();
        next_target_skips_what_is_at_hand(rest, proofs, target);
        assert(targets[0] == targets.first());
        if targets.contains(target) && target != targets.first() {
            let i = choose|i: int| 0 <= i < targets.len() && targets[i] == target;
            assert(rest[i - 1] == target);
        }
        if rest.contains(target) {
            let i = choose|i: int| 0 <= i < rest.len() && rest[i] == target;
            assert(targets[i + 1] == target);
        }
        if let Some((first, _)) = next_target(rest, proofs) {
            if rest.contains(first) {
                let i = choose|i: int| 0 <= i < rest.len() && rest[i] == first;
                assert(targets[i + 1] == first);
            }
        }
    }
}

pub(crate) proof fn brought_by_the_first(
    asked: Seq<ProofTarget>,
    more: Seq<ProofTarget>,
    proofs: Seq<Result<Vec<u8>, String>>,
)
    requires
        proofs.len() <= asked.len(),
    ensures
        brought(asked + more, proofs) == brought(asked, proofs),
    decreases proofs.len(),
{
    if proofs.len() > 0 {
        brought_by_the_first(asked, more, proofs.drop_last());
        assert((asked + more)[proofs.len() - 1] == asked[proofs.len() - 1]);
    }
}

} // verus!
