//! Laws on how often a stored predicate is triggered over several chain events.

use vstd::prelude::*;

use crate::commands::ObserverEventView;
use crate::hooks::{
    has_hook, is_active, is_first_hook, position_of, without_hook, NetworkChainhook,
};
use crate::laws::hooks::{
    deregistration_keeps_uuid_unique, deregistration_spares_other_hooks, is_unique,
};
use crate::laws::lifecycle::deregistered_hooks_are_gone;
use crate::laws::runs::{
    accepted_at, after_twice, asked_trigger, faithful_at, handles_event, is_answer, is_faithful,
    next, payload_uuid, propagates, run, run_goes_on,
};
use crate::laws::triggers::{admitted_triggers_are_counted, fewer_counts_fit, triggers_of};
use crate::proofs::next_target;
use crate::protocol::{
    ChainhookOccurrence, ObserverActionView, ObserverInput, OccurrencePayload, PendingRequest,
    PhaseView, RoundView,
};
use crate::transition::{ObserverView, Step};
use crate::triggers::{
    admitted, all_counted, count_of, exhausted, tally_fits, within_limit, Tally, TriggerChainhook,
};

verus! {

/// A predicate of one of the chains, as the store holds it: its uuid, and after
/// how many occurrences it expires.
pub struct Predicate {
    pub bitcoin: bool,
    pub uuid: Seq<char>,
    pub limit: Option<u64>,
}

/// Whether some active hook has a uuid and a limit.
pub open spec fn has_active_hook<N>(
    hooks: Seq<NetworkChainhook<N>>,
    uuid: Seq<char>,
    limit: Option<u64>,
) -> bool {
    exists|i: int|
        {
            &&& 0 <= i < hooks.len()
            &&& (#[trigger] hooks[i]).uuid@ == uuid
            &&& hooks[i].expire_after_occurrence == limit
            &&& is_active(hooks[i])
        }
}

impl Predicate {
    /// The predicate is in the store, and active.
    pub open spec fn is_stored(self, state: ObserverView) -> bool {
        if self.bitcoin {
            has_active_hook(state.bitcoin_hooks, self.uuid, self.limit)
        } else {
            has_active_hook(state.stacks_hooks, self.uuid, self.limit)
        }
    }

    /// The predicate is not in the store.
    pub open spec fn is_gone(self, state: ObserverView) -> bool {
        if self.bitcoin {
            !has_hook(state.bitcoin_hooks, self.uuid)
        } else {
            !has_hook(state.stacks_hooks, self.uuid)
        }
    }

    /// The store holds no second hook with the predicate's uuid.
    pub open spec fn is_unambiguous(self, state: ObserverView) -> bool {
        if self.bitcoin {
            is_unique(state.bitcoin_hooks, self.uuid)
        } else {
            is_unique(state.stacks_hooks, self.uuid)
        }
    }

    /// How often the predicate may be triggered; zero is no limit.
    pub open spec fn allowance(self) -> u64 {
        match self.limit {
            Some(limit) => limit,
            None => 0,
        }
    }

    /// Whether the predicate may be triggered once more after a number of
    /// occurrences.
    pub open spec fn may_be_triggered(self, occurrences: int) -> bool {
        self.allowance() == 0 || occurrences < self.allowance()
    }

    /// Whether an action asks for a trigger of the predicate to be handled.
    pub open spec fn is_handled_by(self, action: ObserverActionView) -> bool {
        match action {
            ObserverActionView::HandleBitcoinTrigger(trigger, _) => {
                self.bitcoin && trigger.chainhook.uuid@ == self.uuid
            },
            ObserverActionView::HandleStacksTrigger(trigger) => {
                !self.bitcoin && trigger.chainhook.uuid@ == self.uuid
            },
            _ => false,
        }
    }

    /// Whether an action tells the listener that the predicate was triggered.
    pub open spec fn is_announced_by(self, action: ObserverActionView) -> bool {
        match action {
            ObserverActionView::Emit(ObserverEventView::BitcoinPredicateTriggered(payload)) => {
                self.bitcoin && payload.chainhook.uuid@ == self.uuid
            },
            ObserverActionView::Emit(ObserverEventView::StacksPredicateTriggered(payload)) => {
                !self.bitcoin && payload.chainhook.uuid@ == self.uuid
            },
            _ => false,
        }
    }

    /// Whether an action tells the listener that the predicate was deregistered.
    pub open spec fn is_dropped_by(self, action: ObserverActionView) -> bool {
        match action {
            ObserverActionView::Emit(ObserverEventView::PredicateDeregistered(uuid)) => {
                uuid@ == self.uuid
            },
            _ => false,
        }
    }

    /// How many triggers of the predicate are to be handled.
    pub open spec fn times_handled(self, actions: Seq<ObserverActionView>) -> nat
        decreases actions.len(),
    {
        if actions.len() == 0 {
            0
        } else {
            self.times_handled(actions.drop_last()) + if self.is_handled_by(actions.last()) {
                1nat
            } else {
                0nat
            }
        }
    }

    /// Whether the listener is told that the predicate was triggered.
    pub open spec fn is_announced(self, actions: Seq<ObserverActionView>) -> bool {
        exists|i: int| 0 <= i < actions.len() && self.is_announced_by(#[trigger] actions[i])
    }

    /// Whether the listener is told that the predicate was deregistered.
    pub open spec fn is_dropped(self, actions: Seq<ObserverActionView>) -> bool {
        exists|i: int| 0 <= i < actions.len() && self.is_dropped_by(#[trigger] actions[i])
    }

    /// Whether an input lets the predicate's action succeed, if it is about it:
    /// the action comes to data or to a request, and a request is delivered.
    pub open spec fn succeeds(self, before: Step, input: ObserverInput) -> bool {
        match input {
            ObserverInput::TriggerHandled(occurrence) => {
                asked_trigger(before.actions) matches Some(trigger) && trigger.chainhook.uuid@
                    == self.uuid ==> {
                    ||| occurrence matches Some(ChainhookOccurrence::Http(_, _))
                    ||| occurrence matches Some(ChainhookOccurrence::Data(_))
                }
            },
            ObserverInput::RequestSent { outcome, .. } => {
                before.state.phase matches PhaseView::SendingRequest(_, payload) && payload_uuid(
                    payload,
                ) == self.uuid ==> outcome is Ok
            },
            _ => true,
        }
    }

    /// The input at `i` lets the predicate's action succeed.
    pub open spec fn succeeds_at(
        self,
        state: ObserverView,
        inputs: Seq<ObserverInput>,
        i: int,
    ) -> bool {
        self.succeeds(run(state, inputs.take(i)), inputs[i])
    }

    /// Whether an input that is an evaluation triggers the predicate once,
    /// whatever the number of blocks that it matches, and the trigger carries the
    /// predicate's limit.
    pub open spec fn is_triggered_once_by(self, input: ObserverInput) -> bool {
        input matches ObserverInput::Evaluated(evaluation) ==> {
            let triggers = evaluation.predicates_triggered@;
            &&& triggers_of(triggers, self.uuid).len() == 1
            &&& forall|i: int|
                0 <= i < triggers.len() && (#[trigger] triggers[i]).chainhook.uuid@ == self.uuid
                    ==> triggers[i].chainhook.expire_after_occurrence == self.limit
        }
    }

    /// Whether some inputs are the whole handling of an event of the predicate's
    /// chain that triggers it once, and in which its action succeeds.
    pub open spec fn is_matched_by(self, state: ObserverView, inputs: Seq<ObserverInput>) -> bool {
        &&& handles_event(state, self.bitcoin, inputs)
        &&& forall|i: int|
            0 <= i < inputs.len() ==> self.is_triggered_once_by(#[trigger] inputs[i])
        &&& forall|i: int| 0 <= i < inputs.len() ==> #[trigger] self.succeeds_at(state, inputs, i)
    }

    /// What comes of an event that triggers the predicate while it may be: its
    /// trigger is handled, once; whoever listens is told; it is counted; and the
    /// predicate stays.
    pub open spec fn was_triggered(self, state: ObserverView, after: Step) -> bool {
        &&& self.times_handled(after.actions) == 1
        &&& state.links.listener ==> self.is_announced(after.actions)
        &&& !self.is_dropped(after.actions)
        &&& count_of(after.state.occurrences, self.uuid) == count_of(state.occurrences, self.uuid)
            + 1
        &&& self.is_stored(after.state)
    }

    /// What comes of an event that triggers the predicate when it may no longer
    /// be: nothing is handled, nobody is told that it was triggered, and it is
    /// not counted; the predicate is gone, and whoever listens is told so.
    pub open spec fn was_dropped(self, state: ObserverView, after: Step) -> bool {
        &&& self.times_handled(after.actions) == 0
        &&& !self.is_announced(after.actions)
        &&& state.links.listener ==> self.is_dropped(after.actions)
        &&& count_of(after.state.occurrences, self.uuid) == count_of(state.occurrences, self.uuid)
        &&& self.is_gone(after.state)
    }
}

// What some actions say of a predicate adds up.

proof fn handled_adds_up(
    predicate: Predicate,
    first: Seq<ObserverActionView>,
    second: Seq<ObserverActionView>,
)
    ensures
        predicate.times_handled(first + second) == predicate.times_handled(first)
            + predicate.times_handled(second),
    decreases second.len(),
{
    if second.len() == 0 {
        assert(first + second =~= first);
    } else {
        assert((first + second).drop_last() =~= first + second.drop_last());
        handled_adds_up(predicate, first, second.drop_last());
    }
}

proof fn told_adds_up(
    predicate: Predicate,
    first: Seq<ObserverActionView>,
    second: Seq<ObserverActionView>,
)
    ensures
        predicate.is_announced(first + second) <==> predicate.is_announced(first)
            || predicate.is_announced(second),
        predicate.is_dropped(first + second) <==> predicate.is_dropped(first)
            || predicate.is_dropped(second),
{
    let both = first + second;
    assert forall|i: int| 0 <= i < first.len() implies both[i] == #[trigger] first[i] by {}
    assert forall|i: int| 0 <= i < second.len() implies both[first.len() + i]
        == #[trigger] second[i] by {}
    if predicate.is_announced(first) {
        let i = choose|i: int|
            0 <= i < first.len() && predicate.is_announced_by(#[trigger] first[i]);
        assert(predicate.is_announced_by(both[i]));
    }
    if predicate.is_announced(second) {
        let i = choose|i: int|
            0 <= i < second.len() && predicate.is_announced_by(#[trigger] second[i]);
        assert(predicate.is_announced_by(both[first.len() + i]));
    }
    if predicate.is_announced(both) {
        let i = choose|i: int|
            0 <= i < both.len() && predicate.is_announced_by(#[trigger] both[i]);
        if i >= first.len() {
            assert(both[i] == second[i - first.len()]);
        }
    }
    if predicate.is_dropped(first) {
        let i = choose|i: int| 0 <= i < first.len() && predicate.is_dropped_by(#[trigger] first[i]);
        assert(predicate.is_dropped_by(both[i]));
    }
    if predicate.is_dropped(second) {
        let i = choose|i: int|
            0 <= i < second.len() && predicate.is_dropped_by(#[trigger] second[i]);
        assert(predicate.is_dropped_by(both[first.len() + i]));
    }
    if predicate.is_dropped(both) {
        let i = choose|i: int| 0 <= i < both.len() && predicate.is_dropped_by(#[trigger] both[i]);
        if i >= first.len() {
            assert(both[i] == second[i - first.len()]);
        }
    }
}

/// No action says anything of a predicate.
spec fn is_silent(predicate: Predicate, actions: Seq<ObserverActionView>) -> bool {
    forall|i: int|
        0 <= i < actions.len() ==> {
            &&& !predicate.is_handled_by(#[trigger] actions[i])
            &&& !predicate.is_announced_by(actions[i])
            &&& !predicate.is_dropped_by(actions[i])
        }
}

proof fn silence_says_nothing(predicate: Predicate, actions: Seq<ObserverActionView>)
    requires
        is_silent(predicate, actions),
    ensures
        predicate.times_handled(actions) == 0,
        !predicate.is_announced(actions),
        !predicate.is_dropped(actions),
    decreases actions.len(),
{
    if actions.len() > 0 {
        let shorter = actions.drop_last();
        assert forall|i: int| 0 <= i < shorter.len() implies {
            &&& !predicate.is_handled_by(#[trigger] shorter[i])
            &&& !predicate.is_announced_by(shorter[i])
            &&& !predicate.is_dropped_by(shorter[i])
        } by {
            assert(shorter[i] == actions[i]);
        }
        silence_says_nothing(predicate, shorter);
        assert(!predicate.is_handled_by(actions[actions.len() - 1]));
    }
}

proof fn silence_adds_nothing(
    predicate: Predicate,
    first: Seq<ObserverActionView>,
    second: Seq<ObserverActionView>,
)
    requires
        is_silent(predicate, second),
    ensures
        predicate.times_handled(first + second) == predicate.times_handled(first),
        predicate.is_announced(first + second) == predicate.is_announced(first),
        predicate.is_dropped(first + second) == predicate.is_dropped(first),
{
    silence_says_nothing(predicate, second);
    handled_adds_up(predicate, first, second);
    told_adds_up(predicate, first, second);
}

// What an evaluation means for a predicate.

/// The triggers of one predicate, without the first of all triggers.
proof fn triggers_of_go_one_by_one(triggers: Seq<TriggerChainhook>, uuid: Seq<char>)
    requires
        triggers.len() > 0,
    ensures
        triggers_of(triggers, uuid).len() == triggers_of(triggers.drop_first(), uuid).len() + if
        triggers.first().chainhook.uuid@ == uuid {
            1int
        } else {
            0int
        },
{
    let test = |trigger: TriggerChainhook| trigger.chainhook.uuid@ == uuid;
    let first = seq![triggers.first()];
    let rest = triggers.drop_first();
    assert(first + rest =~= triggers);
    Seq::filter_distributes_over_add(first, rest, test);
    reveal_with_fuel(Seq::filter, 2);
    assert(first.drop_last() =~= Seq::empty());
}

/// The exhausted predicates include one with the given uuid.
spec fn is_named(uuids: Seq<String>, uuid: Seq<char>) -> bool {
    exists|i: int| 0 <= i < uuids.len() && (#[trigger] uuids[i])@ == uuid
}

/// A predicate that is triggered at most once is admitted if it may be triggered,
/// and named as exhausted if not.
proof fn single_trigger_is_admitted_or_named(
    tally: Tally,
    triggers: Seq<TriggerChainhook>,
    predicate: Predicate,
)
    requires
        tally_fits(tally, triggers),
        triggers_of(triggers, predicate.uuid).len() <= 1,
        forall|i: int|
            0 <= i < triggers.len() && (#[trigger] triggers[i]).chainhook.uuid@ == predicate.uuid
                ==> triggers[i].chainhook.expire_after_occurrence == predicate.limit,
    ensures
        ({
            let may = predicate.may_be_triggered(count_of(tally, predicate.uuid) as int);
            &&& triggers_of(admitted(tally, triggers), predicate.uuid).len() == if may {
                triggers_of(triggers, predicate.uuid).len()
            } else {
                0
            }
            &&& is_named(exhausted(tally, triggers), predicate.uuid) == (!may && triggers_of(
                triggers,
                predicate.uuid,
            ).len() == 1)
        }),
    decreases triggers.len(),
{
    reveal(Seq::filter);
    if triggers.len() > 0 {
        let uuid = predicate.uuid;
        let shorter = triggers.drop_last();
        let last = triggers.last();
        let before = exhausted(tally, shorter);
        let named = exhausted(tally, triggers);
        assert(triggers[triggers.len() - 1] == last);
        fewer_counts_fit(tally, triggers);
        assert forall|i: int|
            0 <= i < shorter.len() && (#[trigger] shorter[i]).chainhook.uuid@
                == uuid implies shorter[i].chainhook.expire_after_occurrence
            == predicate.limit by {
            assert(shorter[i] == triggers[i]);
        }
        single_trigger_is_admitted_or_named(tally, shorter, predicate);
        admitted_triggers_are_counted(tally, shorter, uuid);
        let kept = admitted(tally, shorter);
        assert(kept.push(last).drop_last() =~= kept);
        if is_named(before, uuid) {
            let i = choose|i: int| 0 <= i < before.len() && (#[trigger] before[i])@ == uuid;
            assert(named[i]@ == uuid);
        }
        if is_named(named, uuid) {
            let i = choose|i: int| 0 <= i < named.len() && (#[trigger] named[i])@ == uuid;
            if i < before.len() {
                assert(before[i] == named[i]);
            }
        }
        if !within_limit(all_counted(tally, shorter), last) {
            assert(named[before.len() as int] == last.chainhook.uuid);
        }
    }
}

// What deregistrations mean for a predicate.

proof fn removal_of_another_keeps_active_hook<N>(
    hooks: Seq<NetworkChainhook<N>>,
    other: Seq<char>,
    uuid: Seq<char>,
    limit: Option<u64>,
)
    requires
        other != uuid,
        has_active_hook(hooks, uuid, limit),
    ensures
        has_active_hook(without_hook(hooks, other), uuid, limit),
{
    let i = choose|i: int|
        {
            &&& 0 <= i < hooks.len()
            &&& (#[trigger] hooks[i]).uuid@ == uuid
            &&& hooks[i].expire_after_occurrence == limit
            &&& is_active(hooks[i])
        };
    let after = without_hook(hooks, other);
    if has_hook(hooks, other) {
        let k = position_of(hooks, other)->0;
        assert(is_first_hook(hooks, other, k));
        let j = if i < k { i } else { i - 1 };
        assert(after[j] == hooks[i]);
    } else {
        assert(after[i] == hooks[i]);
    }
}

/// To deregister other hooks leaves a predicate as it is.
proof fn other_deregistrations_keep_predicate(
    predicate: Predicate,
    state: ObserverView,
    uuids: Seq<String>,
)
    requires
        predicate.is_stored(state),
        predicate.is_unambiguous(state),
        !is_named(uuids, predicate.uuid),
    ensures
        ({
            let step = state.hooks_deregistered(predicate.bitcoin, uuids);
            &&& predicate.is_stored(step.state)
            &&& predicate.is_unambiguous(step.state)
            &&& is_silent(predicate, step.actions)
        }),
    decreases uuids.len(),
{
    if uuids.len() > 0 {
        let shorter = uuids.drop_last();
        let last = uuids.last();
        assert forall|i: int| 0 <= i < shorter.len() implies (#[trigger] shorter[i])@
            != predicate.uuid by {
            assert(shorter[i] == uuids[i]);
        }
        assert(uuids[uuids.len() - 1]@ != predicate.uuid);
        other_deregistrations_keep_predicate(predicate, state, shorter);
        let before = state.hooks_deregistered(predicate.bitcoin, shorter);
        if predicate.bitcoin {
            removal_of_another_keeps_active_hook(
                before.state.bitcoin_hooks,
                last@,
                predicate.uuid,
                predicate.limit,
            );
            deregistration_keeps_uuid_unique(
                before.state.bitcoin_hooks,
                last@,
                predicate.uuid,
            );
        } else {
            removal_of_another_keeps_active_hook(
                before.state.stacks_hooks,
                last@,
                predicate.uuid,
                predicate.limit,
            );
            deregistration_keeps_uuid_unique(
                before.state.stacks_hooks,
                last@,
                predicate.uuid,
            );
        }
    }
}

/// Deregistrations handle no trigger and announce none, and change nothing but
/// the hooks.
proof fn deregistrations_announce_nothing(
    predicate: Predicate,
    state: ObserverView,
    bitcoin: bool,
    uuids: Seq<String>,
)
    ensures
        ({
            let step = state.hooks_deregistered(bitcoin, uuids);
            &&& step.state.links == state.links
            &&& step.state.occurrences == state.occurrences
            &&& predicate.times_handled(step.actions) == 0
            &&& !predicate.is_announced(step.actions)
        }),
    decreases uuids.len(),
{
    if uuids.len() > 0 {
        let before = state.hooks_deregistered(bitcoin, uuids.drop_last());
        let last = if bitcoin {
            before.state.bitcoin_hook_deregistered(uuids.last())
        } else {
            before.state.stacks_hook_deregistered(uuids.last())
        };
        deregistrations_announce_nothing(predicate, state, bitcoin, uuids.drop_last());
        handled_adds_up(predicate, before.actions, last.actions);
        told_adds_up(predicate, before.actions, last.actions);
        no_handling_no_count(predicate, last.actions);
    }
}

proof fn no_handling_no_count(predicate: Predicate, actions: Seq<ObserverActionView>)
    requires
        forall|i: int| 0 <= i < actions.len() ==> !predicate.is_handled_by(#[trigger] actions[i]),
    ensures
        predicate.times_handled(actions) == 0,
    decreases actions.len(),
{
    if actions.len() > 0 {
        let shorter = actions.drop_last();
        assert forall|i: int| 0 <= i < shorter.len() implies !predicate.is_handled_by(
            #[trigger] shorter[i],
        ) by {
            assert(shorter[i] == actions[i]);
        }
        no_handling_no_count(predicate, shorter);
        assert(!predicate.is_handled_by(actions[actions.len() - 1]));
    }
}

// The course of an event that triggers a predicate once.

/// Whether the predicate may be triggered by an event that finds the observer in
/// `state`.
spec fn may(predicate: Predicate, state: ObserverView) -> bool {
    predicate.may_be_triggered(count_of(state.occurrences, predicate.uuid) as int)
}

/// How many triggers are to be handled in all.
spec fn expected(predicate: Predicate, state: ObserverView) -> nat {
    if may(predicate, state) {
        1
    } else {
        0
    }
}

spec fn is_own(predicate: Predicate, payload: OccurrencePayload) -> bool {
    payload is Bitcoin == predicate.bitcoin && payload_uuid(payload) == predicate.uuid
}

/// A request of the predicate is still to be sent.
spec fn is_pending(predicate: Predicate, requests: Seq<PendingRequest>) -> bool {
    exists|i: int| 0 <= i < requests.len() && is_own(predicate, (#[trigger] requests[i]).payload)
}

/// No request is of the predicate.
spec fn is_unrequested(predicate: Predicate, requests: Seq<PendingRequest>) -> bool {
    forall|i: int|
        0 <= i < requests.len() ==> payload_uuid((#[trigger] requests[i]).payload)
            != predicate.uuid
}

/// The listener was told of the predicate's trigger, or will be once the request
/// is sent.
spec fn is_settled(
    predicate: Predicate,
    state: ObserverView,
    actions: Seq<ObserverActionView>,
    requests: Seq<PendingRequest>,
) -> bool {
    (state.links.listener ==> predicate.is_announced(actions)) || is_pending(predicate, requests)
}

/// What holds throughout the round.
spec fn in_round(
    predicate: Predicate,
    state: ObserverView,
    at: ObserverView,
    round: RoundView,
) -> bool {
    &&& at.links == state.links
    &&& predicate.is_unambiguous(at)
    &&& count_of(at.occurrences, predicate.uuid) == count_of(state.occurrences, predicate.uuid)
        + expected(predicate, state)
    &&& round.event is BitcoinChainEvent == predicate.bitcoin
}

/// What holds while triggers are still to be handled; `asked` tells whether the
/// predicate's own is the one that is being handled.
spec fn before_triggers(
    predicate: Predicate,
    state: ObserverView,
    at: Step,
    round: RoundView,
    asked: bool,
) -> bool {
    &&& in_round(predicate, state, at.state, round)
    &&& predicate.times_handled(at.actions) + triggers_of(round.triggers, predicate.uuid).len()
        == expected(predicate, state)
    &&& is_named(round.hooks_ids_to_deregister, predicate.uuid) == !may(predicate, state)
    &&& !predicate.is_dropped(at.actions)
    &&& may(predicate, state) ==> predicate.is_stored(at.state)
    &&& may(predicate, state) && !asked && predicate.times_handled(at.actions) == 1 ==> is_settled(
        predicate,
        state,
        at.actions,
        round.requests,
    )
    &&& !may(predicate, state) ==> {
        &&& !predicate.is_announced(at.actions)
        &&& is_unrequested(predicate, round.requests)
    }
}

/// What holds once the triggers are handled; `own` tells whether the predicate's
/// own request is the one that is being sent.
spec fn before_requests(
    predicate: Predicate,
    state: ObserverView,
    at: Step,
    round: RoundView,
    own: bool,
) -> bool {
    &&& in_round(predicate, state, at.state, round)
    &&& predicate.times_handled(at.actions) == expected(predicate, state)
    &&& may(predicate, state) ==> {
        &&& predicate.is_stored(at.state)
        &&& !predicate.is_dropped(at.actions)
        &&& own || is_settled(predicate, state, at.actions, round.requests)
    }
    &&& !may(predicate, state) ==> {
        &&& predicate.is_gone(at.state)
        &&& state.links.listener ==> predicate.is_dropped(at.actions)
        &&& !predicate.is_announced(at.actions)
        &&& is_unrequested(predicate, round.requests)
    }
}

/// What holds before the evaluation.
spec fn before_evaluation(predicate: Predicate, state: ObserverView, at: Step) -> bool {
    &&& at.state.links == state.links
    &&& at.state.bitcoin_hooks == state.bitcoin_hooks
    &&& at.state.stacks_hooks == state.stacks_hooks
    &&& at.state.occurrences == state.occurrences
    &&& is_silent(predicate, at.actions)
}

/// What holds at each point of the handling of the event.
spec fn on_course(predicate: Predicate, state: ObserverView, at: Step) -> bool {
    match at.state.phase {
        PhaseView::Idle => {
            &&& at.state.links == state.links
            &&& predicate.is_unambiguous(at.state)
            &&& may(predicate, state) ==> predicate.was_triggered(state, at)
            &&& !may(predicate, state) ==> predicate.was_dropped(state, at)
        },
        PhaseView::Mutating(_, _) => {
            &&& predicate.bitcoin
            &&& before_evaluation(predicate, state, at)
        },
        PhaseView::Evaluating(event, _) => {
            &&& event is BitcoinChainEvent == predicate.bitcoin
            &&& before_evaluation(predicate, state, at)
        },
        PhaseView::CollectingProof(round, _) => {
            &&& before_triggers(predicate, state, at, round, false)
            &&& predicate.times_handled(at.actions) == 0
        },
        PhaseView::HandlingTrigger(round) => {
            &&& asked_trigger(at.actions) matches Some(trigger)
            &&& before_triggers(
                predicate,
                state,
                at,
                round,
                trigger.chainhook.uuid@ == predicate.uuid,
            )
            &&& trigger.chainhook.uuid@ == predicate.uuid ==> predicate.is_handled_by(
                at.actions.last(),
            )
        },
        PhaseView::SendingRequest(round, payload) => {
            &&& before_requests(predicate, state, at, round, is_own(predicate, payload))
            &&& !may(predicate, state) ==> payload_uuid(payload) != predicate.uuid
        },
        _ => false,
    }
}

proof fn requests_stay_on_course(
    predicate: Predicate,
    state: ObserverView,
    at: Step,
    round: RoundView,
)
    requires
        before_requests(predicate, state, at, round, false),
    ensures
        on_course(predicate, state, at.state.requests_wanted(round).after(at.actions)),
{
    let step = at.state.requests_wanted(round);
    assert(is_silent(predicate, step.actions));
    silence_adds_nothing(predicate, at.actions, step.actions);
    if round.requests.len() > 0 {
        let rest = round.requests.drop_first();
        assert forall|i: int| 0 <= i < rest.len() implies rest[i] == #[trigger] round.requests[i
            + 1] by {}
        if is_pending(predicate, round.requests) {
            let i = choose|i: int|
                0 <= i < round.requests.len() && is_own(
                    predicate,
                    (#[trigger] round.requests[i]).payload,
                );
            if i > 0 {
                assert(rest[i - 1] == round.requests[i]);
                assert(is_own(predicate, rest[i - 1].payload));
            }
        }
        if !may(predicate, state) {
            assert forall|i: int| 0 <= i < rest.len() implies payload_uuid(
                (#[trigger] rest[i]).payload,
            ) != predicate.uuid by {
                assert(rest[i] == round.requests[i + 1]);
            }
            assert(payload_uuid(round.requests[0].payload) != predicate.uuid);
        }
    }
}

proof fn deregistrations_stay_on_course(
    predicate: Predicate,
    state: ObserverView,
    at: Step,
    round: RoundView,
)
    requires
        before_triggers(predicate, state, at, round, false),
        round.triggers.len() == 0,
    ensures
        ({
            let step = at.state.hooks_deregistered(
                predicate.bitcoin,
                round.hooks_ids_to_deregister,
            );
            before_requests(
                predicate,
                state,
                step.after(at.actions),
                RoundView { hooks_ids_to_deregister: Seq::empty(), ..round },
                false,
            )
        }),
{
    reveal(Seq::filter);
    let uuids = round.hooks_ids_to_deregister;
    let step = at.state.hooks_deregistered(predicate.bitcoin, uuids);
    deregistrations_announce_nothing(predicate, at.state, predicate.bitcoin, uuids);
    handled_adds_up(predicate, at.actions, step.actions);
    told_adds_up(predicate, at.actions, step.actions);
    if may(predicate, state) {
        other_deregistrations_keep_predicate(predicate, at.state, uuids);
        silence_says_nothing(predicate, step.actions);
    } else {
        let i = choose|i: int| 0 <= i < uuids.len() && (#[trigger] uuids[i])@ == predicate.uuid;
        let uuid = uuids[i];
        assert(uuids.contains(uuid));
        deregistered_hooks_are_gone(at.state, predicate.bitcoin, uuids, uuid);
        if state.links.listener {
            let told = ObserverActionView::Emit(ObserverEventView::PredicateDeregistered(uuid));
            let k = choose|k: int| 0 <= k < step.actions.len() && step.actions[k] == told;
            assert(predicate.is_dropped_by(step.actions[k]));
        }
    }
}

proof fn triggers_stay_on_course(
    predicate: Predicate,
    state: ObserverView,
    at: Step,
    round: RoundView,
)
    requires
        before_triggers(predicate, state, at, round, false),
    ensures
        on_course(predicate, state, at.state.triggers_wanted(round).after(at.actions)),
{
    let step = at.state.triggers_wanted(round);
    if round.triggers.len() > 0 {
        let first = round.triggers.first();
        triggers_of_go_one_by_one(round.triggers, predicate.uuid);
        handled_adds_up(predicate, at.actions, step.actions);
        told_adds_up(predicate, at.actions, step.actions);
        assert(step.actions.drop_last() =~= Seq::empty());
        reveal_with_fuel(Predicate::times_handled, 2);
        assert(predicate.times_handled(step.actions) == if first.chainhook.uuid@
            == predicate.uuid {
            1nat
        } else {
            0nat
        });
        assert(!predicate.is_announced(step.actions));
        assert(!predicate.is_dropped(step.actions));
        assert((at.actions + step.actions).last() == step.actions.last());
    } else {
        let deregistered = at.state.hooks_deregistered(
            predicate.bitcoin,
            round.hooks_ids_to_deregister,
        );
        let rest = RoundView { hooks_ids_to_deregister: Seq::empty(), ..round };
        deregistrations_stay_on_course(predicate, state, at, round);
        requests_stay_on_course(predicate, state, deregistered.after(at.actions), rest);
        after_twice(deregistered.state.requests_wanted(rest), at.actions, deregistered.actions);
    }
}

proof fn proofs_stay_on_course(
    predicate: Predicate,
    state: ObserverView,
    at: Step,
    round: RoundView,
)
    requires
        before_triggers(predicate, state, at, round, false),
        predicate.times_handled(at.actions) == 0,
    ensures
        on_course(predicate, state, at.state.proofs_wanted(round).after(at.actions)),
{
    let step = at.state.proofs_wanted(round);
    let rest = RoundView { targets: Seq::empty(), ..round };
    let news = at.state.emission(ObserverEventView::PredicatesTriggered(round.triggers.len()));
    assert(is_silent(predicate, news));
    silence_adds_nothing(predicate, at.actions, news);
    let told = Step { state: at.state, actions: at.actions + news };
    triggers_stay_on_course(predicate, state, told, rest);
    after_twice(at.state.triggers_wanted(rest), at.actions, news);
    if next_target(round.targets, round.proofs) is Some {
        assert(is_silent(predicate, step.actions));
        silence_adds_nothing(predicate, at.actions, step.actions);
    }
}

/// The command to propagate the event.
proof fn propagation_is_on_course(
    predicate: Predicate,
    state: ObserverView,
    input: ObserverInput,
)
    requires
        state.phase is Idle,
        propagates(input, predicate.bitcoin),
    ensures
        on_course(predicate, state, next(state.quietly(), input)),
{
    reveal(next);
    let step = state.step(input);
    assert(state.in_phase(PhaseView::Idle) == state);
    assert(Seq::<ObserverActionView>::empty() + step.actions =~= step.actions);
    assert(is_silent(predicate, step.actions));
}

/// The answer of the sidecar.
proof fn mutation_stays_on_course(
    predicate: Predicate,
    state: ObserverView,
    at: Step,
    input: ObserverInput,
)
    requires
        on_course(predicate, state, at),
        at.state.phase is Mutating,
        at.state.accepts(input),
    ensures
        on_course(predicate, state, next(at, input)),
{
    reveal(next);
    let step = at.state.step(input);
    assert(is_silent(predicate, step.actions));
    assert(is_silent(predicate, at.actions + step.actions));
    assert((at.actions + step.actions).last() == step.actions.last());
}

/// The evaluation.
proof fn evaluation_stays_on_course(
    predicate: Predicate,
    state: ObserverView,
    at: Step,
    input: ObserverInput,
)
    requires
        predicate.is_stored(state),
        predicate.is_unambiguous(state),
        on_course(predicate, state, at),
        at.state.phase is Evaluating,
        at.state.accepts(input),
        is_faithful(at, input),
        predicate.is_triggered_once_by(input),
    ensures
        on_course(predicate, state, next(at, input)),
{
    reveal(next);
    let idle = at.state.in_phase(PhaseView::Idle);
    if let PhaseView::Evaluating(event, new_tip) = at.state.phase {
        if let ObserverInput::Evaluated(evaluation) = input {
            let triggers = evaluation.predicates_triggered@;
            let counted = ObserverView {
                occurrences: all_counted(idle.occurrences, triggers),
                ..idle
            };
            single_trigger_is_admitted_or_named(idle.occurrences, triggers, predicate);
            admitted_triggers_are_counted(idle.occurrences, triggers, predicate.uuid);
            let round = idle.first_round(event, new_tip, evaluation);
            let preparation = ObserverView::preparation(round);
            silence_says_nothing(predicate, at.actions);
            silence_adds_nothing(predicate, at.actions, preparation);
            proofs_stay_on_course(
                predicate,
                state,
                Step { state: counted, actions: at.actions + preparation },
                round,
            );
            after_twice(counted.proofs_wanted(round), at.actions, preparation);
        }
    }
}

/// The answer to the request for a proof.
proof fn proof_stays_on_course(
    predicate: Predicate,
    state: ObserverView,
    at: Step,
    input: ObserverInput,
)
    requires
        on_course(predicate, state, at),
        at.state.phase is CollectingProof,
        at.state.accepts(input),
    ensures
        on_course(predicate, state, next(at, input)),
{
    reveal(next);
    let idle = Step { state: at.state.in_phase(PhaseView::Idle), actions: at.actions };
    if let PhaseView::CollectingProof(round, target) = at.state.phase {
        if let ObserverInput::ProofCollected(answer) = input {
            proofs_stay_on_course(predicate, state, idle, round);
            if let Ok(proof) = answer {
                proofs_stay_on_course(predicate, state, idle, round.with_proof(target, proof@));
            }
        }
    }
}

/// The answer about a trigger.
proof fn trigger_stays_on_course(
    predicate: Predicate,
    state: ObserverView,
    at: Step,
    input: ObserverInput,
)
    requires
        on_course(predicate, state, at),
        at.state.phase is HandlingTrigger,
        at.state.accepts(input),
        is_faithful(at, input),
        predicate.succeeds(at, input),
    ensures
        on_course(predicate, state, next(at, input)),
{
    reveal(next);
    let idle = Step { state: at.state.in_phase(PhaseView::Idle), actions: at.actions };
    if let PhaseView::HandlingTrigger(round) = at.state.phase {
        if let ObserverInput::TriggerHandled(occurrence) = input {
            let trigger = asked_trigger(at.actions)->0;
            let asked = trigger.chainhook.uuid@ == predicate.uuid;
            match occurrence {
                Some(ChainhookOccurrence::Http(request, payload)) => {
                    let more = round.with_request(request, payload);
                    let last = round.requests.len() as int;
                    assert(more.requests[last].payload == payload);
                    if asked {
                        assert(is_own(predicate, more.requests[last].payload));
                    }
                    if is_pending(predicate, round.requests) {
                        let i = choose|i: int|
                            0 <= i < round.requests.len() && is_own(
                                predicate,
                                (#[trigger] round.requests[i]).payload,
                            );
                        assert(is_own(predicate, more.requests[i].payload));
                    }
                    if !may(predicate, state) {
                        assert forall|i: int| 0 <= i < more.requests.len() implies payload_uuid(
                            (#[trigger] more.requests[i]).payload,
                        ) != predicate.uuid by {
                            if i < last {
                                assert(more.requests[i] == round.requests[i]);
                            }
                        }
                    }
                    triggers_stay_on_course(predicate, state, idle, more);
                },
                Some(ChainhookOccurrence::Data(payload)) => {
                    let news = idle.state.occurrence_told(payload);
                    let told = Step { state: idle.state, actions: at.actions + news };
                    assert(forall|i: int|
                        0 <= i < news.len() ==> !predicate.is_handled_by(#[trigger] news[i]));
                    no_handling_no_count(predicate, news);
                    handled_adds_up(predicate, at.actions, news);
                    told_adds_up(predicate, at.actions, news);
                    assert(!predicate.is_dropped(news));
                    if asked && state.links.listener {
                        assert(predicate.is_announced_by(news[0]));
                    }
                    if !asked {
                        assert(!predicate.is_announced(news));
                    }
                    triggers_stay_on_course(predicate, state, told, round);
                    after_twice(idle.state.triggers_wanted(round), at.actions, news);
                },
                _ => {
                    triggers_stay_on_course(predicate, state, idle, round);
                },
            }
        }
    }
}

/// The answer about a request.
proof fn request_stays_on_course(
    predicate: Predicate,
    state: ObserverView,
    at: Step,
    input: ObserverInput,
)
    requires
        on_course(predicate, state, at),
        at.state.phase is SendingRequest,
        at.state.accepts(input),
        predicate.succeeds(at, input),
    ensures
        on_course(predicate, state, next(at, input)),
{
    reveal(next);
    let idle = at.state.in_phase(PhaseView::Idle);
    if let PhaseView::SendingRequest(round, payload) = at.state.phase {
        if let ObserverInput::RequestSent { outcome, predicate_key } = input {
            match outcome {
                Ok(_) => {
                    let news = idle.occurrence_told(payload);
                    let told = Step { state: idle, actions: at.actions + news };
                    assert(forall|i: int|
                        0 <= i < news.len() ==> !predicate.is_handled_by(#[trigger] news[i]));
                    no_handling_no_count(predicate, news);
                    handled_adds_up(predicate, at.actions, news);
                    told_adds_up(predicate, at.actions, news);
                    assert(!predicate.is_dropped(news));
                    if is_own(predicate, payload) && state.links.listener {
                        assert(predicate.is_announced_by(news[0]));
                    }
                    if payload_uuid(payload) != predicate.uuid {
                        assert(!predicate.is_announced(news));
                    }
                    requests_stay_on_course(predicate, state, told, round);
                    after_twice(idle.requests_wanted(round), at.actions, news);
                },
                Err(error) => {
                    let interrupted = idle.predicate_interrupted(payload, predicate_key, error@);
                    interruption_spares_predicate(predicate, idle, payload, predicate_key, error@);
                    silence_adds_nothing(predicate, at.actions, interrupted.actions);
                    requests_stay_on_course(
                        predicate,
                        state,
                        interrupted.after(at.actions),
                        round,
                    );
                    after_twice(
                        interrupted.state.requests_wanted(round),
                        at.actions,
                        interrupted.actions,
                    );
                },
            }
        }
    }
}

/// The interruption of another predicate.
proof fn interruption_spares_predicate(
    predicate: Predicate,
    state: ObserverView,
    payload: OccurrencePayload,
    predicate_key: String,
    error: Seq<char>,
)
    requires
        predicate.is_unambiguous(state),
        payload_uuid(payload) != predicate.uuid,
    ensures
        ({
            let step = state.predicate_interrupted(payload, predicate_key, error);
            &&& step.state.links == state.links
            &&& step.state.occurrences == state.occurrences
            &&& predicate.is_unambiguous(step.state)
            &&& predicate.is_stored(state) ==> predicate.is_stored(step.state)
            &&& predicate.is_gone(state) ==> predicate.is_gone(step.state)
            &&& is_silent(predicate, step.actions)
        }),
{
    let other = payload_uuid(payload);
    if predicate.bitcoin && payload is Bitcoin {
        deregistration_keeps_uuid_unique(state.bitcoin_hooks, other, predicate.uuid);
        deregistration_spares_other_hooks(state.bitcoin_hooks, other, predicate.uuid);
        if predicate.is_stored(state) {
            removal_of_another_keeps_active_hook(
                state.bitcoin_hooks,
                other,
                predicate.uuid,
                predicate.limit,
            );
        }
    }
    if !predicate.bitcoin && payload is Stacks {
        deregistration_keeps_uuid_unique(state.stacks_hooks, other, predicate.uuid);
        deregistration_spares_other_hooks(state.stacks_hooks, other, predicate.uuid);
        if predicate.is_stored(state) {
            removal_of_another_keeps_active_hook(
                state.stacks_hooks,
                other,
                predicate.uuid,
                predicate.limit,
            );
        }
    }
}

/// An answer.
proof fn answer_stays_on_course(
    predicate: Predicate,
    state: ObserverView,
    at: Step,
    input: ObserverInput,
)
    requires
        predicate.is_stored(state),
        predicate.is_unambiguous(state),
        on_course(predicate, state, at),
        at.state.accepts(input),
        is_answer(input),
        is_faithful(at, input),
        predicate.is_triggered_once_by(input),
        predicate.succeeds(at, input),
    ensures
        on_course(predicate, state, next(at, input)),
{
    match at.state.phase {
        PhaseView::Mutating(_, _) => {
            mutation_stays_on_course(predicate, state, at, input);
        },
        PhaseView::Evaluating(_, _) => {
            evaluation_stays_on_course(predicate, state, at, input);
        },
        PhaseView::CollectingProof(_, _) => {
            proof_stays_on_course(predicate, state, at, input);
        },
        PhaseView::HandlingTrigger(_) => {
            trigger_stays_on_course(predicate, state, at, input);
        },
        PhaseView::SendingRequest(_, _) => {
            request_stays_on_course(predicate, state, at, input);
        },
        _ => {},
    }
}

proof fn handling_stays_on_course(
    predicate: Predicate,
    state: ObserverView,
    inputs: Seq<ObserverInput>,
    i: int,
)
    requires
        predicate.is_stored(state),
        predicate.is_unambiguous(state),
        predicate.is_matched_by(state, inputs),
        0 < i <= inputs.len(),
    ensures
        on_course(predicate, state, run(state, inputs.take(i))),
    decreases i,
{
    run_goes_on(state, inputs, i - 1);
    if i == 1 {
        assert(inputs.take(0) =~= Seq::empty());
        propagation_is_on_course(predicate, state, inputs[0]);
    } else {
        handling_stays_on_course(predicate, state, inputs, i - 1);
        assert(accepted_at(state, inputs, i - 1));
        assert(faithful_at(state, inputs, i - 1));
        assert(predicate.succeeds_at(state, inputs, i - 1));
        answer_stays_on_course(
            predicate,
            state,
            run(state, inputs.take(i - 1)),
            inputs[i - 1],
        );
    }
}

/// A chain event that triggers a stored, active predicate once leads to its
/// trigger being handled and told, as long as the number of its occurrences is
/// below the limit that the store holds; from then on it leads to the predicate
/// being dropped. Without a limit the predicate is always triggered.
pub proof fn predicate_is_triggered_or_dropped(
    predicate: Predicate,
    state: ObserverView,
    inputs: Seq<ObserverInput>,
)
    requires
        predicate.is_stored(state),
        predicate.is_unambiguous(state),
        predicate.is_matched_by(state, inputs),
    ensures
        ({
            let after = run(state, inputs);
            &&& after.state.phase is Idle
            &&& after.state.links == state.links
            &&& predicate.is_unambiguous(after.state)
            &&& if predicate.may_be_triggered(
                count_of(state.occurrences, predicate.uuid) as int,
            ) {
                predicate.was_triggered(state, after)
            } else {
                predicate.was_dropped(state, after)
            }
        }),
{
    handling_stays_on_course(predicate, state, inputs, inputs.len() as int);
    assert(inputs.take(inputs.len() as int) =~= inputs);
}

/// The state after several chain events, each handled to its end.
pub open spec fn after_events(
    state: ObserverView,
    events: Seq<Seq<ObserverInput>>,
) -> ObserverView
    decreases events.len(),
{
    if events.len() == 0 {
        state
    } else {
        run(after_events(state, events.drop_last()), events.last()).state
    }
}

/// The event at `k`, and what comes of it.
pub open spec fn event_at(
    state: ObserverView,
    events: Seq<Seq<ObserverInput>>,
    k: int,
) -> Step {
    run(after_events(state, events.take(k)), events[k])
}

impl Predicate {
    /// The event at `k` triggers the predicate once.
    pub open spec fn is_matched_at(
        self,
        state: ObserverView,
        events: Seq<Seq<ObserverInput>>,
        k: int,
    ) -> bool {
        self.is_matched_by(after_events(state, events.take(k)), events[k])
    }

    /// The event at `k` comes to the predicate being triggered, or to its being
    /// dropped once the limit is reached.
    pub open spec fn is_treated_rightly_at(
        self,
        state: ObserverView,
        events: Seq<Seq<ObserverInput>>,
        k: int,
    ) -> bool {
        let before = after_events(state, events.take(k));
        if self.may_be_triggered(k) {
            self.was_triggered(before, event_at(state, events, k))
        } else {
            self.was_dropped(before, event_at(state, events, k))
        }
    }
}

proof fn events_count_up(
    predicate: Predicate,
    state: ObserverView,
    events: Seq<Seq<ObserverInput>>,
    k: int,
)
    requires
        predicate.is_stored(state),
        predicate.is_unambiguous(state),
        count_of(state.occurrences, predicate.uuid) == 0,
        forall|j: int|
            0 <= j < events.len() ==> #[trigger] predicate.is_matched_at(state, events, j),
        0 <= k <= events.len(),
        predicate.allowance() > 0 ==> k <= predicate.allowance(),
    ensures
        ({
            let at = after_events(state, events.take(k));
            &&& at.links == state.links
            &&& predicate.is_stored(at)
            &&& predicate.is_unambiguous(at)
            &&& count_of(at.occurrences, predicate.uuid) == k
        }),
    decreases k,
{
    if k == 0 {
        assert(events.take(0) =~= Seq::empty());
    } else {
        events_count_up(predicate, state, events, k - 1);
        assert(predicate.is_matched_at(state, events, k - 1));
        assert(events.take(k).drop_last() =~= events.take(k - 1));
        predicate_is_triggered_or_dropped(
            predicate,
            after_events(state, events.take(k - 1)),
            events[k - 1],
        );
    }
}

/// A stored, active predicate that was never triggered, and that expires after a
/// number of occurrences, is triggered by that many chain events. At the next
/// one it is dropped: nothing is handled, the predicate leaves the store, and
/// whoever listens is told that it was deregistered. An occurrence is one chain
/// event, however many blocks it holds. Without a limit, or with a limit of zero,
/// every event triggers it.
pub proof fn predicate_is_triggered_as_often_as_it_may_be(
    predicate: Predicate,
    state: ObserverView,
    events: Seq<Seq<ObserverInput>>,
)
    requires
        predicate.is_stored(state),
        predicate.is_unambiguous(state),
        count_of(state.occurrences, predicate.uuid) == 0,
        predicate.allowance() > 0 ==> events.len() <= predicate.allowance() + 1,
        forall|k: int|
            0 <= k < events.len() ==> #[trigger] predicate.is_matched_at(state, events, k),
    ensures
        forall|k: int|
            0 <= k < events.len() ==> #[trigger] predicate.is_treated_rightly_at(state, events, k),
{
    assert forall|k: int| 0 <= k < events.len() implies #[trigger] predicate.is_treated_rightly_at(
        state,
        events,
        k,
    ) by {
        events_count_up(predicate, state, events, k);
        assert(predicate.is_matched_at(state, events, k));
        predicate_is_triggered_or_dropped(
            predicate,
            after_events(state, events.take(k)),
            events[k],
        );
    }
}

} // verus!
