//! Laws on what commands and answers lead to in the end: for predicates, for
//! blocks, for the sidecar and for the monitoring.

use vstd::prelude::*;

use crate::blocks::{announced, blocks_of, filed, gained_headers, resolution, unprocessed};
use crate::chain::{
    BitcoinBlockData, BitcoinBlockFullBreakdown, BitcoinChainEventView, BlockchainEvent,
};
use crate::commands::{ObserverCommand, ObserverEventView};
use crate::hooks::{
    active_hooks, enabled_hook, has_hook, without_hook, ChainhookFullSpecification,
    ChainhookSpecification, MultiNetworkChainhook,
};
use crate::laws::blocks::cached_block_is_propagated;
use crate::laws::hooks::{
    active_hook_is_present, deregistered_hook_is_gone, deregistration_spares_other_hooks,
    deregistration_keeps_uuid_unique, enabled_hook_is_active, is_unique,
    registered_hook_is_not_active,
};
use crate::network::{BitcoinNetwork, StacksNetwork};
use crate::protocol::{
    BlockAttempt, ObserverActionView, ObserverInput, OccurrencePayload, PhaseView, RoundView,
};
use crate::sidecar::notifications;
use crate::transition::{ObserverView, MAX_ATTEMPTS};

verus! {

/// A Bitcoin predicate with a new uuid is evaluated once it is enabled. Where
/// nobody listens it is enabled as it is registered; where someone does, it
/// waits for the command.
pub proof fn bitcoin_predicate_is_evaluated_once_enabled(
    state: ObserverView,
    predicate: MultiNetworkChainhook<BitcoinNetwork>,
)
    requires
        state.phase is Idle,
        predicate.on(state.bitcoin_network) is Some,
        !has_hook(state.bitcoin_hooks, predicate.uuid@),
    ensures
        ({
            let hook = predicate.on(state.bitcoin_network)->0;
            let registered = state.on_command(
                ObserverCommand::RegisterPredicate(ChainhookFullSpecification::Bitcoin(predicate)),
            ).state;
            let enabled = registered.on_command(
                ObserverCommand::EnablePredicate(ChainhookSpecification::Bitcoin(hook)),
            ).state;
            let active = active_hooks(state.bitcoin_hooks);
            if state.links.listener {
                &&& active_hooks(registered.bitcoin_hooks) == active
                &&& active_hooks(enabled.bitcoin_hooks) == active.push(enabled_hook(hook))
            } else {
                active_hooks(registered.bitcoin_hooks) == active.push(enabled_hook(hook))
            }
        }),
{
    let hook = predicate.on(state.bitcoin_network)->0;
    registered_hook_is_not_active(state.bitcoin_hooks, predicate, state.bitcoin_network);
    enabled_hook_is_active(state.bitcoin_hooks, hook);
}

/// A Stacks predicate with a new uuid is evaluated once it is enabled. Where
/// nobody listens it is enabled as it is registered; where someone does, it
/// waits for the command.
pub proof fn stacks_predicate_is_evaluated_once_enabled(
    state: ObserverView,
    predicate: MultiNetworkChainhook<StacksNetwork>,
)
    requires
        state.phase is Idle,
        predicate.on(state.stacks_network) is Some,
        !has_hook(state.stacks_hooks, predicate.uuid@),
    ensures
        ({
            let hook = predicate.on(state.stacks_network)->0;
            let registered = state.on_command(
                ObserverCommand::RegisterPredicate(ChainhookFullSpecification::Stacks(predicate)),
            ).state;
            let enabled = registered.on_command(
                ObserverCommand::EnablePredicate(ChainhookSpecification::Stacks(hook)),
            ).state;
            let active = active_hooks(state.stacks_hooks);
            if state.links.listener {
                &&& active_hooks(registered.stacks_hooks) == active
                &&& active_hooks(enabled.stacks_hooks) == active.push(enabled_hook(hook))
            } else {
                active_hooks(registered.stacks_hooks) == active.push(enabled_hook(hook))
            }
        }),
{
    let hook = predicate.on(state.stacks_network)->0;
    registered_hook_is_not_active(state.stacks_hooks, predicate, state.stacks_network);
    enabled_hook_is_active(state.stacks_hooks, hook);
}

/// A predicate that was deregistered by command is evaluated no more, unless the
/// store holds another hook with its uuid.
pub proof fn deregistered_predicate_is_not_evaluated(state: ObserverView, uuid: String)
    ensures
        is_unique(state.bitcoin_hooks, uuid@) ==> !has_hook(
            active_hooks(
                state.on_command(
                    ObserverCommand::DeregisterBitcoinPredicate(uuid),
                ).state.bitcoin_hooks,
            ),
            uuid@,
        ),
        is_unique(state.stacks_hooks, uuid@) ==> !has_hook(
            active_hooks(
                state.on_command(
                    ObserverCommand::DeregisterStacksPredicate(uuid),
                ).state.stacks_hooks,
            ),
            uuid@,
        ),
{
    if is_unique(state.bitcoin_hooks, uuid@) {
        deregistered_hook_is_gone(state.bitcoin_hooks, uuid@);
        active_hook_is_present(without_hook(state.bitcoin_hooks, uuid@), uuid@);
    }
    if is_unique(state.stacks_hooks, uuid@) {
        deregistered_hook_is_gone(state.stacks_hooks, uuid@);
        active_hook_is_present(without_hook(state.stacks_hooks, uuid@), uuid@);
    }
}

/// Hooks that are deregistered one after the other are all gone, and whoever
/// listens is told of each.
pub(crate) proof fn deregistered_hooks_are_gone(
    state: ObserverView,
    bitcoin: bool,
    uuids: Seq<String>,
    uuid: String,
)
    requires
        bitcoin ==> is_unique(state.bitcoin_hooks, uuid@),
        !bitcoin ==> is_unique(state.stacks_hooks, uuid@),
    ensures
        ({
            let step = state.hooks_deregistered(bitcoin, uuids);
            &&& step.state.links == state.links
            &&& bitcoin ==> is_unique(step.state.bitcoin_hooks, uuid@)
            &&& !bitcoin ==> is_unique(step.state.stacks_hooks, uuid@)
            &&& uuids.contains(uuid) ==> {
                &&& bitcoin ==> !has_hook(step.state.bitcoin_hooks, uuid@)
                &&& !bitcoin ==> !has_hook(step.state.stacks_hooks, uuid@)
                &&& state.links.listener ==> step.actions.contains(
                    ObserverActionView::Emit(ObserverEventView::PredicateDeregistered(uuid)),
                )
            }
        }),
    decreases uuids.len(),
{
    if uuids.len() > 0 {
        let shorter = uuids.drop_last();
        let last = uuids.last();
        let before = state.hooks_deregistered(bitcoin, shorter);
        let step = state.hooks_deregistered(bitcoin, uuids);
        let told = ObserverActionView::Emit(ObserverEventView::PredicateDeregistered(uuid));
        deregistered_hooks_are_gone(state, bitcoin, shorter, uuid);
        if bitcoin {
            deregistration_keeps_uuid_unique(before.state.bitcoin_hooks, last@, uuid@);
            if uuid@ == last@ {
                deregistered_hook_is_gone(before.state.bitcoin_hooks, uuid@);
            } else {
                deregistration_spares_other_hooks(before.state.bitcoin_hooks, last@, uuid@);
            }
        } else {
            deregistration_keeps_uuid_unique(before.state.stacks_hooks, last@, uuid@);
            if uuid@ == last@ {
                deregistered_hook_is_gone(before.state.stacks_hooks, uuid@);
            } else {
                deregistration_spares_other_hooks(before.state.stacks_hooks, last@, uuid@);
            }
        }
        if uuids.contains(uuid) && uuid != last {
            let i = choose|i: int| 0 <= i < uuids.len() && uuids[i] == uuid;
            assert(shorter[i] == uuid);
            if state.links.listener {
                let k = choose|k: int| 0 <= k < before.actions.len() && before.actions[k] == told;
                assert(step.actions[k] == told);
            }
        }
        if uuid == last && state.links.listener {
            assert(step.actions.last() == told);
        }
    }
}

/// Once the triggers of a round are handled, the predicates that have exceeded
/// their occurrences are gone, and whoever listens is told of each.
pub proof fn exhausted_predicates_are_deregistered(
    state: ObserverView,
    round: RoundView,
    uuid: String,
)
    requires
        round.triggers.len() == 0,
        round.hooks_ids_to_deregister.contains(uuid),
        round.event is BitcoinChainEvent ==> is_unique(state.bitcoin_hooks, uuid@),
        round.event is StacksChainEvent ==> is_unique(state.stacks_hooks, uuid@),
    ensures
        ({
            let step = state.triggers_wanted(round);
            &&& round.event is BitcoinChainEvent ==> !has_hook(step.state.bitcoin_hooks, uuid@)
            &&& round.event is StacksChainEvent ==> !has_hook(step.state.stacks_hooks, uuid@)
            &&& state.links.listener ==> step.actions.contains(
                ObserverActionView::Emit(ObserverEventView::PredicateDeregistered(uuid)),
            )
        }),
{
    let bitcoin = round.event is BitcoinChainEvent;
    let step = state.triggers_wanted(round);
    let deregistered = state.hooks_deregistered(bitcoin, round.hooks_ids_to_deregister);
    let told = ObserverActionView::Emit(ObserverEventView::PredicateDeregistered(uuid));
    deregistered_hooks_are_gone(state, bitcoin, round.hooks_ids_to_deregister, uuid);
    if state.links.listener {
        let k = choose|k: int|
            0 <= k < deregistered.actions.len() && deregistered.actions[k] == told;
        assert(step.actions[k] == told);
    }
}

/// A predicate whose request could not be sent is gone.
pub proof fn interrupted_predicate_is_gone(
    state: ObserverView,
    round: RoundView,
    payload: OccurrencePayload,
    error: String,
    predicate_key: String,
)
    requires
        state.phase == PhaseView::SendingRequest(round, payload),
        payload matches OccurrencePayload::Bitcoin(payload) ==> is_unique(
            state.bitcoin_hooks,
            payload.chainhook.uuid@,
        ),
        payload matches OccurrencePayload::Stacks(payload) ==> is_unique(
            state.stacks_hooks,
            payload.chainhook.uuid@,
        ),
    ensures
        ({
            let after = state.step(
                ObserverInput::RequestSent { outcome: Err(error), predicate_key },
            ).state;
            &&& payload matches OccurrencePayload::Bitcoin(payload) ==> !has_hook(
                after.bitcoin_hooks,
                payload.chainhook.uuid@,
            )
            &&& payload matches OccurrencePayload::Stacks(payload) ==> !has_hook(
                after.stacks_hooks,
                payload.chainhook.uuid@,
            )
        }),
{
    match payload {
        OccurrencePayload::Bitcoin(payload) => {
            deregistered_hook_is_gone(state.bitcoin_hooks, payload.chainhook.uuid@);
        },
        OccurrencePayload::Stacks(payload) => {
            deregistered_hook_is_gone(state.stacks_hooks, payload.chainhook.uuid@);
        },
    }
}

/// The blocks that the chain gains in a chain event.
pub open spec fn gained_blocks(event: BitcoinChainEventView) -> Seq<BitcoinBlockData> {
    match event {
        BitcoinChainEventView::ChainUpdatedWithBlocks { new_blocks, .. } => new_blocks,
        BitcoinChainEventView::ChainUpdatedWithReorg { blocks_to_apply, .. } => blocks_to_apply,
    }
}

/// A block that was cached is among those on which the predicates are evaluated
/// when the chain gains it. Where a sidecar reworks blocks, it is handed the
/// block first.
pub proof fn cached_block_reaches_the_predicates(
    state: ObserverView,
    block: BitcoinBlockData,
    event: BlockchainEvent,
)
    requires
        state.phase is Idle,
        announced(gained_headers(event), block.block_identifier.hash@),
    ensures
        ({
            let cached = state.step(
                ObserverInput::Command(ObserverCommand::CacheBitcoinBlock(block)),
            ).state;
            let actions = cached.step(
                ObserverInput::Command(ObserverCommand::PropagateBitcoinChainEvent(event)),
            ).actions;
            if state.links.blocks_mutator {
                &&& actions.last() matches ObserverActionView::MutateBlocks(blocks, _)
                &&& blocks.contains(unprocessed(block))
            } else {
                &&& actions.last() matches ObserverActionView::EvaluateBitcoin(event, _)
                &&& gained_blocks(event).contains(block)
            }
        }),
{
    cached_block_is_propagated(state.blocks, block, event);
    let cache = filed(state.blocks, unprocessed(block));
    let resolved = resolution(cache, event, false);
    let gained = resolved.pending.blocks_to_apply;
    assert(gained + blocks_of(resolved.blocks_to_mutate) =~= gained);
}

/// A block that is standardised enters the cache as one that is cached.
pub proof fn processed_block_is_cached(
    state: ObserverView,
    raw: BitcoinBlockFullBreakdown,
    block: BitcoinBlockData,
)
    requires
        state.phase is Idle,
    ensures
        state.step(ObserverInput::Command(ObserverCommand::ProcessBitcoinBlock(raw))).state.step(
            ObserverInput::BlockStandardized(block),
        ).state == state.step(
            ObserverInput::Command(ObserverCommand::CacheBitcoinBlock(block)),
        ).state,
{
}

/// What follows a failed attempt to standardise a block: the block is tried as it
/// is, or it is downloaded anew, which may fail too.
pub enum Retry {
    AsItIs,
    Downloaded(Option<BitcoinBlockFullBreakdown>),
}

/// The state once an attempt failed and the next one is under way, if there is
/// one.
#[verifier::opaque]
pub open spec fn after_failure(state: ObserverView, retry: Retry) -> ObserverView {
    match retry {
        Retry::AsItIs => state.step(ObserverInput::BlockRejected { refetch_block: false }).state,
        Retry::Downloaded(downloaded) => {
            let waiting = state.step(ObserverInput::BlockRejected { refetch_block: true }).state;
            if waiting.phase is Terminated {
                waiting
            } else {
                waiting.step(ObserverInput::BlockDownloaded(downloaded)).state
            }
        },
    }
}

/// The state after several failed attempts.
pub open spec fn after_failures(state: ObserverView, retries: Seq<Retry>) -> ObserverView
    decreases retries.len(),
{
    if retries.len() == 0 {
        state
    } else {
        after_failure(after_failures(state, retries.drop_last()), retries.last())
    }
}

/// One failed attempt.
proof fn failure_is_counted(state: ObserverView, attempt: BlockAttempt, retry: Retry)
    requires
        state.phase == PhaseView::Standardizing(attempt),
        attempt.attempts <= MAX_ATTEMPTS,
    ensures
        ({
            let phase = after_failure(state, retry).phase;
            if attempt.attempts < MAX_ATTEMPTS {
                &&& phase matches PhaseView::Standardizing(next)
                &&& next.attempts == attempt.attempts + 1
                &&& next.block_hash == attempt.block_hash
            } else {
                phase is Terminated
            }
        }),
{
    reveal(after_failure);
}

/// Nothing follows the end.
proof fn failure_changes_no_end(state: ObserverView, retry: Retry)
    requires
        state.phase is Terminated,
    ensures
        after_failure(state, retry).phase is Terminated,
{
    reveal(after_failure);
}

/// Several failed attempts.
proof fn failures_are_counted(state: ObserverView, attempt: BlockAttempt, retries: Seq<Retry>)
    requires
        state.phase == PhaseView::Standardizing(attempt),
        attempt.attempts == 0,
    ensures
        ({
            let phase = after_failures(state, retries).phase;
            if retries.len() <= MAX_ATTEMPTS {
                &&& phase matches PhaseView::Standardizing(next)
                &&& next.attempts == retries.len()
                &&& next.block_hash == attempt.block_hash
            } else {
                phase is Terminated
            }
        }),
    decreases retries.len(),
{
    if retries.len() > 0 {
        failures_are_counted(state, attempt, retries.drop_last());
        let before = after_failures(state, retries.drop_last());
        if retries.len() <= MAX_ATTEMPTS + 1 {
            failure_is_counted(before, before.phase->Standardizing_0, retries.last());
        } else {
            failure_changes_no_end(before, retries.last());
        }
    }
}

/// The observer tries a block anew after each of the first ten failures, and
/// gives up for good at the eleventh, however the failures come about. A block
/// that is downloaded anew is always the one that was to be processed.
pub proof fn observer_gives_up_after_ten_retries(
    state: ObserverView,
    block: BitcoinBlockFullBreakdown,
    retries: Seq<Retry>,
)
    requires
        state.phase is Idle,
    ensures
        ({
            let started = state.step(
                ObserverInput::Command(ObserverCommand::ProcessBitcoinBlock(block)),
            ).state;
            let phase = after_failures(started, retries).phase;
            if retries.len() <= MAX_ATTEMPTS {
                &&& phase matches PhaseView::Standardizing(attempt)
                &&& attempt.attempts == retries.len()
                &&& attempt.block_hash == block.hash
            } else {
                phase is Terminated
            }
        }),
{
    let started = state.step(
        ObserverInput::Command(ObserverCommand::ProcessBitcoinBlock(block)),
    ).state;
    let attempt = BlockAttempt { block, block_hash: block.hash, attempts: 0 };
    failures_are_counted(started, attempt, retries);
}

/// A sidecar is told of the blocks that the chain loses before it is told of
/// those that it gains.
pub proof fn blocks_are_undone_before_others_are_applied(
    event: BitcoinChainEventView,
    i: int,
    j: int,
)
    requires
        0 <= i < notifications(event).len(),
        0 <= j < notifications(event).len(),
        notifications(event)[i] is UndoBlock,
        notifications(event)[j] is ApplyBlock,
    ensures
        i < j,
{
}

} // verus!
