//! Laws on single commands: what each of them does to the store, the cache and
//! the observer's partners, and what it leaves alone.

use vstd::prelude::*;

use crate::blocks::BitcoinBlockDataCached;
use crate::chain::{BitcoinBlockData, BitcoinBlockFullBreakdown};
use crate::commands::{
    HookExpirationData, ObserverCommand, ObserverEventView, StacksChainMempoolEvent,
};
use crate::hooks::{
    has_hook, is_first_hook, is_first_section, position_of, with_hook_enabled, with_hook_expired,
    without_hook, BitcoinChainhookSpecification, ChainhookFullSpecification,
    ChainhookSpecification, MultiNetworkChainhook, NetworkChainhook, StacksChainhookSpecification,
};
use crate::laws::hooks::{hook_is_found_iff_present, is_unique};
use crate::metrics::Metric;
use crate::network::{BitcoinNetwork, StacksNetwork};
use crate::protocol::{
    BlockAttempt, ChainhookOccurrence, ObserverActionView, ObserverInput, PhaseView,
};
use crate::transition::{ObserverView, Step};

verus! {

/// What the listener hears, where there is one.
pub open spec fn heard(listener: bool, event: ObserverEventView) -> Seq<ObserverActionView> {
    if listener {
        seq![ObserverActionView::Emit(event)]
    } else {
        Seq::empty()
    }
}

/// Some hook has the given uuid.
pub open spec fn is_held<N>(hooks: Seq<NetworkChainhook<N>>, uuid: Seq<char>) -> bool {
    exists|i: int| 0 <= i < hooks.len() && (#[trigger] hooks[i]).uuid@ == uuid
}

/// The hook at `i` is the first with the given uuid.
pub open spec fn stands_first<N>(
    hooks: Seq<NetworkChainhook<N>>,
    uuid: Seq<char>,
    i: int,
) -> bool {
    &&& 0 <= i < hooks.len()
    &&& hooks[i].uuid@ == uuid
    &&& forall|j: int| 0 <= j < i ==> (#[trigger] hooks[j]).uuid@ != uuid
}

/// The first hook with the given uuid is enabled, and nothing else is different.
pub open spec fn is_enabled_among<N>(
    before: Seq<NetworkChainhook<N>>,
    uuid: Seq<char>,
    after: Seq<NetworkChainhook<N>>,
) -> bool {
    &&& after.len() == before.len()
    &&& forall|i: int|
        0 <= i < after.len() ==> #[trigger] after[i] == if stands_first(before, uuid, i) {
            NetworkChainhook { enabled: true, ..before[i] }
        } else {
            before[i]
        }
}

/// The first hook with the given uuid is expired at a height, and nothing else is
/// different.
pub open spec fn is_expired_among<N>(
    before: Seq<NetworkChainhook<N>>,
    uuid: Seq<char>,
    block_height: u64,
    after: Seq<NetworkChainhook<N>>,
) -> bool {
    &&& after.len() == before.len()
    &&& forall|i: int|
        0 <= i < after.len() ==> #[trigger] after[i] == if stands_first(before, uuid, i) {
            NetworkChainhook { expired_at: Some(block_height), ..before[i] }
        } else {
            before[i]
        }
}

/// The hooks without the one at `p`.
pub open spec fn is_closed_up<N>(
    before: Seq<NetworkChainhook<N>>,
    p: int,
    after: Seq<NetworkChainhook<N>>,
) -> bool {
    &&& after.len() == before.len() - 1
    &&& forall|i: int|
        0 <= i < after.len() ==> #[trigger] after[i] == before[if i < p {
            i
        } else {
            i + 1
        }]
}

/// The first hook with the given uuid is gone, and nothing else is different.
pub open spec fn is_gone_from<N>(
    before: Seq<NetworkChainhook<N>>,
    uuid: Seq<char>,
    after: Seq<NetworkChainhook<N>>,
) -> bool {
    if is_held(before, uuid) {
        exists|p: int| #[trigger] stands_first(before, uuid, p) && is_closed_up(before, p, after)
    } else {
        after == before
    }
}

/// The hook is what a client's predicate is on a network: that of the first
/// section for the network, neither enabled nor expired.
pub open spec fn is_hook_at<N>(
    predicate: MultiNetworkChainhook<N>,
    network: N,
    hook: NetworkChainhook<N>,
    i: int,
) -> bool {
    let sections = predicate.networks@;
    &&& 0 <= i < sections.len()
    &&& sections[i].network == network
    &&& forall|j: int| 0 <= j < i ==> (#[trigger] sections[j]).network != network
    &&& hook.uuid == predicate.uuid
    &&& hook.owner_uuid == predicate.owner_uuid
    &&& hook.name == predicate.name
    &&& hook.version == predicate.version
    &&& hook.network == network
    &&& hook.expire_after_occurrence == sections[i].expire_after_occurrence
    &&& hook.content == sections[i].content
    &&& !hook.enabled
    &&& hook.expired_at is None
}

/// Some section makes the hook out.
pub open spec fn is_hook_of<N>(
    predicate: MultiNetworkChainhook<N>,
    network: N,
    hook: NetworkChainhook<N>,
) -> bool {
    exists|i: int| is_hook_at(predicate, network, hook, i)
}

/// A client's predicate has a section for a network.
pub open spec fn has_section<N>(predicate: MultiNetworkChainhook<N>, network: N) -> bool {
    exists|i: int|
        0 <= i < predicate.networks@.len() && (#[trigger] predicate.networks@[i]).network == network
}

/// A hook is found by its uuid exactly if the store holds one, and it is the first that
/// has the uuid.
pub proof fn hook_that_is_found_stands_first<N>(hooks: Seq<NetworkChainhook<N>>, uuid: Seq<char>)
    ensures
        has_hook(hooks, uuid) <==> is_held(hooks, uuid),
        position_of(hooks, uuid) matches Some(p) ==> {
            &&& stands_first(hooks, uuid, p)
            &&& forall|i: int| #[trigger] stands_first(hooks, uuid, i) ==> i == p
        },
        position_of(hooks, uuid) is None ==> forall|i: int| !stands_first(hooks, uuid, i),
{
    hook_is_found_iff_present(hooks, uuid);
    if let Some(p) = position_of(hooks, uuid) {
        assert(is_first_hook(hooks, uuid, p));
        assert forall|i: int| #[trigger] stands_first(hooks, uuid, i) implies i == p by {
            if i < p {
                assert(hooks[i].uuid@ != uuid);
            }
            if p < i {
                assert(hooks[p].uuid@ != uuid);
            }
        }
    } else {
        assert forall|i: int| !stands_first(hooks, uuid, i) by {
            if stands_first(hooks, uuid, i) {
                assert(hooks[i].uuid@ == uuid);
            }
        }
    }
}

/// To enable a predicate makes a difference to it alone.
pub proof fn enabling_concerns_one_hook<N>(hooks: Seq<NetworkChainhook<N>>, uuid: Seq<char>)
    ensures
        is_enabled_among(hooks, uuid, with_hook_enabled(hooks, uuid)),
{
    hook_that_is_found_stands_first(hooks, uuid);
}

/// To expire a predicate makes a difference to it alone.
pub proof fn expiring_concerns_one_hook<N>(
    hooks: Seq<NetworkChainhook<N>>,
    uuid: Seq<char>,
    block_height: u64,
)
    ensures
        is_expired_among(hooks, uuid, block_height, with_hook_expired(hooks, uuid, block_height)),
{
    hook_that_is_found_stands_first(hooks, uuid);
}

/// To deregister a predicate makes a difference to it alone.
pub proof fn deregistering_concerns_one_hook<N>(hooks: Seq<NetworkChainhook<N>>, uuid: Seq<char>)
    ensures
        is_gone_from(hooks, uuid, without_hook(hooks, uuid)),
{
    hook_that_is_found_stands_first(hooks, uuid);
    if let Some(p) = position_of(hooks, uuid) {
        assert(stands_first(hooks, uuid, p));
        assert(is_closed_up(hooks, p, without_hook(hooks, uuid)));
    }
}

proof fn first_section_exists<N>(predicate: MultiNetworkChainhook<N>, network: N, i: int)
    requires
        0 <= i < predicate.networks@.len(),
        predicate.networks@[i].network == network,
    ensures
        exists|j: int| is_first_section(predicate.networks@, network, j),
    decreases i,
{
    let sections = predicate.networks@;
    if forall|j: int| 0 <= j < i ==> #[trigger] sections[j].network != network {
        assert(is_first_section(sections, network, i));
    } else {
        let j = choose|j: int| 0 <= j < i && #[trigger] sections[j].network == network;
        first_section_exists(predicate, network, j);
    }
}

/// What a client's predicate is on a network comes from its first section for
/// the network.
pub proof fn predicate_is_that_of_its_first_section<N>(
    predicate: MultiNetworkChainhook<N>,
    network: N,
)
    ensures
        predicate.on(network) is Some <==> has_section(predicate, network),
        predicate.on(network) matches Some(hook) ==> is_hook_of(predicate, network, hook),
{
    if has_section(predicate, network) {
        let i = choose|i: int|
            0 <= i < predicate.networks@.len() && (#[trigger] predicate.networks@[i]).network
                == network;
        first_section_exists(predicate, network, i);
    }
    if exists|i: int| is_first_section(predicate.networks@, network, i) {
        let i = choose|i: int| is_first_section(predicate.networks@, network, i);
        assert(predicate.networks@[i].network == network);
        assert(is_hook_at(predicate, network, predicate.on(network)->0, i));
    }
}

/// Whether a step adds a hook of a client's predicate to the store and tells of
/// it: the monitoring, and the listener, who is told of the very hook that was
/// added. Where nobody listens the hook is enabled.
pub open spec fn adds_bitcoin_hook(
    state: ObserverView,
    step: Step,
    hook: BitcoinChainhookSpecification,
) -> bool {
    &&& step.state == ObserverView { bitcoin_hooks: step.state.bitcoin_hooks, ..state }
    &&& if state.links.listener {
        step.state.bitcoin_hooks == state.bitcoin_hooks.push(hook)
    } else {
        is_enabled_among(state.bitcoin_hooks.push(hook), hook.uuid@, step.state.bitcoin_hooks)
    }
    &&& step.actions == seq![ObserverActionView::Measure(Metric::BitcoinPredicateRegistered)]
        + heard(
        state.links.listener,
        ObserverEventView::PredicateRegistered(ChainhookSpecification::Bitcoin(hook)),
    )
}

/// Whether a step adds a hook of a client's predicate to the store and tells of
/// it: the monitoring, and the listener, who is told of the very hook that was
/// added. Where nobody listens the hook is enabled.
pub open spec fn adds_stacks_hook(
    state: ObserverView,
    step: Step,
    hook: StacksChainhookSpecification,
) -> bool {
    &&& step.state == ObserverView { stacks_hooks: step.state.stacks_hooks, ..state }
    &&& if state.links.listener {
        step.state.stacks_hooks == state.stacks_hooks.push(hook)
    } else {
        is_enabled_among(state.stacks_hooks.push(hook), hook.uuid@, step.state.stacks_hooks)
    }
    &&& step.actions == seq![ObserverActionView::Measure(Metric::StacksPredicateRegistered)]
        + heard(
        state.links.listener,
        ObserverEventView::PredicateRegistered(ChainhookSpecification::Stacks(hook)),
    )
}

/// The registration of a Bitcoin predicate that has a section for the observed
/// network adds it to the store, and where someone listens, exactly one event
/// tells of it. One without such a section changes nothing and is not told of.
pub proof fn registered_bitcoin_predicate_is_stored_and_told(
    state: ObserverView,
    predicate: MultiNetworkChainhook<BitcoinNetwork>,
)
    requires
        state.phase is Idle,
    ensures
        ({
            let step = state.step(
                ObserverInput::Command(
                    ObserverCommand::RegisterPredicate(
                        ChainhookFullSpecification::Bitcoin(predicate),
                    ),
                ),
            );
            if has_section(predicate, state.bitcoin_network) {
                exists|hook: BitcoinChainhookSpecification| #[trigger]
                    is_hook_of(predicate, state.bitcoin_network, hook) && adds_bitcoin_hook(
                        state,
                        step,
                        hook,
                    )
            } else {
                step.state == state && step.actions.len() == 0
            }
        }),
{
    predicate_is_that_of_its_first_section(predicate, state.bitcoin_network);
    if let Some(hook) = predicate.on(state.bitcoin_network) {
        enabling_concerns_one_hook(state.bitcoin_hooks.push(hook), hook.uuid@);
        let step = state.step(
            ObserverInput::Command(
                ObserverCommand::RegisterPredicate(ChainhookFullSpecification::Bitcoin(predicate)),
            ),
        );
        assert(adds_bitcoin_hook(state, step, hook));
    }
}

/// The registration of a Stacks predicate that has a section for the observed
/// network adds it to the store, and where someone listens, exactly one event
/// tells of it. One without such a section changes nothing and is not told of.
pub proof fn registered_stacks_predicate_is_stored_and_told(
    state: ObserverView,
    predicate: MultiNetworkChainhook<StacksNetwork>,
)
    requires
        state.phase is Idle,
    ensures
        ({
            let step = state.step(
                ObserverInput::Command(
                    ObserverCommand::RegisterPredicate(
                        ChainhookFullSpecification::Stacks(predicate),
                    ),
                ),
            );
            if has_section(predicate, state.stacks_network) {
                exists|hook: StacksChainhookSpecification| #[trigger]
                    is_hook_of(predicate, state.stacks_network, hook) && adds_stacks_hook(
                        state,
                        step,
                        hook,
                    )
            } else {
                step.state == state && step.actions.len() == 0
            }
        }),
{
    predicate_is_that_of_its_first_section(predicate, state.stacks_network);
    if let Some(hook) = predicate.on(state.stacks_network) {
        enabling_concerns_one_hook(state.stacks_hooks.push(hook), hook.uuid@);
        let step = state.step(
            ObserverInput::Command(
                ObserverCommand::RegisterPredicate(ChainhookFullSpecification::Stacks(predicate)),
            ),
        );
        assert(adds_stacks_hook(state, step, hook));
    }
}

/// A hook as the listener is told of it when it is enabled: as it came, marked as
/// enabled if the store has a hook of its uuid.
pub open spec fn told_as_enabled<N>(
    hooks: Seq<NetworkChainhook<N>>,
    hook: NetworkChainhook<N>,
) -> NetworkChainhook<N> {
    if is_held(hooks, hook.uuid@) {
        NetworkChainhook { enabled: true, ..hook }
    } else {
        hook
    }
}

/// To enable a Bitcoin predicate enables the first hook of its uuid in the
/// store, and where someone listens, exactly one event tells of it.
pub proof fn enabled_bitcoin_predicate_is_marked_and_told(
    state: ObserverView,
    hook: BitcoinChainhookSpecification,
)
    requires
        state.phase is Idle,
    ensures
        ({
            let step = state.step(
                ObserverInput::Command(
                    ObserverCommand::EnablePredicate(ChainhookSpecification::Bitcoin(hook)),
                ),
            );
            &&& step.state == ObserverView { bitcoin_hooks: step.state.bitcoin_hooks, ..state }
            &&& is_enabled_among(state.bitcoin_hooks, hook.uuid@, step.state.bitcoin_hooks)
            &&& step.actions == heard(
                state.links.listener,
                ObserverEventView::PredicateEnabled(
                    ChainhookSpecification::Bitcoin(told_as_enabled(state.bitcoin_hooks, hook)),
                ),
            )
        }),
{
    enabling_concerns_one_hook(state.bitcoin_hooks, hook.uuid@);
    hook_is_found_iff_present(state.bitcoin_hooks, hook.uuid@);
}

/// To enable a Stacks predicate enables the first hook of its uuid in the store,
/// and where someone listens, exactly one event tells of it.
pub proof fn enabled_stacks_predicate_is_marked_and_told(
    state: ObserverView,
    hook: StacksChainhookSpecification,
)
    requires
        state.phase is Idle,
    ensures
        ({
            let step = state.step(
                ObserverInput::Command(
                    ObserverCommand::EnablePredicate(ChainhookSpecification::Stacks(hook)),
                ),
            );
            &&& step.state == ObserverView { stacks_hooks: step.state.stacks_hooks, ..state }
            &&& is_enabled_among(state.stacks_hooks, hook.uuid@, step.state.stacks_hooks)
            &&& step.actions == heard(
                state.links.listener,
                ObserverEventView::PredicateEnabled(
                    ChainhookSpecification::Stacks(told_as_enabled(state.stacks_hooks, hook)),
                ),
            )
        }),
{
    enabling_concerns_one_hook(state.stacks_hooks, hook.uuid@);
    hook_is_found_iff_present(state.stacks_hooks, hook.uuid@);
}

/// Whether a step takes a Bitcoin predicate out of the store. The monitoring
/// hears of it if it was there, and the listener in any case.
pub open spec fn drops_bitcoin_hook(state: ObserverView, step: Step, uuid: String) -> bool {
    &&& step.state == ObserverView { bitcoin_hooks: step.state.bitcoin_hooks, ..state }
    &&& is_gone_from(state.bitcoin_hooks, uuid@, step.state.bitcoin_hooks)
    &&& step.actions == (if is_held(state.bitcoin_hooks, uuid@) {
        seq![ObserverActionView::Measure(Metric::BitcoinPredicateDeregistered)]
    } else {
        Seq::empty()
    }) + heard(state.links.listener, ObserverEventView::PredicateDeregistered(uuid))
}

/// Whether a step takes a Stacks predicate out of the store. The monitoring
/// hears of it if it was there, and the listener in any case.
pub open spec fn drops_stacks_hook(state: ObserverView, step: Step, uuid: String) -> bool {
    &&& step.state == ObserverView { stacks_hooks: step.state.stacks_hooks, ..state }
    &&& is_gone_from(state.stacks_hooks, uuid@, step.state.stacks_hooks)
    &&& step.actions == (if is_held(state.stacks_hooks, uuid@) {
        seq![ObserverActionView::Measure(Metric::StacksPredicateDeregistered)]
    } else {
        Seq::empty()
    }) + heard(state.links.listener, ObserverEventView::PredicateDeregistered(uuid))
}

/// To deregister a predicate of either chain takes the first hook of its uuid
/// out of the store of that chain, and where someone listens, exactly one event
/// tells of it.
pub proof fn deregistered_predicate_is_dropped_and_told(state: ObserverView, uuid: String)
    requires
        state.phase is Idle,
    ensures
        drops_bitcoin_hook(
            state,
            state.step(
                ObserverInput::Command(ObserverCommand::DeregisterBitcoinPredicate(uuid)),
            ),
            uuid,
        ),
        drops_stacks_hook(
            state,
            state.step(ObserverInput::Command(ObserverCommand::DeregisterStacksPredicate(uuid))),
            uuid,
        ),
{
    deregistering_concerns_one_hook(state.bitcoin_hooks, uuid@);
    deregistering_concerns_one_hook(state.stacks_hooks, uuid@);
    hook_is_found_iff_present(state.bitcoin_hooks, uuid@);
    hook_is_found_iff_present(state.stacks_hooks, uuid@);
}

/// To expire a predicate of either chain marks the first hook of its uuid in the
/// store of that chain with the height, and does nothing else.
pub proof fn expired_predicate_is_marked(state: ObserverView, data: HookExpirationData)
    requires
        state.phase is Idle,
    ensures
        ({
            let step = state.step(
                ObserverInput::Command(ObserverCommand::ExpireBitcoinPredicate(data)),
            );
            &&& step.state == ObserverView { bitcoin_hooks: step.state.bitcoin_hooks, ..state }
            &&& is_expired_among(
                state.bitcoin_hooks,
                data.hook_uuid@,
                data.block_height,
                step.state.bitcoin_hooks,
            )
            &&& step.actions.len() == 0
        }),
        ({
            let step = state.step(
                ObserverInput::Command(ObserverCommand::ExpireStacksPredicate(data)),
            );
            &&& step.state == ObserverView { stacks_hooks: step.state.stacks_hooks, ..state }
            &&& is_expired_among(
                state.stacks_hooks,
                data.hook_uuid@,
                data.block_height,
                step.state.stacks_hooks,
            )
            &&& step.actions.len() == 0
        }),
{
    expiring_concerns_one_hook(state.bitcoin_hooks, data.hook_uuid@, data.block_height);
    expiring_concerns_one_hook(state.stacks_hooks, data.hook_uuid@, data.block_height);
}

/// The store holds the hook at the same place, now expired at a height, and no
/// hook of its uuid is active.
pub open spec fn is_out_of_use<N>(
    hook: NetworkChainhook<N>,
    block_height: u64,
    i: int,
    after: Seq<NetworkChainhook<N>>,
) -> bool {
    &&& after[i] == NetworkChainhook { expired_at: Some(block_height), ..hook }
    &&& forall|j: int|
        0 <= j < after.len() && (#[trigger] after[j]).uuid@ == hook.uuid@ ==> !(after[j].enabled
            && after[j].expired_at is None)
}

proof fn expired_hook_is_out_of_use<N>(
    before: Seq<NetworkChainhook<N>>,
    i: int,
    block_height: u64,
    after: Seq<NetworkChainhook<N>>,
)
    requires
        0 <= i < before.len(),
        is_unique(before, before[i].uuid@),
        is_expired_among(before, before[i].uuid@, block_height, after),
    ensures
        is_out_of_use(before[i], block_height, i, after),
{
    let uuid = before[i].uuid@;
    assert(stands_first(before, uuid, i));
    assert forall|j: int| 0 <= j < after.len() && (#[trigger] after[j]).uuid@ == uuid implies !(
    after[j].enabled && after[j].expired_at is None) by {
        assert(before[j].uuid@ == uuid);
        if j < i {
            assert(before[i].uuid@ == uuid);
        }
        if i < j {
            assert(before[i].uuid@ == uuid);
        }
    }
}

/// After the command to expire a Bitcoin predicate whose uuid no other has, the
/// store holds that predicate as expired at the given height, and no hook of its
/// uuid is active.
pub proof fn expired_bitcoin_predicate_is_out_of_use(
    state: ObserverView,
    data: HookExpirationData,
    i: int,
)
    requires
        state.phase is Idle,
        0 <= i < state.bitcoin_hooks.len(),
        state.bitcoin_hooks[i].uuid@ == data.hook_uuid@,
        is_unique(state.bitcoin_hooks, data.hook_uuid@),
    ensures
        is_out_of_use(
            state.bitcoin_hooks[i],
            data.block_height,
            i,
            state.step(
                ObserverInput::Command(ObserverCommand::ExpireBitcoinPredicate(data)),
            ).state.bitcoin_hooks,
        ),
{
    expired_predicate_is_marked(state, data);
    expired_hook_is_out_of_use(
        state.bitcoin_hooks,
        i,
        data.block_height,
        state.step(
            ObserverInput::Command(ObserverCommand::ExpireBitcoinPredicate(data)),
        ).state.bitcoin_hooks,
    );
}

/// After the command to expire a Stacks predicate whose uuid no other has, the
/// store holds that predicate as expired at the given height, and no hook of its
/// uuid is active.
pub proof fn expired_stacks_predicate_is_out_of_use(
    state: ObserverView,
    data: HookExpirationData,
    i: int,
)
    requires
        state.phase is Idle,
        0 <= i < state.stacks_hooks.len(),
        state.stacks_hooks[i].uuid@ == data.hook_uuid@,
        is_unique(state.stacks_hooks, data.hook_uuid@),
    ensures
        is_out_of_use(
            state.stacks_hooks[i],
            data.block_height,
            i,
            state.step(
                ObserverInput::Command(ObserverCommand::ExpireStacksPredicate(data)),
            ).state.stacks_hooks,
        ),
{
    expired_predicate_is_marked(state, data);
    expired_hook_is_out_of_use(
        state.stacks_hooks,
        i,
        data.block_height,
        state.step(
            ObserverInput::Command(ObserverCommand::ExpireStacksPredicate(data)),
        ).state.stacks_hooks,
    );
}

/// What is heard of pending Stacks transactions, or of a Bitcoin transaction that
/// was passed on, is told to the listener as it came, and changes nothing.
pub proof fn notices_are_passed_on(state: ObserverView, event: StacksChainMempoolEvent)
    requires
        state.phase is Idle,
    ensures
        ({
            let step = state.step(
                ObserverInput::Command(ObserverCommand::PropagateStacksMempoolEvent(event)),
            );
            &&& step.state == state
            &&& step.actions == heard(
                state.links.listener,
                ObserverEventView::StacksChainMempoolEvent(event@),
            )
        }),
        ({
            let step = state.step(
                ObserverInput::Command(ObserverCommand::NotifyBitcoinTransactionProxied),
            );
            &&& step.state == state
            &&& step.actions == heard(
                state.links.listener,
                ObserverEventView::NotifyBitcoinTransactionProxied,
            )
        }),
{
}

/// Whether a step ends the observer: the server that takes in chain data is shut
/// down, where there is one, and the listener hears a farewell and that it is the
/// end. What the observer holds stays as it is.
pub open spec fn ends(state: ObserverView, step: Step) -> bool {
    &&& step.state == ObserverView { phase: PhaseView::Terminated, ..state }
    &&& step.actions == (if state.links.ingestion {
        seq![ObserverActionView::ShutdownIngestion]
    } else {
        Seq::empty()
    }) + heard(state.links.listener, ObserverEventView::Info("Terminating event observer"@))
        + heard(state.links.listener, ObserverEventView::Terminate)
}

/// The observer ends when it is told to, and also when no more commands can come.
pub proof fn observer_ends_on_command_and_without_commands(state: ObserverView)
    requires
        state.phase is Idle,
    ensures
        ends(state, state.step(ObserverInput::Command(ObserverCommand::Terminate))),
        ends(state, state.step(ObserverInput::CommandsClosed)),
{
}

/// Whether a step puts a block into the cache under its hash, as one that no
/// sidecar has reworked, and is idle.
pub open spec fn caches(state: ObserverView, step: Step, block: BitcoinBlockData) -> bool {
    &&& step.state == ObserverView {
        blocks: state.blocks.insert(
            block.block_identifier.hash@,
            BitcoinBlockDataCached { block, processed_by_sidecar: false },
        ),
        phase: PhaseView::Idle,
        ..state
    }
    &&& step.actions.len() == 0
}

/// A block that is to be cached enters the cache.
pub proof fn block_to_cache_is_cached(state: ObserverView, block: BitcoinBlockData)
    requires
        state.phase is Idle,
    ensures
        caches(
            state,
            state.step(ObserverInput::Command(ObserverCommand::CacheBitcoinBlock(block))),
            block,
        ),
{
}

/// Whether a step asks for a block to be standardised, and does nothing else.
pub open spec fn asks_to_standardize(
    state: ObserverView,
    step: Step,
    attempt: BlockAttempt,
) -> bool {
    &&& step.state == ObserverView { phase: PhaseView::Standardizing(attempt), ..state }
    &&& step.actions == seq![ObserverActionView::Standardize(attempt.block)]
}

/// A block that is to be processed is to be standardised, with no attempt failed
/// so far.
pub proof fn block_to_process_is_standardized(
    state: ObserverView,
    block: BitcoinBlockFullBreakdown,
)
    requires
        state.phase is Idle,
    ensures
        asks_to_standardize(
            state,
            state.step(ObserverInput::Command(ObserverCommand::ProcessBitcoinBlock(block))),
            BlockAttempt { block, block_hash: block.hash, attempts: 0 },
        ),
{
}

/// A block that was standardised enters the cache.
pub proof fn standardized_block_is_cached(
    state: ObserverView,
    attempt: BlockAttempt,
    block: BitcoinBlockData,
)
    requires
        state.phase == PhaseView::Standardizing(attempt),
    ensures
        caches(state, state.step(ObserverInput::BlockStandardized(block)), block),
{
}

/// A block that was rejected is tried again, as it is or downloaded anew by its hash,
/// until ten attempts after the first have failed; then the observer ends.
pub proof fn rejected_block_is_tried_again(
    state: ObserverView,
    attempt: BlockAttempt,
    refetch_block: bool,
)
    requires
        state.phase == PhaseView::Standardizing(attempt),
    ensures
        ({
            let next = BlockAttempt { attempts: (attempt.attempts + 1) as u32, ..attempt };
            let step = state.step(ObserverInput::BlockRejected { refetch_block });
            if attempt.attempts >= 10 {
                ends(state, step)
            } else if refetch_block {
                &&& step.state == ObserverView { phase: PhaseView::Downloading(next), ..state }
                &&& step.actions == seq![ObserverActionView::Download(attempt.block_hash)]
            } else {
                asks_to_standardize(state, step, next)
            }
        }),
{
}

/// A block that was downloaded anew is tried again; one that could not be is tried again
/// as it was.
pub proof fn downloaded_block_is_tried_again(
    state: ObserverView,
    attempt: BlockAttempt,
    downloaded: Option<BitcoinBlockFullBreakdown>,
)
    requires
        state.phase == PhaseView::Downloading(attempt),
    ensures
        asks_to_standardize(
            state,
            state.step(ObserverInput::BlockDownloaded(downloaded)),
            match downloaded {
                Some(block) => BlockAttempt { block, ..attempt },
                None => attempt,
            },
        ),
{
}

/// The observer takes a command, and the news that no more will come, exactly
/// while it is idle. While it waits, it takes exactly the answer to what it asked.
pub proof fn observer_takes_what_it_waits_for(state: ObserverView, input: ObserverInput)
    ensures
        input is Command || input is CommandsClosed ==> (state.accepts(input)
            <==> state.phase is Idle),
        input is BlockStandardized || input is BlockRejected ==> (state.accepts(input)
            <==> state.phase is Standardizing),
        input is BlockDownloaded ==> (state.accepts(input) <==> state.phase is Downloading),
        input is BlocksMutated ==> (state.accepts(input) <==> state.phase is Mutating),
        input is Evaluated && state.accepts(input) ==> state.phase is Evaluating,
        input is ProofCollected ==> (state.accepts(input) <==> state.phase is CollectingProof),
        input is TriggerHandled && state.accepts(input) ==> state.phase is HandlingTrigger,
        input is RequestSent ==> (state.accepts(input) <==> state.phase is SendingRequest),
        (state.phase, input) matches (
            PhaseView::HandlingTrigger(round),
            ObserverInput::TriggerHandled(occurrence),
        ) ==> (state.accepts(input) <==> match occurrence {
            Some(ChainhookOccurrence::Http(_, payload)) => payload is Bitcoin
                <==> round.event is BitcoinChainEvent,
            Some(ChainhookOccurrence::Data(payload)) => payload is Bitcoin
                <==> round.event is BitcoinChainEvent,
            _ => true,
        }),
        !state.accepts(input) && !(state.phase is Evaluating && input is Evaluated) && !(
        state.phase is HandlingTrigger && input is TriggerHandled) ==> state.step(input).state
            == state && state.step(input).actions.len() == 0,
{
}

} // verus!
