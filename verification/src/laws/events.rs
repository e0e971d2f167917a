//! Laws on what chain events are made of: which blocks, in which order, and what
//! is done about them before the predicates are evaluated.

use vstd::prelude::*;

use crate::blocks::{
    all_filed, announced, blocks_of, cache_after_completion, cache_after_resolution, completion,
    header_hash, highest_header, known_headers, known_identifiers, left_behind,
    looked_up, resolution, taken, BitcoinBlockDataCached, BlockMap, PendingChainEventView,
};
use crate::chain::{
    BitcoinBlockData, BitcoinChainEventView, BlockHeader, BlockIdentifier, BlockchainEvent,
    EventView, StacksBlockUpdate, StacksChainEvent, StacksChainEventView,
};
use crate::commands::ObserverCommand;
use crate::hooks::{active_hooks, NetworkChainhook};
use crate::metrics::{
    bitcoin_reorg, highest_block, highest_update, stacks_reorg, stacks_tip, Metric,
};
use crate::protocol::{ObserverActionView, ObserverInput, PhaseView};
use crate::sidecar::{notifications, HandleBlock};
use crate::transition::{ObserverView, Step};

verus! {

/// Positions below a bound, one after the other.
pub open spec fn is_increasing(at: Seq<int>, bound: int) -> bool {
    &&& forall|k: int| 0 <= k < at.len() ==> 0 <= #[trigger] at[k] < bound
    &&& forall|j: int, k: int| 0 <= j < k < at.len() ==> #[trigger] at[j] < #[trigger] at[k]
}

/// One more position behind the others.
pub(crate) proof fn increasing_goes_on(at: Seq<int>, bound: int)
    requires
        0 <= bound,
        is_increasing(at, bound),
    ensures
        is_increasing(at, bound + 1),
        is_increasing(at.push(bound), bound + 1),
        forall|i: int| #[trigger] at.push(bound).contains(i) <==> at.contains(i) || i == bound,
        !at.contains(bound),
{
    let more = at.push(bound);
    assert forall|j: int, k: int| 0 <= j < k < more.len() implies #[trigger] more[j]
        < #[trigger] more[k] by {
        assert(more[j] == at[j]);
    }
    assert forall|i: int| #[trigger] more.contains(i) <==> at.contains(i) || i == bound by {
        if at.contains(i) {
            let k = choose|k: int| 0 <= k < at.len() && at[k] == i;
            assert(more[k] == i);
        }
        assert(more[at.len() as int] == bound);
        if more.contains(i) {
            let k = choose|k: int| 0 <= k < more.len() && more[k] == i;
            if k < at.len() {
                assert(at[k] == i);
            }
        }
    }
}

/// The blocks are those of the headers at the given positions, and those are the
/// positions of the headers whose blocks are in the cache.
pub open spec fn are_cached_at(
    blocks: BlockMap,
    headers: Seq<BlockHeader>,
    found: Seq<BitcoinBlockData>,
    at: Seq<int>,
) -> bool {
    &&& is_increasing(at, headers.len() as int)
    &&& forall|i: int|
        0 <= i < headers.len() ==> (blocks.contains_key(
            (#[trigger] headers[i]).block_identifier.hash@,
        ) <==> at.contains(i))
    &&& found.len() == at.len()
    &&& forall|k: int|
        0 <= k < at.len() ==> #[trigger] found[k]
            == blocks[headers[at[k]].block_identifier.hash@].block
}

/// The blocks are the cached blocks of the headers: one for each header whose
/// block is in the cache, in the order of the headers, and nothing else.
pub open spec fn are_cached(
    blocks: BlockMap,
    headers: Seq<BlockHeader>,
    found: Seq<BitcoinBlockData>,
) -> bool {
    exists|at: Seq<int>| are_cached_at(blocks, headers, found, at)
}

/// The identifiers are those in the headers whose blocks are in the cache, in the
/// order of the headers, and nothing else.
pub open spec fn are_known_at(
    blocks: BlockMap,
    headers: Seq<BlockHeader>,
    found: Seq<BlockIdentifier>,
    at: Seq<int>,
) -> bool {
    &&& is_increasing(at, headers.len() as int)
    &&& forall|i: int|
        0 <= i < headers.len() ==> (blocks.contains_key(
            (#[trigger] headers[i]).block_identifier.hash@,
        ) <==> at.contains(i))
    &&& found.len() == at.len()
    &&& forall|k: int|
        0 <= k < at.len() ==> #[trigger] found[k] == headers[at[k]].block_identifier
}

/// Some positions make the identifiers out.
pub open spec fn are_known(
    blocks: BlockMap,
    headers: Seq<BlockHeader>,
    found: Seq<BlockIdentifier>,
) -> bool {
    exists|at: Seq<int>| are_known_at(blocks, headers, found, at)
}

/// The header at `i` is the first to announce its block.
pub open spec fn announces_first(headers: Seq<BlockHeader>, i: int) -> bool {
    forall|j: int|
        0 <= j < i ==> (#[trigger] headers[j]).block_identifier.hash@
            != headers[i].block_identifier.hash@
}

/// The entries are those of the headers at the given positions, and those are the
/// positions of the headers that are the first to announce a cached block.
pub open spec fn are_taken_at(
    blocks: BlockMap,
    headers: Seq<BlockHeader>,
    gone: Seq<BitcoinBlockDataCached>,
    at: Seq<int>,
) -> bool {
    &&& is_increasing(at, headers.len() as int)
    &&& forall|i: int|
        0 <= i < headers.len() ==> (blocks.contains_key(
            (#[trigger] headers[i]).block_identifier.hash@,
        ) && announces_first(headers, i) <==> at.contains(i))
    &&& gone.len() == at.len()
    &&& forall|k: int|
        0 <= k < at.len() ==> #[trigger] gone[k] == blocks[headers[at[k]].block_identifier.hash@]
}

/// The entries are those that the headers take out of the cache: one for each
/// cached block that a header announces, in the order of the headers, and nothing
/// else.
pub open spec fn are_taken(
    blocks: BlockMap,
    headers: Seq<BlockHeader>,
    gone: Seq<BitcoinBlockDataCached>,
) -> bool {
    exists|at: Seq<int>| are_taken_at(blocks, headers, gone, at)
}

/// The blocks are those of entries that the headers take out of the cache.
pub open spec fn are_blocks_taken(
    blocks: BlockMap,
    headers: Seq<BlockHeader>,
    found: Seq<BitcoinBlockData>,
) -> bool {
    exists|gone: Seq<BitcoinBlockDataCached>| #[trigger]
        are_taken(blocks, headers, gone) && found.len() == gone.len() && forall|k: int|
            0 <= k < gone.len() ==> #[trigger] found[k] == gone[k].block
}

/// The cache without the blocks that the headers announce, and otherwise as it
/// was.
pub open spec fn is_cache_without(
    before: BlockMap,
    headers: Seq<BlockHeader>,
    after: BlockMap,
) -> bool {
    forall|hash: Seq<char>|
        {
            &&& #[trigger] after.contains_key(hash) <==> before.contains_key(hash) && forall|i: int|
                0 <= i < headers.len() ==> (#[trigger] headers[i]).block_identifier.hash@ != hash
            &&& after.contains_key(hash) ==> after[hash] == before[hash]
        }
}

/// Whether one of some entries is of the block with the given hash.
pub open spec fn has_entry(caches: Seq<BitcoinBlockDataCached>, hash: Seq<char>) -> bool {
    exists|k: int|
        0 <= k < caches.len() && (#[trigger] caches[k]).block.block_identifier.hash@ == hash
}

/// The entry at `k` is the last of its block.
pub open spec fn is_last_entry(caches: Seq<BitcoinBlockDataCached>, k: int) -> bool {
    &&& 0 <= k < caches.len()
    &&& forall|j: int|
        k < j < caches.len() ==> (#[trigger] caches[j]).block.block_identifier.hash@
            != caches[k].block.block_identifier.hash@
}

/// The cache with entries filed in it, each under its block's hash; of several
/// with one hash, the last stays.
pub open spec fn is_cache_with(
    before: BlockMap,
    caches: Seq<BitcoinBlockDataCached>,
    after: BlockMap,
) -> bool {
    &&& forall|hash: Seq<char>|
        !has_entry(caches, hash) ==> (#[trigger] after.contains_key(hash) <==> before.contains_key(
            hash,
        )) && (after.contains_key(hash) ==> after[hash] == before[hash])
    &&& forall|k: int| #[trigger]
        is_last_entry(caches, k) ==> after.contains_key(caches[k].block.block_identifier.hash@)
            && after[caches[k].block.block_identifier.hash@] == caches[k]
}

/// The hooks are the enabled ones that are not expired, in the order of the
/// store, and no others.
pub open spec fn are_active_at<N>(
    hooks: Seq<NetworkChainhook<N>>,
    active: Seq<NetworkChainhook<N>>,
    at: Seq<int>,
) -> bool {
    &&& is_increasing(at, hooks.len() as int)
    &&& forall|i: int|
        0 <= i < hooks.len() ==> ((#[trigger] hooks[i]).enabled && hooks[i].expired_at is None
            <==> at.contains(i))
    &&& active.len() == at.len()
    &&& forall|k: int| 0 <= k < at.len() ==> #[trigger] active[k] == hooks[at[k]]
}

/// Some positions make the active hooks out.
pub open spec fn are_active<N>(
    hooks: Seq<NetworkChainhook<N>>,
    active: Seq<NetworkChainhook<N>>,
) -> bool {
    exists|at: Seq<int>| are_active_at(hooks, active, at)
}

/// A height is the greatest among the headers'; zero where there is none.
pub open spec fn is_tip_of(headers: Seq<BlockHeader>, height: u64) -> bool {
    &&& forall|i: int|
        0 <= i < headers.len() ==> (#[trigger] headers[i]).block_identifier.index <= height
    &&& headers.len() == 0 ==> height == 0
    &&& headers.len() > 0 ==> exists|i: int|
        0 <= i < headers.len() && (#[trigger] headers[i]).block_identifier.index == height
}

proof fn known_headers_are_in_order(blocks: BlockMap, headers: Seq<BlockHeader>) -> (at: Seq<int>)
    ensures
        is_increasing(at, headers.len() as int),
        forall|i: int|
            0 <= i < headers.len() ==> (blocks.contains_key(
                (#[trigger] headers[i]).block_identifier.hash@,
            ) <==> at.contains(i)),
        known_headers(blocks, headers).len() == at.len(),
        forall|k: int|
            0 <= k < at.len() ==> #[trigger] known_headers(blocks, headers)[k] == headers[at[k]],
    decreases headers.len(),
{
    reveal(Seq::filter);
    if headers.len() == 0 {
        Seq::empty()
    } else {
        let shorter = headers.drop_last();
        let before = known_headers_are_in_order(blocks, shorter);
        let last = headers.len() - 1;
        increasing_goes_on(before, last);
        let known = known_headers(blocks, headers);
        let at = if blocks.contains_key(headers.last().block_identifier.hash@) {
            assert(known == known_headers(blocks, shorter).push(headers.last()));
            before.push(last)
        } else {
            assert(known == known_headers(blocks, shorter));
            before
        };
        assert forall|i: int| 0 <= i < headers.len() implies (blocks.contains_key(
            (#[trigger] headers[i]).block_identifier.hash@,
        ) <==> at.contains(i)) by {
            if i < last {
                assert(shorter[i] == headers[i]);
            }
        }
        assert forall|k: int| 0 <= k < at.len() implies #[trigger] known[k] == headers[at[k]] by {
            if k < before.len() {
                assert(known[k] == known_headers(blocks, shorter)[k]);
                assert(shorter[before[k]] == headers[before[k]]);
            }
        }
        at
    }
}

/// The blocks that are looked up are the cached blocks of the headers.
pub proof fn lookup_finds_every_cached_block(blocks: BlockMap, headers: Seq<BlockHeader>)
    ensures
        are_cached(blocks, headers, looked_up(blocks, headers)),
        are_known(blocks, headers, known_identifiers(blocks, headers)),
{
    let at = known_headers_are_in_order(blocks, headers);
    let known = known_headers(blocks, headers);
    assert forall|k: int| 0 <= k < at.len() implies #[trigger] looked_up(blocks, headers)[k]
        == blocks[headers[at[k]].block_identifier.hash@].block by {
        assert(known[k] == headers[at[k]]);
    }
    assert forall|k: int| 0 <= k < at.len() implies #[trigger] known_identifiers(blocks, headers)[k]
        == headers[at[k]].block_identifier by {
        assert(known[k] == headers[at[k]]);
    }
    assert(are_cached_at(blocks, headers, looked_up(blocks, headers), at));
    assert(are_known_at(blocks, headers, known_identifiers(blocks, headers), at));
}

proof fn taken_entries_are_in_order(blocks: BlockMap, headers: Seq<BlockHeader>) -> (at: Seq<int>)
    ensures
        are_taken_at(blocks, headers, taken(blocks, headers), at),
    decreases headers.len(),
{
    if headers.len() == 0 {
        Seq::empty()
    } else {
        let shorter = headers.drop_last();
        let before = taken_entries_are_in_order(blocks, shorter);
        let last = headers.len() - 1;
        let hash = header_hash(headers.last());
        let gone = taken(blocks, headers);
        increasing_goes_on(before, last);
        assert(headers[last] == headers.last());
        assert(announced(shorter, hash) <==> !announces_first(headers, last)) by {
            if announced(shorter, hash) {
                let j = choose|j: int|
                    0 <= j < shorter.len() && header_hash(#[trigger] shorter[j]) == hash;
                assert(headers[j] == shorter[j]);
            }
            if !announces_first(headers, last) {
                let j = choose|j: int|
                    0 <= j < last && (#[trigger] headers[j]).block_identifier.hash@
                        == headers[last].block_identifier.hash@;
                assert(header_hash(shorter[j]) == hash);
            }
        }
        let at = if left_behind(blocks, shorter).contains_key(hash) {
            before.push(last)
        } else {
            before
        };
        assert forall|i: int| 0 <= i < headers.len() implies (blocks.contains_key(
            (#[trigger] headers[i]).block_identifier.hash@,
        ) && announces_first(headers, i) <==> at.contains(i)) by {
            if i < last {
                assert(shorter[i] == headers[i]);
                assert(announces_first(shorter, i) <==> announces_first(headers, i)) by {
                    assert forall|j: int| 0 <= j < i implies shorter[j] == #[trigger] headers[j] by {}
                    if announces_first(shorter, i) {
                        assert forall|j: int| 0 <= j < i implies (
                        #[trigger] headers[j]).block_identifier.hash@
                            != headers[i].block_identifier.hash@ by {
                            assert(shorter[j] == headers[j]);
                        }
                    }
                    if announces_first(headers, i) {
                        assert forall|j: int| 0 <= j < i implies (
                        #[trigger] shorter[j]).block_identifier.hash@
                            != shorter[i].block_identifier.hash@ by {
                            assert(shorter[j] == headers[j]);
                        }
                    }
                }
            }
        }
        assert forall|k: int| 0 <= k < at.len() implies #[trigger] gone[k]
            == blocks[headers[at[k]].block_identifier.hash@] by {
            if k < before.len() {
                assert(gone[k] == taken(blocks, shorter)[k]);
                assert(shorter[before[k]] == headers[before[k]]);
            }
        }
        at
    }
}

/// The entries that leave the cache are those of the cached blocks that the
/// headers announce.
pub proof fn every_announced_block_is_taken(blocks: BlockMap, headers: Seq<BlockHeader>)
    ensures
        are_taken(blocks, headers, taken(blocks, headers)),
        are_blocks_taken(blocks, headers, blocks_of(taken(blocks, headers))),
        is_cache_without(blocks, headers, left_behind(blocks, headers)),
{
    let at = taken_entries_are_in_order(blocks, headers);
    let gone = taken(blocks, headers);
    assert(are_taken_at(blocks, headers, gone, at));
    assert(are_taken(blocks, headers, gone));
    assert forall|k: int| 0 <= k < gone.len() implies #[trigger] blocks_of(gone)[k]
        == gone[k].block by {}
    let after = left_behind(blocks, headers);
    assert forall|hash: Seq<char>|
        {
            &&& #[trigger] after.contains_key(hash) <==> blocks.contains_key(hash) && forall|i: int|
                0 <= i < headers.len() ==> (#[trigger] headers[i]).block_identifier.hash@ != hash
            &&& after.contains_key(hash) ==> after[hash] == blocks[hash]
        } by {
        if announced(headers, hash) {
            let i = choose|i: int|
                0 <= i < headers.len() && header_hash(#[trigger] headers[i]) == hash;
            assert(headers[i].block_identifier.hash@ == hash);
        } else {
            assert forall|i: int| 0 <= i < headers.len() implies (
            #[trigger] headers[i]).block_identifier.hash@ != hash by {
                assert(header_hash(headers[i]) != hash);
            }
        }
    }
}

/// Entries are filed under their blocks' hashes.
pub proof fn every_entry_is_filed(blocks: BlockMap, caches: Seq<BitcoinBlockDataCached>)
    ensures
        is_cache_with(blocks, caches, all_filed(blocks, caches)),
    decreases caches.len(),
{
    if caches.len() > 0 {
        let shorter = caches.drop_last();
        let before = all_filed(blocks, shorter);
        let after = all_filed(blocks, caches);
        let last = caches.len() - 1;
        every_entry_is_filed(blocks, shorter);
        assert forall|hash: Seq<char>| !has_entry(caches, hash) implies (
        #[trigger] after.contains_key(hash) <==> blocks.contains_key(hash)) && (after.contains_key(
            hash,
        ) ==> after[hash] == blocks[hash]) by {
            assert(caches[last].block.block_identifier.hash@ != hash);
            assert forall|k: int| 0 <= k < shorter.len() implies (
            #[trigger] shorter[k]).block.block_identifier.hash@ != hash by {
                assert(shorter[k] == caches[k]);
            }
            assert(before.contains_key(hash) <==> blocks.contains_key(hash));
        }
        assert forall|k: int| #[trigger] is_last_entry(caches, k) implies after.contains_key(
            caches[k].block.block_identifier.hash@,
        ) && after[caches[k].block.block_identifier.hash@] == caches[k] by {
            if k < last {
                assert(caches[last].block.block_identifier.hash@
                    != caches[k].block.block_identifier.hash@);
                assert(shorter[k] == caches[k]);
                assert forall|j: int| k < j < shorter.len() implies (
                #[trigger] shorter[j]).block.block_identifier.hash@
                    != shorter[k].block.block_identifier.hash@ by {
                    assert(shorter[j] == caches[j]);
                }
                assert(is_last_entry(shorter, k));
            }
        }
    }
}

proof fn active_hooks_are_in_order<N>(hooks: Seq<NetworkChainhook<N>>) -> (at: Seq<int>)
    ensures
        are_active_at(hooks, active_hooks(hooks), at),
    decreases hooks.len(),
{
    reveal(Seq::filter);
    if hooks.len() == 0 {
        Seq::empty()
    } else {
        let shorter = hooks.drop_last();
        let before = active_hooks_are_in_order(shorter);
        let last = hooks.len() - 1;
        let active = active_hooks(hooks);
        increasing_goes_on(before, last);
        let at = if hooks.last().enabled && hooks.last().expired_at is None {
            assert(active == active_hooks(shorter).push(hooks.last()));
            before.push(last)
        } else {
            assert(active == active_hooks(shorter));
            before
        };
        assert forall|i: int| 0 <= i < hooks.len() implies ((#[trigger] hooks[i]).enabled
            && hooks[i].expired_at is None <==> at.contains(i)) by {
            if i < last {
                assert(shorter[i] == hooks[i]);
            }
        }
        assert forall|k: int| 0 <= k < at.len() implies #[trigger] active[k] == hooks[at[k]] by {
            if k < before.len() {
                assert(active[k] == active_hooks(shorter)[k]);
                assert(shorter[before[k]] == hooks[before[k]]);
            }
        }
        at
    }
}

/// The active hooks are the enabled ones that are not expired, all of them, in
/// the order of the store.
pub proof fn active_hooks_are_all_that_are_enabled_and_not_expired<N>(
    hooks: Seq<NetworkChainhook<N>>,
)
    ensures
        are_active(hooks, active_hooks(hooks)),
{
    let at = active_hooks_are_in_order(hooks);
    assert(are_active_at(hooks, active_hooks(hooks), at));
}

/// The new tip is the greatest height among the headers.
pub(crate) proof fn highest_header_is_tip(headers: Seq<BlockHeader>)
    ensures
        is_tip_of(headers, highest_header(headers)),
{
    crate::laws::blocks::new_tip_is_the_greatest_height(headers);
}

/// The headers of the blocks that the chain gains.
pub open spec fn gains(event: BlockchainEvent) -> Seq<BlockHeader> {
    match event {
        BlockchainEvent::BlockchainUpdatedWithHeaders(data) => data.new_headers@,
        BlockchainEvent::BlockchainUpdatedWithReorg(data) => data.headers_to_apply@,
    }
}

/// The headers of the blocks that the chain confirms.
pub open spec fn confirms(event: BlockchainEvent) -> Seq<BlockHeader> {
    match event {
        BlockchainEvent::BlockchainUpdatedWithHeaders(data) => data.confirmed_headers@,
        BlockchainEvent::BlockchainUpdatedWithReorg(data) => data.confirmed_headers@,
    }
}

/// The time is that of the last of the highest blocks.
pub open spec fn is_time_of_tip(blocks: Seq<BitcoinBlockData>, time: i64) -> bool {
    exists|k: int|
        0 <= k < blocks.len() && time == (#[trigger] blocks[k]).timestamp as i64 && forall|j: int|
            0 <= j < blocks.len() ==> {
                &&& (#[trigger] blocks[j]).block_identifier.index
                    <= blocks[k].block_identifier.index
                &&& j > k ==> blocks[j].block_identifier.index < blocks[k].block_identifier.index
            }
}

/// What comes before the evaluation of a Bitcoin chain event: a report to the
/// monitoring, where the chain switched to a branch and gained blocks; and then,
/// where the sidecar is to be told, one message for each block that the chain
/// lost, and one for each that it gained.
pub open spec fn is_preamble(
    notified: bool,
    reorg: bool,
    lost: Seq<BitcoinBlockData>,
    gained: Seq<BitcoinBlockData>,
    actions: Seq<ObserverActionView>,
) -> bool {
    let reports = if reorg && gained.len() > 0 {
        1int
    } else {
        0
    };
    let messages = if notified {
        lost.len() + gained.len()
    } else {
        0
    };
    &&& actions.len() == reports + messages
    &&& reports == 1 ==> {
        &&& actions[0] matches ObserverActionView::Measure(Metric::BitcoinReorg(report))
        &&& report.applied_blocks == gained.len() as u64
        &&& report.rolled_back_blocks == lost.len() as u64
        &&& is_time_of_tip(gained, report.timestamp)
    }
    &&& forall|i: int|
        reports <= i < actions.len() ==> #[trigger] actions[i] == ObserverActionView::Notify(
            if i - reports < lost.len() {
                HandleBlock::UndoBlock(lost[i - reports])
            } else {
                HandleBlock::ApplyBlock(gained[i - reports - lost.len()])
            },
        )
}

/// The blocks that an event says the chain lost.
pub open spec fn lost_in(event: BitcoinChainEventView) -> Seq<BitcoinBlockData> {
    match event {
        BitcoinChainEventView::ChainUpdatedWithReorg { blocks_to_rollback, .. } => {
            blocks_to_rollback
        },
        _ => Seq::empty(),
    }
}

/// The blocks that an event says the chain gained.
pub open spec fn gained_in(event: BitcoinChainEventView) -> Seq<BitcoinBlockData> {
    match event {
        BitcoinChainEventView::ChainUpdatedWithReorg { blocks_to_apply, .. } => blocks_to_apply,
        BitcoinChainEventView::ChainUpdatedWithBlocks { new_blocks, .. } => new_blocks,
    }
}

/// The blocks that an event says the chain confirmed.
pub open spec fn confirmed_in(event: BitcoinChainEventView) -> Seq<BitcoinBlockData> {
    match event {
        BitcoinChainEventView::ChainUpdatedWithReorg { confirmed_blocks, .. } => confirmed_blocks,
        BitcoinChainEventView::ChainUpdatedWithBlocks { confirmed_blocks, .. } => confirmed_blocks,
    }
}

/// Whether a step ends with the request to evaluate the active hooks on a
/// Bitcoin chain event, behind what comes before it, and changes nothing but the
/// cache and the phase.
pub open spec fn asks_to_evaluate(
    state: ObserverView,
    step: Step,
    event: BitcoinChainEventView,
    headers: Seq<BlockHeader>,
) -> bool {
    &&& step.state == ObserverView {
        blocks: step.state.blocks,
        phase: step.state.phase,
        ..state
    }
    &&& step.state.phase matches PhaseView::Evaluating(evaluated, tip) && evaluated
        == EventView::BitcoinChainEvent(event) && is_tip_of(headers, tip)
    &&& step.actions.len() > 0
    &&& step.actions.last() matches ObserverActionView::EvaluateBitcoin(evaluated, hooks)
        && evaluated == event && are_active(state.bitcoin_hooks, hooks)
    &&& is_preamble(
        state.links.chain_event_notifier,
        event is ChainUpdatedWithReorg,
        lost_in(event),
        gained_in(event),
        step.actions.drop_last(),
    )
}

/// The Bitcoin chain event that a step asks to be evaluated.
pub open spec fn asked_event(step: Step) -> BitcoinChainEventView {
    step.actions.last()->EvaluateBitcoin_0
}

proof fn highest_block_is_tip(blocks: Seq<BitcoinBlockData>)
    ensures
        blocks.len() == 0 <==> highest_block(blocks) is None,
        highest_block(blocks) matches Some(highest) ==> is_time_of_tip(
            blocks,
            highest.timestamp as i64,
        ),
{
    crate::laws::blocks::highest_block_is_the_last_of_the_highest(blocks);
}

proof fn completed_event_is_evaluated(
    state: ObserverView,
    pending: PendingChainEventView,
    updated: Seq<BitcoinBlockDataCached>,
    headers: Seq<BlockHeader>,
)
    requires
        is_tip_of(headers, pending.new_tip),
    ensures
        asks_to_evaluate(
            state,
            state.bitcoin_event_completed(pending, updated),
            completion(state.blocks, pending, updated),
            headers,
        ),
{
    let event = completion(state.blocks, pending, updated);
    let step = state.bitcoin_event_completed(pending, updated);
    let before = step.actions.drop_last();
    let lost = lost_in(event);
    let gained = gained_in(event);
    highest_block_is_tip(gained);
    active_hooks_are_all_that_are_enabled_and_not_expired(state.bitcoin_hooks);
    let metric = match bitcoin_reorg(event) {
        Some(reorg) => seq![ObserverActionView::Measure(Metric::BitcoinReorg(reorg))],
        None => Seq::empty(),
    };
    let messages = if state.links.chain_event_notifier {
        notifications(event).map_values(|message: HandleBlock| ObserverActionView::Notify(message))
    } else {
        Seq::empty()
    };
    assert(before =~= metric + messages);
}

/// What comes of a chain event once its headers are resolved tells of the cached blocks,
/// and leaves to the sidecar what it is to rework, where it is.
pub proof fn resolution_tells_of_the_cached_blocks(
    blocks: BlockMap,
    event: BlockchainEvent,
    required: bool,
)
    ensures
        ({
            let resolved = resolution(blocks, event, required);
            let after = cache_after_resolution(blocks, event, required);
            &&& required ==> {
                &&& is_cache_without(blocks, gains(event), after)
                &&& are_taken(blocks, gains(event), resolved.blocks_to_mutate)
                &&& resolved.pending.blocks_to_apply.len() == 0
            }
            &&& !required ==> {
                &&& after == blocks
                &&& resolved.blocks_to_mutate.len() == 0
                &&& are_cached(blocks, gains(event), resolved.pending.blocks_to_apply)
            }
            &&& resolved.pending.confirmed_headers == confirms(event)
            &&& is_tip_of(gains(event), resolved.pending.new_tip)
            &&& match event {
                BlockchainEvent::BlockchainUpdatedWithHeaders(_) => {
                    &&& resolved.pending.blocks_to_rollback is None
                    &&& resolved.blocks_ids_to_rollback.len() == 0
                },
                BlockchainEvent::BlockchainUpdatedWithReorg(data) => {
                    &&& resolved.pending.blocks_to_rollback matches Some(lost) && are_cached(
                        after,
                        data.headers_to_rollback@,
                        lost,
                    )
                    &&& are_known(
                        after,
                        data.headers_to_rollback@,
                        resolved.blocks_ids_to_rollback,
                    )
                },
            }
        }),
{
    let after = cache_after_resolution(blocks, event, required);
    highest_header_is_tip(gains(event));
    lookup_finds_every_cached_block(blocks, gains(event));
    every_announced_block_is_taken(blocks, gains(event));
    if let BlockchainEvent::BlockchainUpdatedWithReorg(data) = event {
        lookup_finds_every_cached_block(after, data.headers_to_rollback@);
    }
}

/// A complete chain event gains the blocks that were looked up and then those that were
/// reworked, loses those that were looked up, and confirms what its headers take out of
/// the cache once the reworked blocks are in it again.
pub proof fn completion_tells_of_all_blocks(
    blocks: BlockMap,
    pending: PendingChainEventView,
    updated: Seq<BitcoinBlockDataCached>,
)
    ensures
        ({
            let event = completion(blocks, pending, updated);
            let gained = gained_in(event);
            let first = pending.blocks_to_apply;
            &&& pending.blocks_to_rollback is Some <==> event is ChainUpdatedWithReorg
            &&& pending.blocks_to_rollback matches Some(lost) ==> lost_in(event) == lost
            &&& gained.len() == first.len() + updated.len()
            &&& forall|k: int| 0 <= k < first.len() ==> #[trigger] gained[k] == first[k]
            &&& forall|k: int|
                first.len() <= k < gained.len() ==> #[trigger] gained[k] == updated[k
                    - first.len()].block
            &&& are_confirmed_behind(
                blocks,
                updated,
                pending.confirmed_headers,
                confirmed_in(event),
                cache_after_completion(blocks, pending, updated),
            )
        }),
{
    every_entry_is_filed(blocks, updated);
    every_announced_block_is_taken(all_filed(blocks, updated), pending.confirmed_headers);
}

/// A Bitcoin chain event is a reorganisation to report exactly if the chain switched to a
/// branch and gained blocks. The report counts the blocks that came and went, and is dated
/// by the new tip.
pub proof fn bitcoin_reorganisation_is_counted_and_dated(event: BitcoinChainEventView)
    ensures
        bitcoin_reorg(event) is Some <==> event is ChainUpdatedWithReorg && gained_in(event).len()
            > 0,
        bitcoin_reorg(event) matches Some(report) ==> {
            &&& report.applied_blocks == gained_in(event).len() as u64
            &&& report.rolled_back_blocks == lost_in(event).len() as u64
            &&& is_time_of_tip(gained_in(event), report.timestamp)
        },
{
    highest_block_is_tip(gained_in(event));
}

/// Where no sidecar reworks blocks, the event that is handed to the evaluation
/// tells of the cached blocks: of those that the chain gains and those that it
/// loses, each as often as a header announces it, and of those that it confirms,
/// each once. It is of the same kind as the event that was propagated. The
/// confirmed blocks leave the cache, and nothing else does.
pub proof fn event_tells_of_the_cached_blocks(state: ObserverView, event: BlockchainEvent)
    requires
        state.phase is Idle,
        !state.links.blocks_mutator,
    ensures
        ({
            let step = state.step(
                ObserverInput::Command(ObserverCommand::PropagateBitcoinChainEvent(event)),
            );
            let told = asked_event(step);
            &&& asks_to_evaluate(state, step, told, gains(event))
            &&& event is BlockchainUpdatedWithReorg <==> told is ChainUpdatedWithReorg
            &&& event matches BlockchainEvent::BlockchainUpdatedWithReorg(data) ==> are_cached(
                state.blocks,
                data.headers_to_rollback@,
                lost_in(told),
            )
            &&& are_cached(state.blocks, gains(event), gained_in(told))
            &&& are_blocks_taken(state.blocks, confirms(event), confirmed_in(told))
            &&& is_cache_without(state.blocks, confirms(event), step.state.blocks)
        }),
{
    let resolved = resolution(state.blocks, event, false);
    let none = Seq::<BitcoinBlockDataCached>::empty();
    assert(resolved.blocks_to_mutate =~= none);
    assert(all_filed(state.blocks, none) == state.blocks);
    assert(blocks_of(none) =~= Seq::<BitcoinBlockData>::empty());
    assert(resolved.pending.blocks_to_apply + blocks_of(none) =~= resolved.pending.blocks_to_apply);
    highest_header_is_tip(gains(event));
    lookup_finds_every_cached_block(state.blocks, gains(event));
    every_announced_block_is_taken(state.blocks, confirms(event));
    if let BlockchainEvent::BlockchainUpdatedWithReorg(data) = event {
        lookup_finds_every_cached_block(state.blocks, data.headers_to_rollback@);
    }
    completed_event_is_evaluated(
        state.in_phase(PhaseView::Idle),
        resolved.pending,
        none,
        gains(event),
    );
}

/// Where a sidecar reworks blocks, it is handed the cached blocks that the chain
/// gains, which leave the cache, and the identifiers of those that the chain
/// loses and that are still in the cache.
pub proof fn sidecar_is_handed_the_blocks_to_rework(state: ObserverView, event: BlockchainEvent)
    requires
        state.phase is Idle,
        state.links.blocks_mutator,
    ensures
        ({
            let step = state.step(
                ObserverInput::Command(ObserverCommand::PropagateBitcoinChainEvent(event)),
            );
            &&& step.state == ObserverView {
                blocks: step.state.blocks,
                phase: step.state.phase,
                ..state
            }
            &&& step.state.phase is Mutating
            &&& is_cache_without(state.blocks, gains(event), step.state.blocks)
            &&& step.actions.len() == 1
            &&& step.actions[0] matches ObserverActionView::MutateBlocks(blocks, identifiers)
                && are_taken(state.blocks, gains(event), blocks) && match event {
                BlockchainEvent::BlockchainUpdatedWithHeaders(_) => identifiers.len() == 0,
                BlockchainEvent::BlockchainUpdatedWithReorg(data) => are_known(
                    step.state.blocks,
                    data.headers_to_rollback@,
                    identifiers,
                ),
            }
        }),
{
    every_announced_block_is_taken(state.blocks, gains(event));
    if let BlockchainEvent::BlockchainUpdatedWithReorg(data) = event {
        lookup_finds_every_cached_block(
            left_behind(state.blocks, gains(event)),
            data.headers_to_rollback@,
        );
    }
}

/// Whether the blocks are those of the entries, one by one.
pub open spec fn are_blocks_of(
    blocks: Seq<BitcoinBlockData>,
    caches: Seq<BitcoinBlockDataCached>,
) -> bool {
    blocks.len() == caches.len() && forall|k: int|
        0 <= k < blocks.len() ==> #[trigger] blocks[k] == caches[k].block
}

/// Whether reworked blocks come back into a cache, and the confirmed blocks
/// leave it.
pub open spec fn are_confirmed_behind(
    before: BlockMap,
    updated: Seq<BitcoinBlockDataCached>,
    headers: Seq<BlockHeader>,
    confirmed: Seq<BitcoinBlockData>,
    after: BlockMap,
) -> bool {
    exists|between: BlockMap| #[trigger]
        is_cache_with(before, updated, between) && are_blocks_taken(between, headers, confirmed)
            && is_cache_without(between, headers, after)
}

/// Where a sidecar reworks blocks, the event that is handed to the evaluation
/// gains the blocks that the sidecar sent back, or where it sent none, those
/// that it was handed. It loses the blocks that the chain loses and that were
/// left in the cache. The reworked blocks are in the cache again before the
/// confirmed blocks leave it.
#[verifier::rlimit(30)]
pub proof fn event_tells_of_the_reworked_blocks(
    state: ObserverView,
    event: BlockchainEvent,
    reply: Option<Vec<BitcoinBlockDataCached>>,
)
    requires
        state.phase is Idle,
        state.links.blocks_mutator,
    ensures
        ({
            let first = state.step(
                ObserverInput::Command(ObserverCommand::PropagateBitcoinChainEvent(event)),
            );
            let step = first.state.step(ObserverInput::BlocksMutated(reply));
            let told = asked_event(step);
            let updated = match reply {
                Some(blocks) => blocks@,
                None => first.actions[0]->MutateBlocks_0,
            };
            &&& asks_to_evaluate(state, step, told, gains(event))
            &&& event is BlockchainUpdatedWithReorg <==> told is ChainUpdatedWithReorg
            &&& event matches BlockchainEvent::BlockchainUpdatedWithReorg(data) ==> are_cached(
                first.state.blocks,
                data.headers_to_rollback@,
                lost_in(told),
            )
            &&& are_blocks_of(gained_in(told), updated)
            &&& are_confirmed_behind(
                first.state.blocks,
                updated,
                confirms(event),
                confirmed_in(told),
                step.state.blocks,
            )
        }),
{
    let resolved = resolution(state.blocks, event, true);
    let left = left_behind(state.blocks, gains(event));
    let updated = match reply {
        Some(blocks) => blocks@,
        None => taken(state.blocks, gains(event)),
    };
    assert(Seq::<BitcoinBlockData>::empty() + blocks_of(updated) =~= blocks_of(updated));
    highest_header_is_tip(gains(event));
    every_entry_is_filed(left, updated);
    every_announced_block_is_taken(all_filed(left, updated), confirms(event));
    if let BlockchainEvent::BlockchainUpdatedWithReorg(data) = event {
        lookup_finds_every_cached_block(left, data.headers_to_rollback@);
    }
    let after = ObserverView { blocks: left, ..state.in_phase(PhaseView::Idle) };
    completed_event_is_evaluated(after, resolved.pending, updated, gains(event));
    let first = state.step(
        ObserverInput::Command(ObserverCommand::PropagateBitcoinChainEvent(event)),
    );
    assert(first.state.in_phase(PhaseView::Idle) == after);
}

/// The time is that of the last of the highest updates.
pub open spec fn is_time_of_stacks_tip(updates: Seq<StacksBlockUpdate>, time: i64) -> bool {
    exists|k: int|
        0 <= k < updates.len() && time == (#[trigger] updates[k]).block.timestamp && forall|j: int|
            0 <= j < updates.len() ==> {
                &&& (#[trigger] updates[j]).block.block_identifier.index
                    <= updates[k].block.block_identifier.index
                &&& j > k ==> updates[j].block.block_identifier.index
                    < updates[k].block.block_identifier.index
            }
}

/// A height is the greatest among the updates'; zero where there is none.
pub open spec fn is_stacks_tip_of(updates: Seq<StacksBlockUpdate>, height: u64) -> bool {
    &&& forall|i: int|
        0 <= i < updates.len() ==> (#[trigger] updates[i]).block.block_identifier.index <= height
    &&& updates.len() == 0 ==> height == 0
    &&& updates.len() > 0 ==> exists|i: int|
        0 <= i < updates.len() && (#[trigger] updates[i]).block.block_identifier.index == height
}

proof fn highest_update_is_last_of_the_highest(updates: Seq<StacksBlockUpdate>) -> (k: int)
    ensures
        updates.len() == 0 <==> highest_update(updates) is None,
        updates.len() > 0 ==> {
            &&& 0 <= k < updates.len()
            &&& highest_update(updates) == Some(updates[k])
            &&& forall|j: int|
                0 <= j < updates.len() ==> {
                    &&& (#[trigger] updates[j]).block.block_identifier.index
                        <= updates[k].block.block_identifier.index
                    &&& j > k ==> updates[j].block.block_identifier.index
                        < updates[k].block.block_identifier.index
                }
        },
    decreases updates.len(),
{
    if updates.len() == 0 {
        0
    } else {
        let shorter = updates.drop_last();
        let before = highest_update_is_last_of_the_highest(shorter);
        let last = updates.len() - 1;
        assert forall|j: int| 0 <= j < last implies shorter[j] == #[trigger] updates[j] by {}
        if shorter.len() > 0 && shorter[before].block.block_identifier.index
            > updates.last().block.block_identifier.index {
            before
        } else {
            last
        }
    }
}

/// The blocks that a Stacks chain event says the chain gained.
pub open spec fn stacks_gained_in(event: StacksChainEventView) -> Seq<StacksBlockUpdate> {
    match event {
        StacksChainEventView::ChainUpdatedWithBlocks { new_blocks, .. } => new_blocks,
        StacksChainEventView::ChainUpdatedWithReorg { blocks_to_apply, .. } => blocks_to_apply,
        _ => Seq::empty(),
    }
}

/// A Stacks chain event is a reorganisation to report exactly if the chain switched to a
/// branch and gained blocks. The report counts the blocks that came and went, and is dated
/// by the new tip. The tip is as high as the highest block that the chain gained.
pub proof fn stacks_reorganisation_is_counted_and_dated(event: StacksChainEventView)
    ensures
        stacks_reorg(event) is Some <==> event is ChainUpdatedWithReorg && stacks_gained_in(
            event,
        ).len() > 0,
        stacks_reorg(event) matches Some(report) ==> {
            &&& report.applied_blocks == stacks_gained_in(event).len() as u64
            &&& event matches StacksChainEventView::ChainUpdatedWithReorg {
                blocks_to_rollback,
                ..
            } && report.rolled_back_blocks == blocks_to_rollback.len() as u64
            &&& is_time_of_stacks_tip(stacks_gained_in(event), report.timestamp)
        },
        is_stacks_tip_of(stacks_gained_in(event), stacks_tip(event)),
{
    let gained = stacks_gained_in(event);
    let k = highest_update_is_last_of_the_highest(gained);
    if gained.len() > 0 {
        assert(is_time_of_stacks_tip(gained, gained[k].block.timestamp));
    }
}

/// A Stacks chain event of any kind is handed to the evaluation as it came, with
/// the active hooks. Before that the monitoring hears of a reorganisation in
/// which the chain gained blocks, and of nothing else. The new tip is the
/// greatest height among the blocks that the chain gained.
pub proof fn stacks_event_is_evaluated_as_it_came(state: ObserverView, event: StacksChainEvent)
    requires
        state.phase is Idle,
    ensures
        ({
            let step = state.step(
                ObserverInput::Command(ObserverCommand::PropagateStacksChainEvent(event)),
            );
            let gained = stacks_gained_in(event@);
            let reports = if event is ChainUpdatedWithReorg && gained.len() > 0 {
                1int
            } else {
                0
            };
            &&& step.state == ObserverView { phase: step.state.phase, ..state }
            &&& step.state.phase matches PhaseView::Evaluating(evaluated, tip) && evaluated
                == EventView::StacksChainEvent(event@) && is_stacks_tip_of(gained, tip)
            &&& step.actions.len() == reports + 1
            &&& step.actions.last() matches ObserverActionView::EvaluateStacks(evaluated, hooks)
                && evaluated == event@ && are_active(state.stacks_hooks, hooks)
            &&& reports == 1 ==> {
                &&& step.actions[0] matches ObserverActionView::Measure(Metric::StacksReorg(report))
                &&& report.applied_blocks == gained.len() as u64
                &&& event matches StacksChainEvent::ChainUpdatedWithReorg(data)
                    && report.rolled_back_blocks == data.blocks_to_rollback@.len() as u64
                &&& is_time_of_stacks_tip(gained, report.timestamp)
            }
        }),
{
    let gained = stacks_gained_in(event@);
    let k = highest_update_is_last_of_the_highest(gained);
    if gained.len() > 0 {
        assert(is_time_of_stacks_tip(gained, gained[k].block.timestamp));
    }
    active_hooks_are_all_that_are_enabled_and_not_expired(state.stacks_hooks);
}

} // verus!
