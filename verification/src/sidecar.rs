//! The sidecar: a companion that may rework the blocks of a Bitcoin chain event
//! before it is evaluated, and that may be told of the blocks that come and go.

use vstd::prelude::*;

use crate::blocks::BitcoinBlockDataCached;
use crate::chain::{BitcoinBlockData, BitcoinChainEvent, BitcoinChainEventView, BlockIdentifier};

verus! {

/// A block that the sidecar is told of.
#[derive(Debug, PartialEq)]
pub enum HandleBlock {
    ApplyBlock(BitcoinBlockData),
    UndoBlock(BitcoinBlockData),
}

/// The channels to and from the sidecar.
pub struct ObserverSidecar {
    pub bitcoin_blocks_mutator: Option<
        (
            crossbeam_channel::Sender<(Vec<BitcoinBlockDataCached>, Vec<BlockIdentifier>)>,
            crossbeam_channel::Receiver<Vec<BitcoinBlockDataCached>>,
        ),
    >,
    pub bitcoin_chain_event_notifier: Option<crossbeam_channel::Sender<HandleBlock>>,
}

/// The blocks, each as one to apply.
pub open spec fn to_apply(blocks: Seq<BitcoinBlockData>) -> Seq<HandleBlock> {
    blocks.map_values(|block: BitcoinBlockData| HandleBlock::ApplyBlock(block))
}

/// The blocks, each as one to undo.
pub open spec fn to_undo(blocks: Seq<BitcoinBlockData>) -> Seq<HandleBlock> {
    blocks.map_values(|block: BitcoinBlockData| HandleBlock::UndoBlock(block))
}

/// What a sidecar is told of a chain event: the blocks to undo, then those to
/// apply.
pub open spec fn notifications(event: BitcoinChainEventView) -> Seq<HandleBlock> {
    match event {
        BitcoinChainEventView::ChainUpdatedWithBlocks { new_blocks, .. } => to_apply(new_blocks),
        BitcoinChainEventView::ChainUpdatedWithReorg {
            blocks_to_rollback,
            blocks_to_apply,
            ..
        } => to_undo(blocks_to_rollback) + to_apply(blocks_to_apply),
    }
}

/// Adds the blocks to the messages, each as one to apply.
fn push_to_apply(messages: &mut Vec<HandleBlock>, blocks: &Vec<BitcoinBlockData>)
    ensures
        final(messages)@ == old(messages)@ + to_apply(blocks@),
{
    assert(messages@ =~= old(messages)@ + to_apply(blocks@.take(0)));
    for i in 0..blocks.len()
        invariant
            messages@ == old(messages)@ + to_apply(blocks@.take(i as int)),
    {
        messages.push(HandleBlock::ApplyBlock(blocks[i].clone()));
        assert(messages@ =~= old(messages)@ + to_apply(blocks@.take(i + 1)));
    }
    assert(blocks@.take(blocks@.len() as int) =~= blocks@);
}

/// Adds the blocks to the messages, each as one to undo.
fn push_to_undo(messages: &mut Vec<HandleBlock>, blocks: &Vec<BitcoinBlockData>)
    ensures
        final(messages)@ == old(messages)@ + to_undo(blocks@),
{
    assert(messages@ =~= old(messages)@ + to_undo(blocks@.take(0)));
    for i in 0..blocks.len()
        invariant
            messages@ == old(messages)@ + to_undo(blocks@.take(i as int)),
    {
        messages.push(HandleBlock::UndoBlock(blocks[i].clone()));
        assert(messages@ =~= old(messages)@ + to_undo(blocks@.take(i + 1)));
    }
    assert(blocks@.take(blocks@.len() as int) =~= blocks@);
}

/// What a sidecar is told of a chain event.
pub fn notify_chain_event(chain_event: &BitcoinChainEvent) -> (messages: Vec<HandleBlock>)
    ensures
        messages@ == notifications(chain_event@),
{
    let mut messages: Vec<HandleBlock> = Vec::new();
    match chain_event {
        BitcoinChainEvent::ChainUpdatedWithBlocks(data) => {
            push_to_apply(&mut messages, &data.new_blocks);
        },
        BitcoinChainEvent::ChainUpdatedWithReorg(data) => {
            push_to_undo(&mut messages, &data.blocks_to_rollback);
            push_to_apply(&mut messages, &data.blocks_to_apply);
        },
    }
    assert(messages@ =~= notifications(chain_event@));
    messages
}

/// The blocks that go on once the sidecar had its turn: those that it sent
/// back, or the blocks as they were where it sent none.
pub fn perform_bitcoin_sidecar_mutations(
    blocks: Vec<BitcoinBlockDataCached>,
    reply: Option<Vec<BitcoinBlockDataCached>>,
) -> (outcome: Vec<BitcoinBlockDataCached>)
    ensures
        outcome == match reply {
            Some(updated_blocks) => updated_blocks,
            None => blocks,
        },
{
    match reply {
        Some(updated_blocks) => updated_blocks,
        None => blocks,
    }
}

} // verus!
