//! What the observer reports to the monitoring of the two chains.

use vstd::prelude::*;

use crate::chain::{
    BitcoinBlockData, BitcoinChainEvent, BitcoinChainEventView, StacksBlockUpdate,
    StacksChainEvent, StacksChainEventView,
};

verus! {

/// A switch to another branch: the time of the new tip, and how many blocks the
/// chain gained and lost.
#[derive(Clone, Copy, Debug, PartialEq, Eq, Structural)]
pub struct Reorg {
    pub timestamp: i64,
    pub applied_blocks: u64,
    pub rolled_back_blocks: u64,
}

/// One report to the monitoring.
#[derive(Clone, Copy, Debug, PartialEq, Eq, Structural)]
pub enum Metric {
    BitcoinPredicateRegistered,
    BitcoinPredicateDeregistered,
    BitcoinBlockEvaluated(u64),
    BitcoinReorg(Reorg),
    StacksPredicateRegistered,
    StacksPredicateDeregistered,
    StacksBlockEvaluated(u64),
    StacksReorg(Reorg),
}

/// The highest of some blocks; the last of them where several are highest.
pub open spec fn highest_block(blocks: Seq<BitcoinBlockData>) -> Option<BitcoinBlockData>
    decreases blocks.len(),
{
    if blocks.len() == 0 {
        None
    } else {
        match highest_block(blocks.drop_last()) {
            Some(highest) => if highest.block_identifier.index
                > blocks.last().block_identifier.index {
                Some(highest)
            } else {
                Some(blocks.last())
            },
            None => Some(blocks.last()),
        }
    }
}

/// The highest of some updates; the last of them where several are highest.
pub open spec fn highest_update(updates: Seq<StacksBlockUpdate>) -> Option<StacksBlockUpdate>
    decreases updates.len(),
{
    if updates.len() == 0 {
        None
    } else {
        match highest_update(updates.drop_last()) {
            Some(highest) => if highest.block.block_identifier.index
                > updates.last().block.block_identifier.index {
                Some(highest)
            } else {
                Some(updates.last())
            },
            None => Some(updates.last()),
        }
    }
}

/// The reorganisation that a Bitcoin chain event is, if blocks were gained in
/// it.
pub open spec fn bitcoin_reorg(event: BitcoinChainEventView) -> Option<Reorg> {
    match event {
        BitcoinChainEventView::ChainUpdatedWithReorg { blocks_to_rollback, blocks_to_apply, .. } => {
            match highest_block(blocks_to_apply) {
                Some(highest) => Some(
                    Reorg {
                        timestamp: highest.timestamp as i64,
                        applied_blocks: blocks_to_apply.len() as u64,
                        rolled_back_blocks: blocks_to_rollback.len() as u64,
                    },
                ),
                None => None,
            }
        },
        _ => None,
    }
}

/// The reorganisation that a Stacks chain event is, if blocks were gained in
/// it.
pub open spec fn stacks_reorg(event: StacksChainEventView) -> Option<Reorg> {
    match event {
        StacksChainEventView::ChainUpdatedWithReorg { blocks_to_rollback, blocks_to_apply, .. } => {
            match highest_update(blocks_to_apply) {
                Some(highest) => Some(
                    Reorg {
                        timestamp: highest.block.timestamp,
                        applied_blocks: blocks_to_apply.len() as u64,
                        rolled_back_blocks: blocks_to_rollback.len() as u64,
                    },
                ),
                None => None,
            }
        },
        _ => None,
    }
}

/// The height of the highest of some updates, or zero.
pub open spec fn height_of(updates: Seq<StacksBlockUpdate>) -> u64 {
    match highest_update(updates) {
        Some(highest) => highest.block.block_identifier.index,
        None => 0,
    }
}

/// The height of the tip that a Stacks chain event leads to; zero where it
/// gains no block.
pub open spec fn stacks_tip(event: StacksChainEventView) -> u64 {
    match event {
        StacksChainEventView::ChainUpdatedWithBlocks { new_blocks, .. } => height_of(new_blocks),
        StacksChainEventView::ChainUpdatedWithReorg { blocks_to_apply, .. } => height_of(
            blocks_to_apply,
        ),
        _ => 0,
    }
}

fn find_highest_block(blocks: &Vec<BitcoinBlockData>) -> (highest: Option<&BitcoinBlockData>)
    ensures
        match highest {
            Some(highest) => highest_block(blocks@) == Some(*highest),
            None => highest_block(blocks@) is None,
        },
{
    let mut highest: Option<&BitcoinBlockData> = None;
    for i in 0..blocks.len()
        invariant
            match highest {
                Some(highest) => highest_block(blocks@.take(i as int)) == Some(*highest),
                None => highest_block(blocks@.take(i as int)) is None,
            },
    {
        assert(blocks@.take(i + 1).drop_last() =~= blocks@.take(i as int));
        let higher = match highest {
            Some(highest) => highest.block_identifier.index > blocks[i].block_identifier.index,
            None => false,
        };
        if !higher {
            highest = Some(&blocks[i]);
        }
    }
    assert(blocks@.take(blocks@.len() as int) =~= blocks@);
    highest
}

fn find_highest_update(updates: &Vec<StacksBlockUpdate>) -> (highest: Option<&StacksBlockUpdate>)
    ensures
        match highest {
            Some(highest) => highest_update(updates@) == Some(*highest),
            None => highest_update(updates@) is None,
        },
{
    let mut highest: Option<&StacksBlockUpdate> = None;
    for i in 0..updates.len()
        invariant
            match highest {
                Some(highest) => highest_update(updates@.take(i as int)) == Some(*highest),
                None => highest_update(updates@.take(i as int)) is None,
            },
    {
        assert(updates@.take(i + 1).drop_last() =~= updates@.take(i as int));
        let higher = match highest {
            Some(highest) => highest.block.block_identifier.index
                > updates[i].block.block_identifier.index,
            None => false,
        };
        if !higher {
            highest = Some(&updates[i]);
        }
    }
    assert(updates@.take(updates@.len() as int) =~= updates@);
    highest
}

/// The reorganisation that a Bitcoin chain event is, if blocks were gained in
/// it.
pub fn measure_bitcoin_reorg(event: &BitcoinChainEvent) -> (reorg: Option<Reorg>)
    ensures
        reorg == bitcoin_reorg(event@),
{
    match event {
        BitcoinChainEvent::ChainUpdatedWithReorg(data) => {
            match find_highest_block(&data.blocks_to_apply) {
                Some(highest) => Some(
                    Reorg {
                        timestamp: highest.timestamp as i64,
                        applied_blocks: data.blocks_to_apply.len() as u64,
                        rolled_back_blocks: data.blocks_to_rollback.len() as u64,
                    },
                ),
                None => None,
            }
        },
        BitcoinChainEvent::ChainUpdatedWithBlocks(_) => None,
    }
}

/// The reorganisation that a Stacks chain event is, if blocks were gained in
/// it.
pub fn measure_stacks_reorg(event: &StacksChainEvent) -> (reorg: Option<Reorg>)
    ensures
        reorg == stacks_reorg(event@),
{
    match event {
        StacksChainEvent::ChainUpdatedWithReorg(data) => {
            match find_highest_update(&data.blocks_to_apply) {
                Some(highest) => Some(
                    Reorg {
                        timestamp: highest.block.timestamp,
                        applied_blocks: data.blocks_to_apply.len() as u64,
                        rolled_back_blocks: data.blocks_to_rollback.len() as u64,
                    },
                ),
                None => None,
            }
        },
        _ => None,
    }
}

/// The height of the tip that a Stacks chain event leads to; zero where it
/// gains no block.
pub fn measure_stacks_tip(event: &StacksChainEvent) -> (height: u64)
    ensures
        height == stacks_tip(event@),
{
    let highest = match event {
        StacksChainEvent::ChainUpdatedWithBlocks(data) => find_highest_update(&data.new_blocks),
        StacksChainEvent::ChainUpdatedWithReorg(data) => find_highest_update(&data.blocks_to_apply),
        _ => None,
    };
    match highest {
        Some(highest) => highest.block.block_identifier.index,
        None => 0,
    }
}

} // verus!
