//! Chain data: block and transaction identifiers, headers, blocks, and the
//! events by which a chain reports what happened to it.
//!
//! The observer reads only a few fields of a block. What it carries through
//! unread (transactions, metadata) travels in `content`, in serialised form.

use vstd::prelude::*;

use crate::text::{compare_text, TextOrder};

verus! {

/// A block's height and hash. Two identifiers name the same block when their
/// hashes agree.
#[derive(Debug)]
pub struct BlockIdentifier {
    /// The block's height.
    pub index: u64,
    pub hash: String,
}

/// What a `BlockIdentifier` holds.
pub struct BlockKey {
    pub index: u64,
    pub hash: Seq<char>,
}

impl View for BlockIdentifier {
    type V = BlockKey;

    open spec fn view(&self) -> BlockKey {
        BlockKey { index: self.index, hash: self.hash@ }
    }
}

impl Clone for BlockIdentifier {
    fn clone(&self) -> (copy: Self)
        ensures
            copy == *self,
    {
        BlockIdentifier { index: self.index, hash: self.hash.clone() }
    }
}

impl PartialEq for BlockIdentifier {
    fn eq(&self, other: &Self) -> (same: bool) {
        self.hash == other.hash
    }
}

impl vstd::std_specs::cmp::PartialEqSpecImpl for BlockIdentifier {
    open spec fn obeys_eq_spec() -> bool {
        true
    }

    open spec fn eq_spec(&self, other: &Self) -> bool {
        self.hash@ == other.hash@
    }
}

impl Eq for BlockIdentifier {

}

/// The order in which collections of identifiers list them: the highest block
/// first, and among blocks of one height the greatest hash first.
pub open spec fn block_before(a: BlockKey, b: BlockKey) -> bool {
    a.index > b.index || (a.index == b.index && crate::text::text_before(b.hash, a.hash))
}

/// The order of identifiers is a strict total order.
pub proof fn block_before_is_transitive(a: BlockKey, b: BlockKey, c: BlockKey)
    requires
        block_before(a, b),
        block_before(b, c),
    ensures
        block_before(a, c),
{
    if a.index == c.index {
        crate::text::text_before_is_transitive(c.hash, b.hash, a.hash);
    }
}

impl BlockIdentifier {
    /// How this identifier is listed relative to another.
    pub fn compare(&self, other: &BlockIdentifier) -> (order: TextOrder)
        ensures
            order is Before <==> block_before(self@, other@),
            order is Same <==> self@ == other@,
            order is After <==> block_before(other@, self@),
    {
        if self.index > other.index {
            TextOrder::Before
        } else if self.index < other.index {
            TextOrder::After
        } else {
            compare_text(other.hash.as_str(), self.hash.as_str())
        }
    }
}

/// A transaction's hash, in hexadecimal behind a `0x`.
#[derive(Debug)]
pub struct TransactionIdentifier {
    pub hash: String,
}

impl Clone for TransactionIdentifier {
    fn clone(&self) -> (copy: Self)
        ensures
            copy == *self,
    {
        TransactionIdentifier { hash: self.hash.clone() }
    }
}

impl PartialEq for TransactionIdentifier {
    fn eq(&self, other: &Self) -> (same: bool) {
        self.hash == other.hash
    }
}

impl vstd::std_specs::cmp::PartialEqSpecImpl for TransactionIdentifier {
    open spec fn obeys_eq_spec() -> bool {
        true
    }

    open spec fn eq_spec(&self, other: &Self) -> bool {
        self.hash@ == other.hash@
    }
}

impl Eq for TransactionIdentifier {

}

/// A block's place in its chain.
#[derive(Debug, PartialEq)]
pub struct BlockHeader {
    pub block_identifier: BlockIdentifier,
    pub parent_block_identifier: BlockIdentifier,
}

impl Clone for BlockHeader {
    fn clone(&self) -> (copy: Self)
        ensures
            copy == *self,
    {
        BlockHeader {
            block_identifier: self.block_identifier.clone(),
            parent_block_identifier: self.parent_block_identifier.clone(),
        }
    }
}

/// A Bitcoin block in standard form.
#[derive(Debug, PartialEq)]
pub struct BitcoinBlockData {
    pub block_identifier: BlockIdentifier,
    pub timestamp: u32,
    pub content: String,
}

impl Clone for BitcoinBlockData {
    fn clone(&self) -> (copy: Self)
        ensures
            copy == *self,
    {
        BitcoinBlockData {
            block_identifier: self.block_identifier.clone(),
            timestamp: self.timestamp,
            content: self.content.clone(),
        }
    }
}

/// A Bitcoin block as the node hands it out, before it is standardised.
#[derive(Debug, PartialEq)]
pub struct BitcoinBlockFullBreakdown {
    pub hash: String,
    pub content: String,
}

impl Clone for BitcoinBlockFullBreakdown {
    fn clone(&self) -> (copy: Self)
        ensures
            copy == *self,
    {
        BitcoinBlockFullBreakdown { hash: self.hash.clone(), content: self.content.clone() }
    }
}

/// The headers by which the chain grew.
#[derive(Clone, Debug, PartialEq)]
pub struct BlockchainUpdatedWithHeaders {
    pub new_headers: Vec<BlockHeader>,
    pub confirmed_headers: Vec<BlockHeader>,
}

/// The headers by which the chain switched to another branch.
#[derive(Clone, Debug, PartialEq)]
pub struct BlockchainUpdatedWithReorg {
    pub headers_to_rollback: Vec<BlockHeader>,
    pub headers_to_apply: Vec<BlockHeader>,
    pub confirmed_headers: Vec<BlockHeader>,
}

/// A chain event told in headers.
#[derive(Clone, Debug, PartialEq)]
pub enum BlockchainEvent {
    BlockchainUpdatedWithHeaders(BlockchainUpdatedWithHeaders),
    BlockchainUpdatedWithReorg(BlockchainUpdatedWithReorg),
}

/// The blocks by which the Bitcoin chain grew.
#[derive(Debug, PartialEq)]
pub struct BitcoinChainUpdatedWithBlocksData {
    pub new_blocks: Vec<BitcoinBlockData>,
    pub confirmed_blocks: Vec<BitcoinBlockData>,
}

/// The blocks by which the Bitcoin chain switched to another branch.
#[derive(Debug, PartialEq)]
pub struct BitcoinChainUpdatedWithReorgData {
    pub blocks_to_rollback: Vec<BitcoinBlockData>,
    pub blocks_to_apply: Vec<BitcoinBlockData>,
    pub confirmed_blocks: Vec<BitcoinBlockData>,
}

/// A Bitcoin chain event told in blocks.
#[derive(Debug, PartialEq)]
pub enum BitcoinChainEvent {
    ChainUpdatedWithBlocks(BitcoinChainUpdatedWithBlocksData),
    ChainUpdatedWithReorg(BitcoinChainUpdatedWithReorgData),
}

/// What a `BitcoinChainEvent` holds.
pub enum BitcoinChainEventView {
    ChainUpdatedWithBlocks {
        new_blocks: Seq<BitcoinBlockData>,
        confirmed_blocks: Seq<BitcoinBlockData>,
    },
    ChainUpdatedWithReorg {
        blocks_to_rollback: Seq<BitcoinBlockData>,
        blocks_to_apply: Seq<BitcoinBlockData>,
        confirmed_blocks: Seq<BitcoinBlockData>,
    },
}

impl View for BitcoinChainEvent {
    type V = BitcoinChainEventView;

    open spec fn view(&self) -> BitcoinChainEventView {
        match *self {
            BitcoinChainEvent::ChainUpdatedWithBlocks(
                data,
            ) => BitcoinChainEventView::ChainUpdatedWithBlocks {
                new_blocks: data.new_blocks@,
                confirmed_blocks: data.confirmed_blocks@,
            },
            BitcoinChainEvent::ChainUpdatedWithReorg(
                data,
            ) => BitcoinChainEventView::ChainUpdatedWithReorg {
                blocks_to_rollback: data.blocks_to_rollback@,
                blocks_to_apply: data.blocks_to_apply@,
                confirmed_blocks: data.confirmed_blocks@,
            },
        }
    }
}

impl Clone for BitcoinChainEvent {
    fn clone(&self) -> (copy: Self)
        ensures
            copy@ == self@,
    {
        match self {
            BitcoinChainEvent::ChainUpdatedWithBlocks(data) => {
                let new_blocks = data.new_blocks.clone();
                let confirmed_blocks = data.confirmed_blocks.clone();
                assert(new_blocks@ =~= data.new_blocks@);
                assert(confirmed_blocks@ =~= data.confirmed_blocks@);
                BitcoinChainEvent::ChainUpdatedWithBlocks(
                    BitcoinChainUpdatedWithBlocksData { new_blocks, confirmed_blocks },
                )
            },
            BitcoinChainEvent::ChainUpdatedWithReorg(data) => {
                let blocks_to_rollback = data.blocks_to_rollback.clone();
                let blocks_to_apply = data.blocks_to_apply.clone();
                let confirmed_blocks = data.confirmed_blocks.clone();
                assert(blocks_to_rollback@ =~= data.blocks_to_rollback@);
                assert(blocks_to_apply@ =~= data.blocks_to_apply@);
                assert(confirmed_blocks@ =~= data.confirmed_blocks@);
                BitcoinChainEvent::ChainUpdatedWithReorg(
                    BitcoinChainUpdatedWithReorgData {
                        blocks_to_rollback,
                        blocks_to_apply,
                        confirmed_blocks,
                    },
                )
            },
        }
    }
}

/// A Stacks block.
#[derive(Debug, PartialEq)]
pub struct StacksBlockData {
    pub block_identifier: BlockIdentifier,
    pub timestamp: i64,
    pub content: String,
}

impl Clone for StacksBlockData {
    fn clone(&self) -> (copy: Self)
        ensures
            copy == *self,
    {
        StacksBlockData {
            block_identifier: self.block_identifier.clone(),
            timestamp: self.timestamp,
            content: self.content.clone(),
        }
    }
}

/// A Stacks block and, in `content`, what changed in the microblocks below it.
#[derive(Debug, PartialEq)]
pub struct StacksBlockUpdate {
    pub block: StacksBlockData,
    pub content: String,
}

impl Clone for StacksBlockUpdate {
    fn clone(&self) -> (copy: Self)
        ensures
            copy == *self,
    {
        StacksBlockUpdate { block: self.block.clone(), content: self.content.clone() }
    }
}

/// The blocks by which the Stacks chain grew.
#[derive(Debug, PartialEq)]
pub struct StacksChainUpdatedWithBlocksData {
    pub new_blocks: Vec<StacksBlockUpdate>,
    pub confirmed_blocks: Vec<StacksBlockData>,
}

/// The blocks by which the Stacks chain switched to another branch.
#[derive(Debug, PartialEq)]
pub struct StacksChainUpdatedWithReorgData {
    pub blocks_to_rollback: Vec<StacksBlockUpdate>,
    pub blocks_to_apply: Vec<StacksBlockUpdate>,
    pub confirmed_blocks: Vec<StacksBlockData>,
}

/// A Stacks chain event. Those about microblocks are carried through unread.
#[derive(Debug, PartialEq)]
pub enum StacksChainEvent {
    ChainUpdatedWithBlocks(StacksChainUpdatedWithBlocksData),
    ChainUpdatedWithReorg(StacksChainUpdatedWithReorgData),
    ChainUpdatedWithMicroblocks(String),
    ChainUpdatedWithMicroblocksReorg(String),
}

/// What a `StacksChainEvent` holds.
pub enum StacksChainEventView {
    ChainUpdatedWithBlocks {
        new_blocks: Seq<StacksBlockUpdate>,
        confirmed_blocks: Seq<StacksBlockData>,
    },
    ChainUpdatedWithReorg {
        blocks_to_rollback: Seq<StacksBlockUpdate>,
        blocks_to_apply: Seq<StacksBlockUpdate>,
        confirmed_blocks: Seq<StacksBlockData>,
    },
    ChainUpdatedWithMicroblocks { content: String },
    ChainUpdatedWithMicroblocksReorg { content: String },
}

impl View for StacksChainEvent {
    type V = StacksChainEventView;

    open spec fn view(&self) -> StacksChainEventView {
        match *self {
            StacksChainEvent::ChainUpdatedWithBlocks(
                data,
            ) => StacksChainEventView::ChainUpdatedWithBlocks {
                new_blocks: data.new_blocks@,
                confirmed_blocks: data.confirmed_blocks@,
            },
            StacksChainEvent::ChainUpdatedWithReorg(
                data,
            ) => StacksChainEventView::ChainUpdatedWithReorg {
                blocks_to_rollback: data.blocks_to_rollback@,
                blocks_to_apply: data.blocks_to_apply@,
                confirmed_blocks: data.confirmed_blocks@,
            },
            StacksChainEvent::ChainUpdatedWithMicroblocks(
                content,
            ) => StacksChainEventView::ChainUpdatedWithMicroblocks { content },
            StacksChainEvent::ChainUpdatedWithMicroblocksReorg(
                content,
            ) => StacksChainEventView::ChainUpdatedWithMicroblocksReorg { content },
        }
    }
}

impl Clone for StacksChainEvent {
    fn clone(&self) -> (copy: Self)
        ensures
            copy@ == self@,
    {
        match self {
            StacksChainEvent::ChainUpdatedWithBlocks(data) => {
                let new_blocks = data.new_blocks.clone();
                let confirmed_blocks = data.confirmed_blocks.clone();
                assert(new_blocks@ =~= data.new_blocks@);
                assert(confirmed_blocks@ =~= data.confirmed_blocks@);
                StacksChainEvent::ChainUpdatedWithBlocks(
                    StacksChainUpdatedWithBlocksData { new_blocks, confirmed_blocks },
                )
            },
            StacksChainEvent::ChainUpdatedWithReorg(data) => {
                let blocks_to_rollback = data.blocks_to_rollback.clone();
                let blocks_to_apply = data.blocks_to_apply.clone();
                let confirmed_blocks = data.confirmed_blocks.clone();
                assert(blocks_to_rollback@ =~= data.blocks_to_rollback@);
                assert(blocks_to_apply@ =~= data.blocks_to_apply@);
                assert(confirmed_blocks@ =~= data.confirmed_blocks@);
                StacksChainEvent::ChainUpdatedWithReorg(
                    StacksChainUpdatedWithReorgData {
                        blocks_to_rollback,
                        blocks_to_apply,
                        confirmed_blocks,
                    },
                )
            },
            StacksChainEvent::ChainUpdatedWithMicroblocks(
                content,
            ) => StacksChainEvent::ChainUpdatedWithMicroblocks(content.clone()),
            StacksChainEvent::ChainUpdatedWithMicroblocksReorg(
                content,
            ) => StacksChainEvent::ChainUpdatedWithMicroblocksReorg(content.clone()),
        }
    }
}

/// A chain event of either chain.
#[derive(Debug, PartialEq)]
pub enum Event {
    BitcoinChainEvent(BitcoinChainEvent),
    StacksChainEvent(StacksChainEvent),
}

/// What an `Event` holds.
pub enum EventView {
    BitcoinChainEvent(BitcoinChainEventView),
    StacksChainEvent(StacksChainEventView),
}

impl View for Event {
    type V = EventView;

    open spec fn view(&self) -> EventView {
        match *self {
            Event::BitcoinChainEvent(event) => EventView::BitcoinChainEvent(event@),
            Event::StacksChainEvent(event) => EventView::StacksChainEvent(event@),
        }
    }
}

impl Clone for Event {
    fn clone(&self) -> (copy: Self)
        ensures
            copy@ == self@,
    {
        match self {
            Event::BitcoinChainEvent(event) => Event::BitcoinChainEvent(event.clone()),
            Event::StacksChainEvent(event) => Event::StacksChainEvent(event.clone()),
        }
    }
}

} // verus!
