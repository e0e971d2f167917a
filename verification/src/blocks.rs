//! The cache of Bitcoin blocks, and the chain events that are built from it.
//!
//! A chain event arrives as headers. The observer looks the blocks up in its
//! cache, lets a sidecar rework those that the chain gains, and drops those
//! that are confirmed.

use vstd::hash_map::StringHashMap;
use vstd::prelude::*;

use crate::chain::{
    BitcoinBlockData, BitcoinChainEvent, BitcoinChainEventView, BitcoinChainUpdatedWithBlocksData,
    BitcoinChainUpdatedWithReorgData, BlockHeader, BlockIdentifier, BlockchainEvent,
};

verus! {

/// A block in the cache.
#[derive(Debug, PartialEq)]
pub struct BitcoinBlockDataCached {
    pub block: BitcoinBlockData,
    pub processed_by_sidecar: bool,
}

impl Clone for BitcoinBlockDataCached {
    fn clone(&self) -> (copy: Self)
        ensures
            copy == *self,
    {
        BitcoinBlockDataCached {
            block: self.block.clone(),
            processed_by_sidecar: self.processed_by_sidecar,
        }
    }
}

/// A block as it enters the cache.
pub open spec fn unprocessed(block: BitcoinBlockData) -> BitcoinBlockDataCached {
    BitcoinBlockDataCached { block, processed_by_sidecar: false }
}

/// What the cache holds: blocks by their hashes.
pub type BlockMap = Map<Seq<char>, BitcoinBlockDataCached>;

/// Every block is filed under its own hash.
pub open spec fn well_filed(blocks: BlockMap) -> bool {
    forall|hash: Seq<char>| #[trigger]
        blocks.contains_key(hash) ==> blocks[hash].block.block_identifier.hash@ == hash
}

/// The cache with one more block, which displaces one of the same hash.
pub open spec fn filed(blocks: BlockMap, cache: BitcoinBlockDataCached) -> BlockMap {
    blocks.insert(cache.block.block_identifier.hash@, cache)
}

/// The cache with several more blocks, filed one after the other.
pub open spec fn all_filed(blocks: BlockMap, caches: Seq<BitcoinBlockDataCached>) -> BlockMap
    decreases caches.len(),
{
    if caches.len() == 0 {
        blocks
    } else {
        filed(all_filed(blocks, caches.drop_last()), caches.last())
    }
}

/// The hash of the block that a header announces.
pub open spec fn header_hash(header: BlockHeader) -> Seq<char> {
    header.block_identifier.hash@
}

/// Whether some header announces the block with the given hash.
pub open spec fn announced(headers: Seq<BlockHeader>, hash: Seq<char>) -> bool {
    exists|i: int| 0 <= i < headers.len() && header_hash(#[trigger] headers[i]) == hash
}

/// The headers whose blocks are in the cache.
pub open spec fn known_headers(blocks: BlockMap, headers: Seq<BlockHeader>) -> Seq<BlockHeader> {
    headers.filter(|header: BlockHeader| blocks.contains_key(header_hash(header)))
}

/// The cached blocks that the headers announce, in the order of the headers.
pub open spec fn looked_up(blocks: BlockMap, headers: Seq<BlockHeader>) -> Seq<BitcoinBlockData> {
    known_headers(blocks, headers).map_values(
        |header: BlockHeader| blocks[header_hash(header)].block,
    )
}

/// The identifiers in the headers whose blocks are in the cache.
pub open spec fn known_identifiers(blocks: BlockMap, headers: Seq<BlockHeader>) -> Seq<
    BlockIdentifier,
> {
    known_headers(blocks, headers).map_values(|header: BlockHeader| header.block_identifier)
}

/// The cache without the blocks that the headers announce.
pub open spec fn left_behind(blocks: BlockMap, headers: Seq<BlockHeader>) -> BlockMap {
    Map::new(
        |hash: Seq<char>| blocks.contains_key(hash) && !announced(headers, hash),
        |hash: Seq<char>| blocks[hash],
    )
}

/// The blocks that leave the cache as the headers are gone through: a block
/// leaves at the first header that announces it.
pub open spec fn taken(blocks: BlockMap, headers: Seq<BlockHeader>) -> Seq<BitcoinBlockDataCached>
    decreases headers.len(),
{
    if headers.len() == 0 {
        Seq::empty()
    } else {
        let before = taken(blocks, headers.drop_last());
        let hash = header_hash(headers.last());
        if left_behind(blocks, headers.drop_last()).contains_key(hash) {
            before.push(blocks[hash])
        } else {
            before
        }
    }
}

/// The blocks of some cache entries.
pub open spec fn blocks_of(caches: Seq<BitcoinBlockDataCached>) -> Seq<BitcoinBlockData> {
    caches.map_values(|cache: BitcoinBlockDataCached| cache.block)
}

/// The greatest height among the headers, or zero.
pub open spec fn highest_header(headers: Seq<BlockHeader>) -> u64
    decreases headers.len(),
{
    if headers.len() == 0 {
        0
    } else {
        let below = highest_header(headers.drop_last());
        let index = headers.last().block_identifier.index;
        if index > below {
            index
        } else {
            below
        }
    }
}

/// The cache of Bitcoin blocks.
pub struct BitcoinBlockStore {
    blocks: StringHashMap<BitcoinBlockDataCached>,
}

impl View for BitcoinBlockStore {
    type V = BlockMap;

    closed spec fn view(&self) -> BlockMap {
        self.blocks@
    }
}

impl BitcoinBlockStore {
    /// An empty cache.
    pub fn new() -> (store: BitcoinBlockStore)
        ensures
            store@ == BlockMap::empty(),
    {
        BitcoinBlockStore { blocks: StringHashMap::new() }
    }

    /// Files a block, which displaces one of the same hash.
    pub fn insert(&mut self, cache: BitcoinBlockDataCached)
        ensures
            final(self)@ == filed(old(self)@, cache),
    {
        let hash = cache.block.block_identifier.hash.clone();
        self.blocks.insert(hash, cache);
    }

    /// The block that an identifier names.
    pub fn get(&self, identifier: &BlockIdentifier) -> (cache: Option<&BitcoinBlockDataCached>)
        ensures
            match cache {
                Some(cache) => self@.contains_key(identifier.hash@) && *cache
                    == self@[identifier.hash@],
                None => !self@.contains_key(identifier.hash@),
            },
    {
        self.blocks.get(identifier.hash.as_str())
    }

    /// Takes the block that an identifier names out of the cache.
    pub fn remove(&mut self, identifier: &BlockIdentifier) -> (cache: Option<
        BitcoinBlockDataCached,
    >)
        ensures
            final(self)@ == old(self)@.remove(identifier.hash@),
            match cache {
                Some(cache) => old(self)@.contains_key(identifier.hash@) && cache == old(
                    self,
                )@[identifier.hash@],
                None => !old(self)@.contains_key(identifier.hash@),
            },
    {
        let cache = match self.blocks.get(identifier.hash.as_str()) {
            Some(cache) => Some(cache.clone()),
            None => None,
        };
        self.blocks.remove(identifier.hash.as_str());
        cache
    }

    /// Looks up the blocks that some headers announce.
    fn look_up(&self, headers: &Vec<BlockHeader>) -> (blocks: Vec<BitcoinBlockData>)
        ensures
            blocks@ == looked_up(self@, headers@),
    {
        let mut blocks: Vec<BitcoinBlockData> = Vec::new();
        proof {
            reveal(Seq::filter);
            assert(looked_up(self@, headers@.take(0)) =~= Seq::empty());
        }
        for i in 0..headers.len()
            invariant
                blocks@ == looked_up(self@, headers@.take(i as int)),
        {
            proof {
                known_headers_step(self@, headers@, i as int);
            }
            if let Some(cache) = self.get(&headers[i].block_identifier) {
                blocks.push(cache.block.clone());
            }
            assert(blocks@ =~= looked_up(self@, headers@.take(i + 1)));
        }
        assert(headers@.take(headers@.len() as int) =~= headers@);
        blocks
    }

    /// Collects the identifiers in the headers whose blocks are in the cache.
    fn identify(&self, headers: &Vec<BlockHeader>) -> (identifiers: Vec<BlockIdentifier>)
        ensures
            identifiers@ == known_identifiers(self@, headers@),
    {
        let mut identifiers: Vec<BlockIdentifier> = Vec::new();
        proof {
            reveal(Seq::filter);
            assert(known_identifiers(self@, headers@.take(0)) =~= Seq::empty());
        }
        for i in 0..headers.len()
            invariant
                identifiers@ == known_identifiers(self@, headers@.take(i as int)),
        {
            proof {
                known_headers_step(self@, headers@, i as int);
            }
            if self.get(&headers[i].block_identifier).is_some() {
                identifiers.push(headers[i].block_identifier.clone());
            }
            assert(identifiers@ =~= known_identifiers(self@, headers@.take(i + 1)));
        }
        assert(headers@.take(headers@.len() as int) =~= headers@);
        identifiers
    }

    /// Takes the blocks that some headers announce out of the cache.
    fn take_out(&mut self, headers: &Vec<BlockHeader>) -> (caches: Vec<BitcoinBlockDataCached>)
        ensures
            final(self)@ == left_behind(old(self)@, headers@),
            caches@ == taken(old(self)@, headers@),
    {
        let mut caches: Vec<BitcoinBlockDataCached> = Vec::new();
        assert(self@ =~= left_behind(old(self)@, headers@.take(0)));
        for i in 0..headers.len()
            invariant
                self@ == left_behind(old(self)@, headers@.take(i as int)),
                caches@ == taken(old(self)@, headers@.take(i as int)),
        {
            let ghost before = self@;
            if let Some(cache) = self.remove(&headers[i].block_identifier) {
                caches.push(cache);
            }
            proof {
                let shorter = headers@.take(i as int);
                let longer = headers@.take(i + 1);
                let hash = header_hash(headers@[i as int]);
                assert(longer.drop_last() =~= shorter);
                assert forall|h: Seq<char>| announced(longer, h) <==> announced(shorter, h) || h
                    == hash by {
                    if announced(shorter, h) {
                        let j = choose|j: int|
                            0 <= j < shorter.len() && header_hash(#[trigger] shorter[j]) == h;
                        assert(header_hash(longer[j]) == h);
                    }
                    if h == hash {
                        assert(header_hash(longer[i as int]) == h);
                    }
                    if announced(longer, h) {
                        let j = choose|j: int|
                            0 <= j < longer.len() && header_hash(#[trigger] longer[j]) == h;
                        if j < i {
                            assert(header_hash(shorter[j]) == h);
                        }
                    }
                }
                assert(self@ =~= left_behind(old(self)@, longer));
            }
        }
        assert(headers@.take(headers@.len() as int) =~= headers@);
        caches
    }
}

/// One more header adds its own to the known headers, if its block is known.
proof fn known_headers_step(blocks: BlockMap, headers: Seq<BlockHeader>, i: int)
    requires
        0 <= i < headers.len(),
    ensures
        known_headers(blocks, headers.take(i + 1)) == if blocks.contains_key(
            header_hash(headers[i]),
        ) {
            known_headers(blocks, headers.take(i)).push(headers[i])
        } else {
            known_headers(blocks, headers.take(i))
        },
{
    reveal(Seq::filter);
    assert(headers.take(i + 1).drop_last() =~= headers.take(i));
}

/// A Bitcoin chain event under construction: its headers are resolved, and a
/// sidecar may still rework the blocks that the chain gains.
#[derive(Debug)]
pub struct PendingChainEvent {
    /// The blocks that the chain gains.
    pub blocks_to_apply: Vec<BitcoinBlockData>,
    /// The blocks that the chain loses, where it switches to another branch.
    pub blocks_to_rollback: Option<Vec<BitcoinBlockData>>,
    pub confirmed_headers: Vec<BlockHeader>,
    /// The height of the chain's new tip.
    pub new_tip: u64,
}

/// What a `PendingChainEvent` holds.
pub struct PendingChainEventView {
    pub blocks_to_apply: Seq<BitcoinBlockData>,
    pub blocks_to_rollback: Option<Seq<BitcoinBlockData>>,
    pub confirmed_headers: Seq<BlockHeader>,
    pub new_tip: u64,
}

impl View for PendingChainEvent {
    type V = PendingChainEventView;

    open spec fn view(&self) -> PendingChainEventView {
        PendingChainEventView {
            blocks_to_apply: self.blocks_to_apply@,
            blocks_to_rollback: match self.blocks_to_rollback {
                Some(blocks) => Some(blocks@),
                None => None,
            },
            confirmed_headers: self.confirmed_headers@,
            new_tip: self.new_tip,
        }
    }
}

/// What comes of a chain event once its headers are resolved.
#[derive(Debug)]
pub struct Resolution {
    pub pending: PendingChainEvent,
    /// The blocks taken out of the cache for the sidecar to rework.
    pub blocks_to_mutate: Vec<BitcoinBlockDataCached>,
    pub blocks_ids_to_rollback: Vec<BlockIdentifier>,
}

/// What a `Resolution` holds.
pub struct ResolutionView {
    pub pending: PendingChainEventView,
    pub blocks_to_mutate: Seq<BitcoinBlockDataCached>,
    pub blocks_ids_to_rollback: Seq<BlockIdentifier>,
}

impl View for Resolution {
    type V = ResolutionView;

    open spec fn view(&self) -> ResolutionView {
        ResolutionView {
            pending: self.pending@,
            blocks_to_mutate: self.blocks_to_mutate@,
            blocks_ids_to_rollback: self.blocks_ids_to_rollback@,
        }
    }
}

/// The headers of the blocks that the chain gains.
pub open spec fn gained_headers(event: BlockchainEvent) -> Seq<BlockHeader> {
    match event {
        BlockchainEvent::BlockchainUpdatedWithHeaders(data) => data.new_headers@,
        BlockchainEvent::BlockchainUpdatedWithReorg(data) => data.headers_to_apply@,
    }
}

/// The headers of the blocks that the chain confirms.
pub open spec fn confirmed_headers(event: BlockchainEvent) -> Seq<BlockHeader> {
    match event {
        BlockchainEvent::BlockchainUpdatedWithHeaders(data) => data.confirmed_headers@,
        BlockchainEvent::BlockchainUpdatedWithReorg(data) => data.confirmed_headers@,
    }
}

/// The cache once a chain event's headers are resolved: where the blocks are to
/// be reworked, those that the chain gains have left it.
pub open spec fn cache_after_resolution(
    blocks: BlockMap,
    event: BlockchainEvent,
    store_update_required: bool,
) -> BlockMap {
    if store_update_required {
        left_behind(blocks, gained_headers(event))
    } else {
        blocks
    }
}

/// What comes of a chain event once its headers are resolved. The blocks that
/// the chain loses are looked up after those that it gains have left the cache.
pub open spec fn resolution(
    blocks: BlockMap,
    event: BlockchainEvent,
    store_update_required: bool,
) -> ResolutionView {
    let gained = gained_headers(event);
    let after = cache_after_resolution(blocks, event, store_update_required);
    ResolutionView {
        pending: PendingChainEventView {
            blocks_to_apply: if store_update_required {
                Seq::empty()
            } else {
                looked_up(blocks, gained)
            },
            blocks_to_rollback: match event {
                BlockchainEvent::BlockchainUpdatedWithHeaders(_) => None,
                BlockchainEvent::BlockchainUpdatedWithReorg(data) => Some(
                    looked_up(after, data.headers_to_rollback@),
                ),
            },
            confirmed_headers: confirmed_headers(event),
            new_tip: highest_header(gained),
        },
        blocks_to_mutate: if store_update_required {
            taken(blocks, gained)
        } else {
            Seq::empty()
        },
        blocks_ids_to_rollback: match event {
            BlockchainEvent::BlockchainUpdatedWithHeaders(_) => Seq::empty(),
            BlockchainEvent::BlockchainUpdatedWithReorg(data) => known_identifiers(
                after,
                data.headers_to_rollback@,
            ),
        },
    }
}

/// The cache once a chain event is complete: the reworked blocks are back in
/// it, and the confirmed blocks have left it.
pub open spec fn cache_after_completion(
    blocks: BlockMap,
    pending: PendingChainEventView,
    updated_blocks: Seq<BitcoinBlockDataCached>,
) -> BlockMap {
    left_behind(all_filed(blocks, updated_blocks), pending.confirmed_headers)
}

/// The complete chain event.
pub open spec fn completion(
    blocks: BlockMap,
    pending: PendingChainEventView,
    updated_blocks: Seq<BitcoinBlockDataCached>,
) -> BitcoinChainEventView {
    let gained = pending.blocks_to_apply + blocks_of(updated_blocks);
    let confirmed_blocks = blocks_of(
        taken(all_filed(blocks, updated_blocks), pending.confirmed_headers),
    );
    match pending.blocks_to_rollback {
        None => BitcoinChainEventView::ChainUpdatedWithBlocks {
            new_blocks: gained,
            confirmed_blocks,
        },
        Some(blocks_to_rollback) => BitcoinChainEventView::ChainUpdatedWithReorg {
            blocks_to_rollback,
            blocks_to_apply: gained,
            confirmed_blocks,
        },
    }
}

/// The greatest height among the headers, or zero.
fn highest_index(headers: &Vec<BlockHeader>) -> (new_tip: u64)
    ensures
        new_tip == highest_header(headers@),
{
    let mut new_tip: u64 = 0;
    for i in 0..headers.len()
        invariant
            new_tip == highest_header(headers@.take(i as int)),
    {
        if headers[i].block_identifier.index > new_tip {
            new_tip = headers[i].block_identifier.index;
        }
        assert(headers@.take(i + 1).drop_last() =~= headers@.take(i as int));
    }
    assert(headers@.take(headers@.len() as int) =~= headers@);
    new_tip
}

/// Takes the blocks out of cache entries.
fn into_blocks(caches: Vec<BitcoinBlockDataCached>) -> (blocks: Vec<BitcoinBlockData>)
    ensures
        blocks@ == blocks_of(caches@),
{
    let mut blocks: Vec<BitcoinBlockData> = Vec::new();
    for cache in iter: caches.into_iter()
        invariant
            iter.seq() == caches@,
            blocks@ == blocks_of(iter.seq().take(iter.index())),
    {
        blocks.push(cache.block);
        assert(blocks@ =~= blocks_of(iter.seq().take(iter.index() + 1)));
    }
    assert(caches@.take(caches@.len() as int) =~= caches@);
    blocks
}

impl BitcoinBlockStore {
    /// Resolves the headers of a chain event.
    pub fn resolve(&mut self, event: BlockchainEvent, store_update_required: bool) -> (resolved:
        Resolution)
        ensures
            final(self)@ == cache_after_resolution(old(self)@, event, store_update_required),
            resolved@ == resolution(old(self)@, event, store_update_required),
    {
        let (gained, lost, confirmed_headers) = match event {
            BlockchainEvent::BlockchainUpdatedWithHeaders(data) => {
                (data.new_headers, None, data.confirmed_headers)
            },
            BlockchainEvent::BlockchainUpdatedWithReorg(data) => {
                (data.headers_to_apply, Some(data.headers_to_rollback), data.confirmed_headers)
            },
        };
        let new_tip = highest_index(&gained);
        let (blocks_to_apply, blocks_to_mutate) = if store_update_required {
            (Vec::new(), self.take_out(&gained))
        } else {
            (self.look_up(&gained), Vec::new())
        };
        let (blocks_to_rollback, blocks_ids_to_rollback) = match &lost {
            Some(headers) => (Some(self.look_up(headers)), self.identify(headers)),
            None => (None, Vec::new()),
        };
        Resolution {
            pending: PendingChainEvent {
                blocks_to_apply,
                blocks_to_rollback,
                confirmed_headers,
                new_tip,
            },
            blocks_to_mutate,
            blocks_ids_to_rollback,
        }
    }

    /// Completes a chain event with the blocks that the sidecar reworked.
    pub fn complete(
        &mut self,
        pending: PendingChainEvent,
        updated_blocks: Vec<BitcoinBlockDataCached>,
    ) -> (event: BitcoinChainEvent)
        ensures
            final(self)@ == cache_after_completion(old(self)@, pending@, updated_blocks@),
            event@ == completion(old(self)@, pending@, updated_blocks@),
    {
        for i in 0..updated_blocks.len()
            invariant
                self@ == all_filed(old(self)@, updated_blocks@.take(i as int)),
        {
            self.insert(updated_blocks[i].clone());
            assert(updated_blocks@.take(i + 1).drop_last() =~= updated_blocks@.take(i as int));
        }
        assert(updated_blocks@.take(updated_blocks@.len() as int) =~= updated_blocks@);
        let mut gained = pending.blocks_to_apply;
        let mut reworked = into_blocks(updated_blocks);
        gained.append(&mut reworked);
        let confirmed = self.take_out(&pending.confirmed_headers);
        let confirmed_blocks = into_blocks(confirmed);
        match pending.blocks_to_rollback {
            None => BitcoinChainEvent::ChainUpdatedWithBlocks(
                BitcoinChainUpdatedWithBlocksData { new_blocks: gained, confirmed_blocks },
            ),
            Some(blocks_to_rollback) => BitcoinChainEvent::ChainUpdatedWithReorg(
                BitcoinChainUpdatedWithReorgData {
                    blocks_to_rollback,
                    blocks_to_apply: gained,
                    confirmed_blocks,
                },
            ),
        }
    }
}

} // verus!
