//! Laws on the cache of Bitcoin blocks and on the chain events that come of it.

use vstd::prelude::*;

use crate::blocks::{
    all_filed, announced, blocks_of, cache_after_completion, cache_after_resolution, completion,
    filed, gained_headers, header_hash, highest_header, known_headers, left_behind, looked_up,
    resolution, taken, unprocessed, well_filed, BitcoinBlockDataCached, BlockMap,
    PendingChainEventView,
};
use crate::chain::{BitcoinBlockData, BlockHeader, BlockchainEvent};
use crate::laws::filter_keeps_what_passes;
use crate::metrics::highest_block;

verus! {

/// The blocks that are looked up are the cached blocks of the headers.
pub proof fn looked_up_blocks_are_cached(
    blocks: BlockMap,
    headers: Seq<BlockHeader>,
    block: BitcoinBlockData,
)
    ensures
        looked_up(blocks, headers).contains(block) <==> exists|i: int|
            0 <= i < headers.len() && blocks.contains_key(header_hash(#[trigger] headers[i]))
                && blocks[header_hash(headers[i])].block == block,
{
    let known = known_headers(blocks, headers);
    let found = looked_up(blocks, headers);
    let test = |header: BlockHeader| blocks.contains_key(header_hash(header));
    if found.contains(block) {
        let k = choose|k: int| 0 <= k < found.len() && found[k] == block;
        filter_keeps_what_passes(headers, test, known[k]);
        assert(known.contains(known[k]));
        let i = choose|i: int| 0 <= i < headers.len() && headers[i] == known[k];
        assert(test(headers[i]));
    }
    if exists|i: int|
        0 <= i < headers.len() && blocks.contains_key(header_hash(#[trigger] headers[i]))
            && blocks[header_hash(headers[i])].block == block {
        let i = choose|i: int|
            0 <= i < headers.len() && blocks.contains_key(header_hash(#[trigger] headers[i]))
                && blocks[header_hash(headers[i])].block == block;
        filter_keeps_what_passes(headers, test, headers[i]);
        assert(headers.contains(headers[i]));
        let k = choose|k: int| 0 <= k < known.len() && known[k] == headers[i];
        assert(found[k] == block);
    }
}

/// A block that leaves the cache is one that a header announces, and every such
/// block leaves it.
pub proof fn taken_blocks_were_cached(
    blocks: BlockMap,
    headers: Seq<BlockHeader>,
    cache: BitcoinBlockDataCached,
)
    ensures
        taken(blocks, headers).contains(cache) <==> exists|i: int|
            0 <= i < headers.len() && blocks.contains_key(header_hash(#[trigger] headers[i]))
                && blocks[header_hash(headers[i])] == cache,
    decreases headers.len(),
{
    if headers.len() > 0 {
        let shorter = headers.drop_last();
        let before = taken(blocks, shorter);
        let hash = header_hash(headers.last());
        taken_blocks_were_cached(blocks, shorter, cache);
        assert(headers.last() == headers[headers.len() - 1]);
        if before.contains(cache) {
            let k = choose|k: int| 0 <= k < before.len() && before[k] == cache;
            assert(taken(blocks, headers)[k] == cache);
            let i = choose|i: int|
                0 <= i < shorter.len() && blocks.contains_key(header_hash(#[trigger] shorter[i]))
                    && blocks[header_hash(shorter[i])] == cache;
            assert(headers[i] == shorter[i]);
        }
        if left_behind(blocks, shorter).contains_key(hash) {
            assert(taken(blocks, headers)[before.len() as int] == blocks[hash]);
        } else if blocks.contains_key(hash) {
            let j = choose|j: int|
                0 <= j < shorter.len() && header_hash(#[trigger] shorter[j]) == hash;
            assert(header_hash(shorter[j]) == hash);
        }
        if exists|i: int|
            0 <= i < headers.len() && blocks.contains_key(header_hash(#[trigger] headers[i]))
                && blocks[header_hash(headers[i])] == cache {
            let i = choose|i: int|
                0 <= i < headers.len() && blocks.contains_key(header_hash(#[trigger] headers[i]))
                    && blocks[header_hash(headers[i])] == cache;
            if i < shorter.len() {
                assert(shorter[i] == headers[i]);
            }
        }
    }
}

/// A block that was cached is in the chain event that announces its header. A
/// sidecar that reworks blocks is handed it.
pub proof fn cached_block_is_propagated(
    blocks: BlockMap,
    block: BitcoinBlockData,
    event: BlockchainEvent,
)
    requires
        announced(gained_headers(event), block.block_identifier.hash@),
    ensures
        ({
            let cache = filed(blocks, unprocessed(block));
            &&& resolution(cache, event, false).pending.blocks_to_apply.contains(block)
            &&& resolution(cache, event, true).blocks_to_mutate.contains(unprocessed(block))
        }),
{
    let cache = filed(blocks, unprocessed(block));
    let headers = gained_headers(event);
    let i = choose|i: int|
        0 <= i < headers.len() && header_hash(#[trigger] headers[i])
            == block.block_identifier.hash@;
    assert(cache.contains_key(header_hash(headers[i])));
    looked_up_blocks_are_cached(cache, headers, block);
    taken_blocks_were_cached(cache, headers, unprocessed(block));
}

/// A confirmed block is in the chain event that confirms it, and leaves the
/// cache with it. The other blocks stay.
pub proof fn confirmed_block_leaves_the_cache(
    blocks: BlockMap,
    pending: PendingChainEventView,
    updated_blocks: Seq<BitcoinBlockDataCached>,
    hash: Seq<char>,
)
    requires
        all_filed(blocks, updated_blocks).contains_key(hash),
    ensures
        ({
            let before = all_filed(blocks, updated_blocks);
            let after = cache_after_completion(blocks, pending, updated_blocks);
            if announced(pending.confirmed_headers, hash) {
                &&& !after.contains_key(hash)
                &&& blocks_of(taken(before, pending.confirmed_headers)).contains(before[hash].block)
            } else {
                after.contains_key(hash) && after[hash] == before[hash]
            }
        }),
{
    let before = all_filed(blocks, updated_blocks);
    let headers = pending.confirmed_headers;
    if announced(headers, hash) {
        let i = choose|i: int| 0 <= i < headers.len() && header_hash(#[trigger] headers[i]) == hash;
        assert(before.contains_key(header_hash(headers[i])));
        taken_blocks_were_cached(before, headers, before[hash]);
        let gone = taken(before, headers);
        let k = choose|k: int| 0 <= k < gone.len() && gone[k] == before[hash];
        assert(blocks_of(gone)[k] == before[hash].block);
    }
}

/// No block is confirmed twice: the headers of confirmed blocks are unknown from
/// then on.
pub proof fn confirmed_headers_are_forgotten(
    blocks: BlockMap,
    pending: PendingChainEventView,
    updated_blocks: Seq<BitcoinBlockDataCached>,
)
    ensures
        looked_up(
            cache_after_completion(blocks, pending, updated_blocks),
            pending.confirmed_headers,
        ).len() == 0,
{
    let after = cache_after_completion(blocks, pending, updated_blocks);
    let headers = pending.confirmed_headers;
    let found = looked_up(after, headers);
    if found.len() > 0 {
        looked_up_blocks_are_cached(after, headers, found[0]);
        assert(found.contains(found[0]));
        let i = choose|i: int|
            0 <= i < headers.len() && after.contains_key(header_hash(#[trigger] headers[i]))
                && after[header_hash(headers[i])].block == found[0];
        assert(announced(headers, header_hash(headers[i])));
    }
}

/// Blocks that are filed under their own hashes stay so.
pub proof fn filing_keeps_blocks_well_filed(
    blocks: BlockMap,
    updated_blocks: Seq<BitcoinBlockDataCached>,
    headers: Seq<BlockHeader>,
)
    requires
        well_filed(blocks),
    ensures
        well_filed(all_filed(blocks, updated_blocks)),
        well_filed(left_behind(all_filed(blocks, updated_blocks), headers)),
    decreases updated_blocks.len(),
{
    if updated_blocks.len() > 0 {
        filing_keeps_blocks_well_filed(blocks, updated_blocks.drop_last(), headers);
    }
    let filed_blocks = all_filed(blocks, updated_blocks);
    assert forall|hash: Seq<char>| #[trigger]
        left_behind(filed_blocks, headers).contains_key(hash) implies left_behind(
        filed_blocks,
        headers,
    )[hash].block.block_identifier.hash@ == hash by {
        assert(filed_blocks.contains_key(hash));
    }
}

/// The new tip is as high as every header, and some header is as high as it,
/// unless there is none.
pub proof fn new_tip_is_the_greatest_height(headers: Seq<BlockHeader>)
    ensures
        forall|i: int|
            0 <= i < headers.len() ==> (#[trigger] headers[i]).block_identifier.index
                <= highest_header(headers),
        headers.len() > 0 ==> exists|i: int|
            0 <= i < headers.len() && (#[trigger] headers[i]).block_identifier.index
                == highest_header(headers),
        headers.len() == 0 ==> highest_header(headers) == 0,
    decreases headers.len(),
{
    if headers.len() > 0 {
        let shorter = headers.drop_last();
        new_tip_is_the_greatest_height(shorter);
        assert forall|i: int| 0 <= i < headers.len() implies (
        #[trigger] headers[i]).block_identifier.index <= highest_header(headers) by {
            if i < shorter.len() {
                assert(shorter[i] == headers[i]);
            }
        }
        if shorter.len() > 0 {
            let i = choose|i: int|
                0 <= i < shorter.len() && (#[trigger] shorter[i]).block_identifier.index
                    == highest_header(shorter);
            assert(headers[i] == shorter[i]);
        }
        assert(headers.last() == headers[headers.len() - 1]);
    }
}

/// The block whose time dates a reorganisation is the last among the highest.
pub proof fn highest_block_is_the_last_of_the_highest(blocks: Seq<BitcoinBlockData>)
    ensures
        highest_block(blocks) is None <==> blocks.len() == 0,
        blocks.len() > 0 ==> exists|i: int|
            {
                &&& 0 <= i < blocks.len()
                &&& highest_block(blocks) == Some(#[trigger] blocks[i])
                &&& forall|j: int|
                    0 <= j < blocks.len() ==> (#[trigger] blocks[j]).block_identifier.index
                        <= blocks[i].block_identifier.index
                &&& forall|j: int|
                    i < j < blocks.len() ==> (#[trigger] blocks[j]).block_identifier.index
                        < blocks[i].block_identifier.index
            },
    decreases blocks.len(),
{
    if blocks.len() > 0 {
        let shorter = blocks.drop_last();
        highest_block_is_the_last_of_the_highest(shorter);
        let last = blocks.len() - 1;
        assert(blocks.last() == blocks[last]);
        if shorter.len() > 0 {
            let i = choose|i: int|
                {
                    &&& 0 <= i < shorter.len()
                    &&& highest_block(shorter) == Some(#[trigger] shorter[i])
                    &&& forall|j: int|
                        0 <= j < shorter.len() ==> (#[trigger] shorter[j]).block_identifier.index
                            <= shorter[i].block_identifier.index
                    &&& forall|j: int|
                        i < j < shorter.len() ==> (#[trigger] shorter[j]).block_identifier.index
                            < shorter[i].block_identifier.index
                };
            assert(blocks[i] == shorter[i]);
            assert forall|j: int| 0 <= j < last implies (
            #[trigger] blocks[j]).block_identifier.index <= shorter[i].block_identifier.index by {
                assert(blocks[j] == shorter[j]);
            }
            assert forall|j: int| i < j < last implies (
            #[trigger] blocks[j]).block_identifier.index < shorter[i].block_identifier.index by {
                assert(blocks[j] == shorter[j]);
            }
            if shorter[i].block_identifier.index > blocks.last().block_identifier.index {
                assert(highest_block(blocks) == Some(blocks[i]));
            } else {
                assert(highest_block(blocks) == Some(blocks[last]));
            }
        } else {
            assert(highest_block(blocks) == Some(blocks[last]));
        }
    }
}

/// No two headers announce the same cached block.
pub open spec fn hashes_distinct(blocks: BlockMap, headers: Seq<BlockHeader>) -> bool {
    forall|i: int, j: int|
        0 <= i < j < headers.len() && blocks.contains_key(header_hash(headers[i])) ==> header_hash(
            #[trigger] headers[i],
        ) != header_hash(#[trigger] headers[j])
}

/// No header announces a cached block that one of the others does.
pub open spec fn hashes_disjoint(
    blocks: BlockMap,
    headers: Seq<BlockHeader>,
    others: Seq<BlockHeader>,
) -> bool {
    forall|i: int|
        0 <= i < headers.len() && blocks.contains_key(header_hash(#[trigger] headers[i]))
            ==> !announced(others, header_hash(headers[i]))
}

/// Headers are looked up one after the other.
proof fn lookup_goes_header_by_header(blocks: BlockMap, headers: Seq<BlockHeader>)
    requires
        headers.len() > 0,
    ensures
        looked_up(blocks, headers) == if blocks.contains_key(header_hash(headers.last())) {
            looked_up(blocks, headers.drop_last()).push(
                blocks[header_hash(headers.last())].block,
            )
        } else {
            looked_up(blocks, headers.drop_last())
        },
{
    reveal(Seq::filter);
    let known = known_headers(blocks, headers);
    let before = known_headers(blocks, headers.drop_last());
    if blocks.contains_key(header_hash(headers.last())) {
        assert(known == before.push(headers.last()));
        assert(looked_up(blocks, headers) =~= looked_up(blocks, headers.drop_last()).push(
            blocks[header_hash(headers.last())].block,
        ));
    } else {
        assert(known == before);
    }
}

/// Where no cached block is announced twice, the blocks that leave the cache are those that
/// would be looked up.
proof fn taken_is_looked_up(blocks: BlockMap, headers: Seq<BlockHeader>)
    requires
        hashes_distinct(blocks, headers),
    ensures
        blocks_of(taken(blocks, headers)) == looked_up(blocks, headers),
    decreases headers.len(),
{
    if headers.len() > 0 {
        let shorter = headers.drop_last();
        let hash = header_hash(headers.last());
        assert forall|i: int, j: int|
            0 <= i < j < shorter.len() && blocks.contains_key(
                header_hash(shorter[i]),
            ) implies header_hash(#[trigger] shorter[i]) != header_hash(
            #[trigger] shorter[j],
        ) by {
            assert(shorter[i] == headers[i] && shorter[j] == headers[j]);
        }
        taken_is_looked_up(blocks, shorter);
        if announced(shorter, hash) {
            let i = choose|i: int|
                0 <= i < shorter.len() && header_hash(#[trigger] shorter[i]) == hash;
            assert(headers[i] == shorter[i]);
            assert(headers[headers.len() - 1] == headers.last());
        }
        lookup_goes_header_by_header(blocks, headers);
    } else {
        reveal(Seq::filter);
    }
    assert(blocks_of(taken(blocks, headers)) =~= looked_up(blocks, headers));
}

/// Which block a hash had makes no difference once another is filed under it.
proof fn filing_hides_removal(
    blocks: BlockMap,
    caches: Seq<BitcoinBlockDataCached>,
    hash: Seq<char>,
    cache: BitcoinBlockDataCached,
)
    ensures
        all_filed(blocks.remove(hash), caches).insert(hash, cache) == all_filed(
            blocks,
            caches,
        ).insert(hash, cache),
    decreases caches.len(),
{
    let left = all_filed(blocks.remove(hash), caches).insert(hash, cache);
    let right = all_filed(blocks, caches).insert(hash, cache);
    if caches.len() > 0 {
        filing_hides_removal(blocks, caches.drop_last(), hash, cache);
        let shorter_left = all_filed(blocks.remove(hash), caches.drop_last());
        let shorter_right = all_filed(blocks, caches.drop_last());
        assert forall|other: Seq<char>| other != hash implies shorter_left.contains_key(other)
            == shorter_right.contains_key(other) && (#[trigger] shorter_left.contains_key(other)
            ==> shorter_left[other] == shorter_right[other]) by {
            assert(shorter_left.insert(hash, cache).contains_key(other)
                == shorter_right.insert(hash, cache).contains_key(other));
            assert(shorter_left.insert(hash, cache)[other] == shorter_right.insert(
                hash,
                cache,
            )[other]);
        }
    }
    assert(left =~= right);
}

/// To file the blocks again that left the cache leads back to the cache as it
/// was.
proof fn refiling_restores_the_cache(blocks: BlockMap, headers: Seq<BlockHeader>)
    requires
        well_filed(blocks),
    ensures
        all_filed(left_behind(blocks, headers), taken(blocks, headers)) == blocks,
    decreases headers.len(),
{
    if headers.len() > 0 {
        let shorter = headers.drop_last();
        let hash = header_hash(headers.last());
        let before = left_behind(blocks, shorter);
        refiling_restores_the_cache(blocks, shorter);
        assert forall|other: Seq<char>| announced(headers, other) == (announced(shorter, other)
            || other == hash) by {
            if announced(shorter, other) {
                let i = choose|i: int|
                    0 <= i < shorter.len() && header_hash(#[trigger] shorter[i]) == other;
                assert(headers[i] == shorter[i]);
            }
            if announced(headers, other) {
                let i = choose|i: int|
                    0 <= i < headers.len() && header_hash(#[trigger] headers[i]) == other;
                if i < shorter.len() {
                    assert(shorter[i] == headers[i]);
                }
            }
            assert(headers[headers.len() - 1] == headers.last());
        }
        assert(left_behind(blocks, headers) =~= before.remove(hash));
        if before.contains_key(hash) {
            let gone = taken(blocks, shorter);
            assert(taken(blocks, headers).drop_last() =~= gone);
            filing_hides_removal(before, gone, hash, blocks[hash]);
            assert(blocks.insert(hash, blocks[hash]) =~= blocks);
        } else {
            assert(before.remove(hash) =~= before);
        }
    } else {
        assert(left_behind(blocks, headers) =~= blocks);
    }
}

/// To look headers up is not affected by the absence of blocks that none of them
/// announces.
proof fn lookup_ignores_other_blocks(
    blocks: BlockMap,
    headers: Seq<BlockHeader>,
    others: Seq<BlockHeader>,
)
    requires
        hashes_disjoint(blocks, headers, others),
    ensures
        looked_up(left_behind(blocks, others), headers) == looked_up(blocks, headers),
    decreases headers.len(),
{
    if headers.len() > 0 {
        let shorter = headers.drop_last();
        assert forall|i: int|
            0 <= i < shorter.len() && blocks.contains_key(
                header_hash(#[trigger] shorter[i]),
            ) implies !announced(others, header_hash(shorter[i])) by {
            assert(shorter[i] == headers[i]);
        }
        lookup_ignores_other_blocks(blocks, shorter, others);
        assert(headers[headers.len() - 1] == headers.last());
        lookup_goes_header_by_header(blocks, headers);
        lookup_goes_header_by_header(left_behind(blocks, others), headers);
    } else {
        reveal(Seq::filter);
    }
    assert(looked_up(left_behind(blocks, others), headers) =~= looked_up(blocks, headers));
}

/// A sidecar that sends the blocks back as they were, or that sends none back,
/// makes no difference: neither to the chain event nor to the cache. No cached
/// block may be announced twice among those that the chain gains, nor be both
/// gained and lost.
pub proof fn silent_sidecar_makes_no_difference(blocks: BlockMap, event: BlockchainEvent)
    requires
        well_filed(blocks),
        hashes_distinct(blocks, gained_headers(event)),
        event matches BlockchainEvent::BlockchainUpdatedWithReorg(data) ==> hashes_disjoint(
            blocks,
            data.headers_to_rollback@,
            gained_headers(event),
        ),
    ensures
        ({
            let with = resolution(blocks, event, true);
            let without = resolution(blocks, event, false);
            let cache = cache_after_resolution(blocks, event, true);
            &&& completion(cache, with.pending, with.blocks_to_mutate) == completion(
                blocks,
                without.pending,
                without.blocks_to_mutate,
            )
            &&& cache_after_completion(cache, with.pending, with.blocks_to_mutate)
                == cache_after_completion(blocks, without.pending, without.blocks_to_mutate)
        }),
{
    let gained = gained_headers(event);
    let with = resolution(blocks, event, true);
    let without = resolution(blocks, event, false);
    refiling_restores_the_cache(blocks, gained);
    taken_is_looked_up(blocks, gained);
    if let BlockchainEvent::BlockchainUpdatedWithReorg(data) = event {
        lookup_ignores_other_blocks(blocks, data.headers_to_rollback@, gained);
    }
    assert(with.pending.blocks_to_apply + blocks_of(with.blocks_to_mutate) =~= looked_up(
        blocks,
        gained,
    ));
    assert(without.pending.blocks_to_apply + blocks_of(without.blocks_to_mutate) =~= looked_up(
        blocks,
        gained,
    ));
}

} // verus!
