use chainhook_observer::blocks::{BitcoinBlockDataCached, BitcoinBlockStore};
use chainhook_observer::chain::{
    BitcoinBlockData, BitcoinChainEvent, BlockHeader, BlockIdentifier, BlockchainEvent,
    BlockchainUpdatedWithHeaders, BlockchainUpdatedWithReorg,
};

fn identifier(index: u64, hash: &str) -> BlockIdentifier {
    BlockIdentifier { index, hash: hash.to_string() }
}

fn header(index: u64, hash: &str) -> BlockHeader {
    BlockHeader {
        block_identifier: identifier(index, hash),
        parent_block_identifier: identifier(index - 1, "parent"),
    }
}

fn cached(index: u64, hash: &str) -> BitcoinBlockDataCached {
    BitcoinBlockDataCached {
        block: BitcoinBlockData {
            block_identifier: identifier(index, hash),
            timestamp: 100 + index as u32,
            content: format!("block {}", hash),
        },
        processed_by_sidecar: false,
    }
}

fn store(blocks: &[(u64, &str)]) -> BitcoinBlockStore {
    let mut store = BitcoinBlockStore::new();
    for (index, hash) in blocks {
        store.insert(cached(*index, hash));
    }
    store
}

fn headers(new: Vec<BlockHeader>, confirmed: Vec<BlockHeader>) -> BlockchainEvent {
    BlockchainEvent::BlockchainUpdatedWithHeaders(BlockchainUpdatedWithHeaders {
        new_headers: new,
        confirmed_headers: confirmed,
    })
}

fn hashes(blocks: &Vec<BitcoinBlockData>) -> Vec<String> {
    blocks.iter().map(|b| b.block_identifier.hash.clone()).collect()
}

fn updated(event: BitcoinChainEvent) -> (Vec<String>, Vec<String>) {
    match event {
        BitcoinChainEvent::ChainUpdatedWithBlocks(data) => {
            (hashes(&data.new_blocks), hashes(&data.confirmed_blocks))
        }
        BitcoinChainEvent::ChainUpdatedWithReorg(_) => panic!("unexpected reorganisation"),
    }
}

fn reorganised(event: BitcoinChainEvent) -> (Vec<String>, Vec<String>, Vec<String>) {
    match event {
        BitcoinChainEvent::ChainUpdatedWithReorg(data) => (
            hashes(&data.blocks_to_rollback),
            hashes(&data.blocks_to_apply),
            hashes(&data.confirmed_blocks),
        ),
        BitcoinChainEvent::ChainUpdatedWithBlocks(_) => panic!("reorganisation expected"),
    }
}

#[test]
fn cached_block_is_propagated() {
    let mut store = store(&[(5, "0x5")]);
    let event = headers(vec![header(5, "0x5"), header(6, "0x6")], vec![]);
    let resolved = store.resolve(event, false);
    assert_eq!(resolved.pending.new_tip, 6);
    assert!(resolved.blocks_to_mutate.is_empty());
    assert!(resolved.blocks_ids_to_rollback.is_empty());
    let (new, confirmed) = updated(store.complete(resolved.pending, vec![]));
    assert_eq!(new, vec!["0x5"]);
    assert!(confirmed.is_empty());
    assert!(store.get(&identifier(5, "0x5")).is_some());
}

#[test]
fn blocks_are_known_by_their_hashes() {
    let store = store(&[(5, "0x5")]);
    assert!(store.get(&identifier(77, "0x5")).is_some());
    assert!(store.get(&identifier(5, "0x6")).is_none());
}

#[test]
fn block_displaces_one_of_the_same_hash() {
    let mut store = store(&[(5, "0x5"), (6, "0x5")]);
    assert_eq!(store.get(&identifier(5, "0x5")).unwrap().block.block_identifier.index, 6);
    assert_eq!(store.remove(&identifier(5, "0x5")).unwrap().block.block_identifier.index, 6);
    assert!(store.remove(&identifier(5, "0x5")).is_none());
}

#[test]
fn confirmed_block_leaves_the_cache() {
    let mut store = store(&[(1, "0x1"), (2, "0x2"), (8, "0x8")]);
    let event = headers(vec![header(8, "0x8")], vec![header(1, "0x1"), header(1, "0x1")]);
    let resolved = store.resolve(event, false);
    let (new, confirmed) = updated(store.complete(resolved.pending, vec![]));
    assert_eq!(new, vec!["0x8"]);
    assert_eq!(confirmed, vec!["0x1"]);
    assert!(store.get(&identifier(1, "0x1")).is_none());
    assert!(store.get(&identifier(2, "0x2")).is_some());
    assert!(store.get(&identifier(8, "0x8")).is_some());
}

#[test]
fn new_tip_is_the_greatest_height() {
    let mut store = BitcoinBlockStore::new();
    let event = headers(vec![header(3, "0x3"), header(9, "0x9"), header(4, "0x4")], vec![]);
    assert_eq!(store.resolve(event, false).pending.new_tip, 9);
    assert_eq!(store.resolve(headers(vec![], vec![]), false).pending.new_tip, 0);
}

#[test]
fn blocks_leave_the_cache_to_be_reworked() {
    let mut store = store(&[(5, "0x5"), (6, "0x6")]);
    let event = headers(vec![header(5, "0x5"), header(5, "0x5"), header(7, "0x7")], vec![]);
    let resolved = store.resolve(event, true);
    assert_eq!(resolved.blocks_to_mutate, vec![cached(5, "0x5")]);
    assert!(!resolved.blocks_to_mutate[0].processed_by_sidecar);
    assert!(resolved.pending.blocks_to_apply.is_empty());
    assert!(store.get(&identifier(5, "0x5")).is_none());
    let mut reworked = resolved.blocks_to_mutate;
    reworked[0].processed_by_sidecar = true;
    reworked[0].block.content = "reworked".to_string();
    let (new, _) = updated(store.complete(resolved.pending, reworked));
    assert_eq!(new, vec!["0x5"]);
    let back = store.get(&identifier(5, "0x5")).unwrap();
    assert!(back.processed_by_sidecar);
    assert_eq!(back.block.content, "reworked");
}

#[test]
fn silent_sidecar_makes_no_difference() {
    let event = || {
        BlockchainEvent::BlockchainUpdatedWithReorg(BlockchainUpdatedWithReorg {
            headers_to_rollback: vec![header(5, "0x5"), header(4, "0x4")],
            headers_to_apply: vec![header(4, "0x4b"), header(5, "0x5b")],
            confirmed_headers: vec![header(1, "0x1")],
        })
    };
    let blocks = [(1, "0x1"), (4, "0x4"), (5, "0x5"), (4, "0x4b"), (5, "0x5b")];
    let mut with = store(&blocks);
    let resolved = with.resolve(event(), true);
    let unchanged = resolved.blocks_to_mutate;
    let reworked = reorganised(with.complete(resolved.pending, unchanged));
    let mut without = store(&blocks);
    let resolved = without.resolve(event(), false);
    let plain = reorganised(without.complete(resolved.pending, vec![]));
    assert_eq!(reworked, plain);
    for (index, hash) in blocks {
        assert_eq!(with.get(&identifier(index, hash)), without.get(&identifier(index, hash)));
    }
}

#[test]
fn reorganisation_rolls_back_and_applies() {
    let mut store = store(&[(4, "0x4"), (5, "0x5"), (5, "0x5b"), (6, "0x6b")]);
    let event = BlockchainEvent::BlockchainUpdatedWithReorg(BlockchainUpdatedWithReorg {
        headers_to_rollback: vec![header(5, "0x5"), header(3, "0x3")],
        headers_to_apply: vec![header(5, "0x5b"), header(6, "0x6b")],
        confirmed_headers: vec![header(4, "0x4")],
    });
    let resolved = store.resolve(event, false);
    assert_eq!(resolved.pending.new_tip, 6);
    assert_eq!(resolved.blocks_ids_to_rollback.len(), 1);
    assert_eq!(resolved.blocks_ids_to_rollback[0].hash, "0x5");
    let (rollback, apply, confirmed) = reorganised(store.complete(resolved.pending, vec![]));
    assert_eq!(rollback, vec!["0x5"]);
    assert_eq!(apply, vec!["0x5b", "0x6b"]);
    assert_eq!(confirmed, vec!["0x4"]);
    assert!(store.get(&identifier(5, "0x5")).is_some());
}
