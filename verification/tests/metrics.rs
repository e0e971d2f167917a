use chainhook_observer::chain::{
    BitcoinBlockData, BitcoinChainEvent, BitcoinChainUpdatedWithBlocksData,
    BitcoinChainUpdatedWithReorgData, BlockIdentifier, StacksBlockData, StacksBlockUpdate,
    StacksChainEvent, StacksChainUpdatedWithBlocksData, StacksChainUpdatedWithReorgData,
};
use chainhook_observer::metrics::{
    measure_bitcoin_reorg, measure_stacks_reorg, measure_stacks_tip, Reorg,
};
use chainhook_observer::sidecar::{
    notify_chain_event, perform_bitcoin_sidecar_mutations, HandleBlock,
};
use chainhook_observer::text::{compare_text, same_text, wrap_text, TextOrder};

fn identifier(index: u64, hash: &str) -> BlockIdentifier {
    BlockIdentifier { index, hash: hash.to_string() }
}

fn bitcoin_block(index: u64, timestamp: u32) -> BitcoinBlockData {
    BitcoinBlockData {
        block_identifier: identifier(index, &format!("0x{}-{}", index, timestamp)),
        timestamp,
        content: String::new(),
    }
}

fn stacks_update(index: u64, timestamp: i64) -> StacksBlockUpdate {
    StacksBlockUpdate {
        block: StacksBlockData {
            block_identifier: identifier(index, "0x"),
            timestamp,
            content: String::new(),
        },
        content: String::new(),
    }
}

fn bitcoin_reorg(apply: Vec<BitcoinBlockData>, rollback: usize) -> BitcoinChainEvent {
    BitcoinChainEvent::ChainUpdatedWithReorg(BitcoinChainUpdatedWithReorgData {
        blocks_to_rollback: (0..rollback).map(|i| bitcoin_block(i as u64, 0)).collect(),
        blocks_to_apply: apply,
        confirmed_blocks: vec![],
    })
}

#[test]
fn reorganisation_is_dated_by_the_last_of_the_highest_blocks() {
    let event = bitcoin_reorg(
        vec![bitcoin_block(7, 70), bitcoin_block(9, 90), bitcoin_block(9, 91), bitcoin_block(8, 80)],
        2,
    );
    assert_eq!(
        measure_bitcoin_reorg(&event),
        Some(Reorg { timestamp: 91, applied_blocks: 4, rolled_back_blocks: 2 })
    );
}

#[test]
fn only_a_switch_to_blocks_is_measured() {
    assert_eq!(measure_bitcoin_reorg(&bitcoin_reorg(vec![], 2)), None);
    let event = BitcoinChainEvent::ChainUpdatedWithBlocks(BitcoinChainUpdatedWithBlocksData {
        new_blocks: vec![bitcoin_block(1, 1)],
        confirmed_blocks: vec![],
    });
    assert_eq!(measure_bitcoin_reorg(&event), None);
}

#[test]
fn stacks_events_have_a_tip() {
    let update = StacksChainEvent::ChainUpdatedWithBlocks(StacksChainUpdatedWithBlocksData {
        new_blocks: vec![stacks_update(3, 30), stacks_update(5, -50), stacks_update(4, 40)],
        confirmed_blocks: vec![],
    });
    assert_eq!(measure_stacks_tip(&update), 5);
    assert_eq!(measure_stacks_reorg(&update), None);
    let reorg = StacksChainEvent::ChainUpdatedWithReorg(StacksChainUpdatedWithReorgData {
        blocks_to_rollback: vec![stacks_update(9, 90)],
        blocks_to_apply: vec![stacks_update(5, -50), stacks_update(4, 40)],
        confirmed_blocks: vec![],
    });
    assert_eq!(measure_stacks_tip(&reorg), 5);
    assert_eq!(
        measure_stacks_reorg(&reorg),
        Some(Reorg { timestamp: -50, applied_blocks: 2, rolled_back_blocks: 1 })
    );
    let micro = StacksChainEvent::ChainUpdatedWithMicroblocks("content".to_string());
    assert_eq!(measure_stacks_tip(&micro), 0);
    assert_eq!(measure_stacks_reorg(&micro), None);
    let micro_reorg = StacksChainEvent::ChainUpdatedWithMicroblocksReorg("content".to_string());
    assert_eq!(measure_stacks_tip(&micro_reorg), 0);
}

#[test]
fn sidecar_hears_of_undone_blocks_first() {
    let event = BitcoinChainEvent::ChainUpdatedWithReorg(BitcoinChainUpdatedWithReorgData {
        blocks_to_rollback: vec![bitcoin_block(5, 1), bitcoin_block(4, 1)],
        blocks_to_apply: vec![bitcoin_block(4, 2), bitcoin_block(5, 2)],
        confirmed_blocks: vec![bitcoin_block(1, 1)],
    });
    assert_eq!(
        notify_chain_event(&event),
        vec![
            HandleBlock::UndoBlock(bitcoin_block(5, 1)),
            HandleBlock::UndoBlock(bitcoin_block(4, 1)),
            HandleBlock::ApplyBlock(bitcoin_block(4, 2)),
            HandleBlock::ApplyBlock(bitcoin_block(5, 2)),
        ]
    );
    let event = BitcoinChainEvent::ChainUpdatedWithBlocks(BitcoinChainUpdatedWithBlocksData {
        new_blocks: vec![bitcoin_block(1, 1)],
        confirmed_blocks: vec![bitcoin_block(0, 1)],
    });
    assert_eq!(
        notify_chain_event(&event),
        vec![HandleBlock::ApplyBlock(bitcoin_block(1, 1))]
    );
}

#[test]
fn blocks_go_on_as_they_were_without_a_reply() {
    assert!(perform_bitcoin_sidecar_mutations(vec![], None).is_empty());
    let cache = chainhook_observer::blocks::BitcoinBlockDataCached {
        block: bitcoin_block(1, 1),
        processed_by_sidecar: false,
    };
    assert_eq!(
        perform_bitcoin_sidecar_mutations(vec![cache.clone()], None),
        vec![cache.clone()]
    );
    assert!(perform_bitcoin_sidecar_mutations(vec![cache], Some(vec![])).is_empty());
}

#[test]
fn texts_stand_in_the_order_of_their_bytes() {
    assert!(matches!(compare_text("a", "b"), TextOrder::Before));
    assert!(matches!(compare_text("b", "a"), TextOrder::After));
    assert!(matches!(compare_text("a", "ab"), TextOrder::Before));
    assert!(matches!(compare_text("ab", "a"), TextOrder::After));
    assert!(matches!(compare_text("ab", "ab"), TextOrder::Same));
    assert!(matches!(compare_text("Z", "a"), TextOrder::Before));
    assert!(matches!(compare_text("z", "\u{e9}"), TextOrder::Before));
    assert!(same_text("", ""));
    assert!(!same_text("a", "A"));
    assert_eq!(wrap_text("<", "a", ">"), "<a>");
}

#[test]
fn blocks_stand_in_order_from_the_highest() {
    let low = identifier(1, "0x9");
    let high = identifier(2, "0x1");
    assert!(matches!(high.compare(&low), TextOrder::Before));
    assert!(matches!(low.compare(&high), TextOrder::After));
    assert!(matches!(identifier(1, "b").compare(&identifier(1, "a")), TextOrder::Before));
    assert!(matches!(low.compare(&low), TextOrder::Same));
    assert!(identifier(1, "a") == identifier(2, "a"));
}
