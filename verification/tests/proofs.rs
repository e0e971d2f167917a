use chainhook_observer::chain::{BlockIdentifier, TransactionIdentifier};
use chainhook_observer::proofs::{
    any_wants_proofs, block_digest, gather_all_proofs, gather_proofs, get_bitcoin_proof, take_next_target,
    transaction_digest, ProofTarget, TransactionProof,
};
use chainhook_observer::triggers::{AppliedBlock, TriggerChainhook, TriggeredChainhook};

fn transaction(hash: &str) -> TransactionIdentifier {
    TransactionIdentifier { hash: hash.to_string() }
}

fn block(index: u64, hash: &str) -> BlockIdentifier {
    BlockIdentifier { index, hash: hash.to_string() }
}

fn trigger(include_proof: bool, apply: Vec<(BlockIdentifier, Vec<&str>)>) -> TriggerChainhook {
    TriggerChainhook {
        chainhook: TriggeredChainhook {
            uuid: "a".to_string(),
            expire_after_occurrence: None,
            include_proof,
        },
        apply: apply
            .into_iter()
            .map(|(block_identifier, hashes)| AppliedBlock {
                block_identifier,
                transactions: hashes.into_iter().map(transaction).collect(),
            })
            .collect(),
        content: String::new(),
    }
}

fn wanted(targets: &Vec<ProofTarget>) -> Vec<(String, String)> {
    targets
        .iter()
        .map(|t| (t.transaction_identifier.hash.clone(), t.block_identifier.hash.clone()))
        .collect()
}

fn pair(transaction: &str, block: &str) -> (String, String) {
    (transaction.to_string(), block.to_string())
}

#[test]
fn digest_is_spelled_backwards_behind_the_prefix() {
    let hash = "0x000102030405060708090a0b0c0d0e0f101112131415161718191a1b1c1d1eFf";
    let mut expected: Vec<u8> = (0..31u8).collect();
    expected.push(255);
    expected.reverse();
    assert_eq!(transaction_digest(&transaction(hash)).unwrap().to_vec(), expected);
    assert_eq!(block_digest(&block(1, hash)).unwrap().to_vec(), expected);
}

#[test]
fn other_hashes_have_no_digest() {
    let short = "0x00";
    let odd = "0x000102030405060708090a0b0c0d0e0f101112131415161718191a1b1c1d1e1";
    let bad = "0x000102030405060708090a0b0c0d0e0f101112131415161718191a1b1c1d1e1g";
    let long = "0x000102030405060708090a0b0c0d0e0f101112131415161718191a1b1c1d1e1f00";
    let torn = "0\u{e9}00";
    for hash in ["", "0", short, odd, bad, long, torn] {
        assert!(transaction_digest(&transaction(hash)).is_none());
        assert!(block_digest(&block(1, hash)).is_none());
    }
}

#[test]
fn proof_is_written_in_hexadecimal() {
    let answer = get_bitcoin_proof(&transaction("0xaa"), Ok(vec![0, 1, 171, 255]));
    assert_eq!(answer, Ok("0x0001abff".to_string()));
    assert_eq!(get_bitcoin_proof(&transaction("0xaa"), Ok(vec![])), Ok("0x".to_string()));
}

#[test]
fn failure_names_the_transaction() {
    let answer = get_bitcoin_proof(&transaction("0xaa"), Err("no answer".to_string()));
    assert_eq!(
        answer,
        Err("failed collecting proof for transaction 0xaa: no answer".to_string())
    );
}

#[test]
fn proofs_are_gathered_block_by_block() {
    let trigger = trigger(
        true,
        vec![(block(1, "0x01"), vec!["0xa", "0xb"]), (block(2, "0x02"), vec!["0xc"])],
    );
    let expected = vec![pair("0xa", "0x01"), pair("0xb", "0x01"), pair("0xc", "0x02")];
    assert_eq!(wanted(&gather_proofs(&trigger)), expected);
}

#[test]
fn proofs_are_gathered_where_they_are_wanted() {
    let triggers = vec![
        trigger(true, vec![(block(1, "0x01"), vec!["0xa"])]),
        trigger(false, vec![(block(1, "0x01"), vec!["0xb"])]),
        trigger(true, vec![(block(2, "0x02"), vec!["0xc"])]),
    ];
    let expected = vec![pair("0xa", "0x01"), pair("0xc", "0x02")];
    assert_eq!(wanted(&gather_all_proofs(&triggers)), expected);
}

#[test]
fn proofs_may_be_wanted_without_transactions() {
    assert!(!any_wants_proofs(&vec![]));
    assert!(!any_wants_proofs(&vec![trigger(false, vec![])]));
    assert!(any_wants_proofs(&vec![trigger(false, vec![]), trigger(true, vec![])]));
}

#[test]
fn proofs_at_hand_are_passed_over() {
    let mut targets = gather_proofs(&trigger(
        true,
        vec![(block(1, "0x01"), vec!["0xa", "0xa", "0xb"]), (block(2, "0x02"), vec!["0xa"])],
    ));
    let proofs = vec![TransactionProof {
        transaction_identifier: transaction("0xa"),
        proof: "0x".to_string(),
    }];
    let next = take_next_target(&mut targets, &proofs).unwrap();
    assert_eq!(next.transaction_identifier.hash, "0xb");
    assert_eq!(wanted(&targets), vec![pair("0xa", "0x02")]);
    assert!(take_next_target(&mut targets, &proofs).is_none());
    assert!(targets.is_empty());
}
