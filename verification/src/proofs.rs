//! Proofs that transactions are in their blocks, which the Bitcoin node hands
//! out: which proofs to ask for, how to ask, and what to make of the answers.

use vstd::prelude::*;
use vstd::utf8::{encode_utf8, is_char_boundary};

use crate::chain::{BlockIdentifier, TransactionIdentifier};
use crate::outside::{digest_of, encode_hex, hex_text, parse_block_hash, parse_txid};
use crate::text::wrap_text;
use crate::triggers::{AppliedBlock, TriggerChainhook};

verus! {

/// A transaction whose proof is wanted, and the block that holds it.
#[derive(Debug, PartialEq)]
pub struct ProofTarget {
    pub transaction_identifier: TransactionIdentifier,
    pub block_identifier: BlockIdentifier,
}

impl Clone for ProofTarget {
    fn clone(&self) -> (copy: Self)
        ensures
            copy == *self,
    {
        ProofTarget {
            transaction_identifier: self.transaction_identifier.clone(),
            block_identifier: self.block_identifier.clone(),
        }
    }
}

/// A transaction and its proof.
#[derive(Debug, PartialEq)]
pub struct TransactionProof {
    pub transaction_identifier: TransactionIdentifier,
    pub proof: String,
}

impl Clone for TransactionProof {
    fn clone(&self) -> (copy: Self)
        ensures
            copy == *self,
    {
        TransactionProof {
            transaction_identifier: self.transaction_identifier.clone(),
            proof: self.proof.clone(),
        }
    }
}

/// What a `TransactionProof` holds.
pub struct ProofView {
    pub hash: Seq<char>,
    pub proof: Seq<char>,
}

impl View for TransactionProof {
    type V = ProofView;

    open spec fn view(&self) -> ProofView {
        ProofView { hash: self.transaction_identifier.hash@, proof: self.proof@ }
    }
}

/// What some proofs hold.
pub open spec fn held(proofs: Seq<TransactionProof>) -> Seq<ProofView> {
    proofs.map_values(|proof: TransactionProof| proof@)
}

/// The digest that a block's or a transaction's hash spells behind its first
/// two bytes, if it spells one there.
pub open spec fn hash_digest(hash: Seq<char>) -> Option<Seq<u8>> {
    let bytes = encode_utf8(hash);
    if is_char_boundary(bytes, 2) {
        digest_of(bytes.subrange(2, bytes.len() as int))
    } else {
        None
    }
}

/// The digest by which the Bitcoin node knows a transaction, if its hash spells
/// one.
pub fn transaction_digest(transaction_identifier: &TransactionIdentifier) -> (digest: Option<
    [u8; 32],
>)
    ensures
        match hash_digest(transaction_identifier.hash@) {
            Some(bytes) => digest matches Some(array) && array@ == bytes,
            None => digest is None,
        },
{
    let hash = transaction_identifier.hash.as_str();
    if hash.is_char_boundary(2) {
        parse_txid(hash.split_at(2).1)
    } else {
        None
    }
}

/// The digest by which the Bitcoin node knows a block, if its hash spells one.
pub fn block_digest(block_identifier: &BlockIdentifier) -> (digest: Option<[u8; 32]>)
    ensures
        match hash_digest(block_identifier.hash@) {
            Some(bytes) => digest matches Some(array) && array@ == bytes,
            None => digest is None,
        },
{
    let hash = block_identifier.hash.as_str();
    if hash.is_char_boundary(2) {
        parse_block_hash(hash.split_at(2).1)
    } else {
        None
    }
}

/// A proof as text: its bytes in hexadecimal, behind a `0x`.
pub open spec fn proof_text(proof: Seq<u8>) -> Seq<char> {
    "0x"@ + hex_text(proof)
}

/// The message about a proof that could not be had.
pub open spec fn proof_failure(hash: Seq<char>, error: Seq<char>) -> Seq<char> {
    "failed collecting proof for transaction "@ + hash + ": "@ + error
}

/// What to make of the Bitcoin node's answer to the request for a
/// transaction's proof.
pub fn get_bitcoin_proof(
    transaction_identifier: &TransactionIdentifier,
    answer: Result<Vec<u8>, String>,
) -> (result: Result<String, String>)
    ensures
        match answer {
            Ok(proof) => result matches Ok(text) && text@ == proof_text(proof@),
            Err(error) => result matches Err(message) && message@ == proof_failure(
                transaction_identifier.hash@,
                error@,
            ),
        },
{
    match answer {
        Ok(proof) => {
            let mut text = "0x".to_string();
            text.append(encode_hex(&proof).as_str());
            Ok(text)
        },
        Err(error) => {
            let mut message = wrap_text(
                "failed collecting proof for transaction ",
                transaction_identifier.hash.as_str(),
                ": ",
            );
            message.append(error.as_str());
            Err(message)
        },
    }
}

/// The transactions of a block whose proofs are wanted.
pub open spec fn block_targets(applied: AppliedBlock) -> Seq<ProofTarget> {
    applied.transactions@.map_values(
        |transaction: TransactionIdentifier|
            ProofTarget {
                transaction_identifier: transaction,
                block_identifier: applied.block_identifier,
            },
    )
}

/// The transactions of some blocks whose proofs are wanted, block by block.
pub open spec fn apply_targets(apply: Seq<AppliedBlock>) -> Seq<ProofTarget>
    decreases apply.len(),
{
    if apply.len() == 0 {
        Seq::empty()
    } else {
        apply_targets(apply.drop_last()) + block_targets(apply.last())
    }
}

/// The transactions whose proofs some triggers want, trigger by trigger.
pub open spec fn trigger_targets(triggers: Seq<TriggerChainhook>) -> Seq<ProofTarget>
    decreases triggers.len(),
{
    if triggers.len() == 0 {
        Seq::empty()
    } else {
        let before = trigger_targets(triggers.drop_last());
        if triggers.last().chainhook.include_proof {
            before + apply_targets(triggers.last().apply@)
        } else {
            before
        }
    }
}

/// Whether some of the triggers want proofs.
pub open spec fn wants_proofs(triggers: Seq<TriggerChainhook>) -> bool {
    exists|i: int| 0 <= i < triggers.len() && (#[trigger] triggers[i]).chainhook.include_proof
}

/// Tells whether some of the triggers want proofs.
pub fn any_wants_proofs(triggers: &Vec<TriggerChainhook>) -> (wanted: bool)
    ensures
        wanted == wants_proofs(triggers@),
{
    for i in 0..triggers.len()
        invariant
            forall|j: int| 0 <= j < i ==> !(#[trigger] triggers@[j]).chainhook.include_proof,
    {
        if triggers[i].chainhook.include_proof {
            return true;
        }
    }
    false
}

/// Lists the transactions of a trigger whose proofs are wanted.
pub fn gather_proofs(trigger: &TriggerChainhook) -> (targets: Vec<ProofTarget>)
    ensures
        targets@ == apply_targets(trigger.apply@),
{
    let mut targets: Vec<ProofTarget> = Vec::new();
    for i in 0..trigger.apply.len()
        invariant
            targets@ == apply_targets(trigger.apply@.take(i as int)),
    {
        let applied = &trigger.apply[i];
        let ghost before = targets@;
        assert(before + block_targets(*applied).take(0) =~= before);
        for j in 0..applied.transactions.len()
            invariant
                targets@ == before + block_targets(*applied).take(j as int),
        {
            targets.push(
                ProofTarget {
                    transaction_identifier: applied.transactions[j].clone(),
                    block_identifier: applied.block_identifier.clone(),
                },
            );
            assert(targets@ =~= before + block_targets(*applied).take(j + 1));
        }
        assert(block_targets(*applied).take(applied.transactions@.len() as int) =~= block_targets(
            *applied,
        ));
        assert(trigger.apply@.take(i + 1).drop_last() =~= trigger.apply@.take(i as int));
    }
    assert(trigger.apply@.take(trigger.apply@.len() as int) =~= trigger.apply@);
    targets
}

/// Lists the transactions whose proofs some triggers want.
pub fn gather_all_proofs(triggers: &Vec<TriggerChainhook>) -> (targets: Vec<ProofTarget>)
    ensures
        targets@ == trigger_targets(triggers@),
{
    let mut targets: Vec<ProofTarget> = Vec::new();
    for i in 0..triggers.len()
        invariant
            targets@ == trigger_targets(triggers@.take(i as int)),
    {
        if triggers[i].chainhook.include_proof {
            let mut more = gather_proofs(&triggers[i]);
            targets.append(&mut more);
        }
        assert(triggers@.take(i + 1).drop_last() =~= triggers@.take(i as int));
    }
    assert(triggers@.take(triggers@.len() as int) =~= triggers@);
    targets
}

/// Whether a transaction's proof is at hand.
pub open spec fn has_proof(proofs: Seq<ProofView>, hash: Seq<char>) -> bool {
    exists|i: int| 0 <= i < proofs.len() && (#[trigger] proofs[i]).hash == hash
}

/// No transaction's proof is held twice.
pub open spec fn proofs_distinct(proofs: Seq<ProofView>) -> bool {
    forall|i: int, j: int|
        0 <= i < j < proofs.len() ==> (#[trigger] proofs[i]).hash != (#[trigger] proofs[j]).hash
}

/// The next target whose proof is not at hand, and the targets behind it.
pub open spec fn next_target(targets: Seq<ProofTarget>, proofs: Seq<ProofView>) -> Option<
    (ProofTarget, Seq<ProofTarget>),
>
    decreases targets.len(),
{
    if targets.len() == 0 {
        None
    } else if has_proof(proofs, targets.first().transaction_identifier.hash@) {
        next_target(targets.drop_first(), proofs)
    } else {
        Some((targets.first(), targets.drop_first()))
    }
}

/// Whether a transaction's proof is at hand.
fn is_proven(
    proofs: &Vec<TransactionProof>,
    transaction_identifier: &TransactionIdentifier,
) -> (proven: bool)
    ensures
        proven == has_proof(held(proofs@), transaction_identifier.hash@),
{
    let mut i: usize = 0;
    while i < proofs.len()
        invariant
            i <= proofs.len(),
            forall|j: int|
                0 <= j < i ==> (#[trigger] held(proofs@)[j]).hash != transaction_identifier.hash@,
        decreases proofs.len() - i,
    {
        assert(held(proofs@)[i as int] == proofs@[i as int]@);
        if proofs[i].transaction_identifier == *transaction_identifier {
            return true;
        }
        i += 1;
    }
    false
}

/// Takes the next target whose proof is not at hand off the list, and those
/// before it.
pub fn take_next_target(targets: &mut Vec<ProofTarget>, proofs: &Vec<TransactionProof>) -> (next:
    Option<ProofTarget>)
    ensures
        match next_target(old(targets)@, held(proofs@)) {
            Some((target, rest)) => next == Some(target) && final(targets)@ == rest,
            None => next is None && final(targets)@.len() == 0,
        },
{
    while targets.len() > 0
        invariant
            next_target(targets@, held(proofs@)) == next_target(old(targets)@, held(proofs@)),
        decreases targets.len(),
    {
        let target = targets.remove(0);
        if !is_proven(proofs, &target.transaction_identifier) {
            return Some(target);
        }
    }
    None
}

} // verus!
