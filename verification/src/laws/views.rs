//! Laws on views: what contracts speak of is all that the values hold.

use vstd::prelude::*;
use vstd::std_specs::cmp::PartialEqSpec;

use crate::chain::{
    BitcoinBlockData, BitcoinChainEvent, BitcoinChainEventView, BlockIdentifier, StacksChainEvent,
    TransactionIdentifier,
};
use crate::commands::{ObserverEvent, StacksChainMempoolEvent};
use crate::laws::counting::tallied;
use crate::proofs::{held, TransactionProof};
use crate::protocol::{seen, ObserverAction};
use crate::report::PredicateEvaluationReport;
use crate::sidecar::{notifications, HandleBlock};
use crate::triggers::{count_of, Tally};

verus! {

/// The actions are seen one by one, none left out.
pub proof fn actions_are_seen_one_by_one(actions: Seq<ObserverAction>, i: int)
    ensures
        seen(actions).len() == actions.len(),
        0 <= i < actions.len() ==> seen(actions)[i] == actions[i]@,
{
}

/// The proofs are seen one by one, each with its transaction's hash and its text.
pub proof fn proofs_are_seen_one_by_one(proofs: Seq<TransactionProof>, i: int)
    ensures
        held(proofs).len() == proofs.len(),
        0 <= i < proofs.len() ==> held(proofs)[i].hash == proofs[i].transaction_identifier.hash@,
        0 <= i < proofs.len() ==> held(proofs)[i].proof == proofs[i].proof@,
{
}

/// Two Bitcoin chain events that look the same tell of the same blocks.
pub proof fn bitcoin_events_are_what_they_look_like(a: BitcoinChainEvent, b: BitcoinChainEvent)
    requires
        a@ == b@,
    ensures
        match (a, b) {
            (
                BitcoinChainEvent::ChainUpdatedWithBlocks(x),
                BitcoinChainEvent::ChainUpdatedWithBlocks(y),
            ) => {
                &&& x.new_blocks@ == y.new_blocks@
                &&& x.confirmed_blocks@ == y.confirmed_blocks@
            },
            (
                BitcoinChainEvent::ChainUpdatedWithReorg(x),
                BitcoinChainEvent::ChainUpdatedWithReorg(y),
            ) => {
                &&& x.blocks_to_rollback@ == y.blocks_to_rollback@
                &&& x.blocks_to_apply@ == y.blocks_to_apply@
                &&& x.confirmed_blocks@ == y.confirmed_blocks@
            },
            _ => false,
        },
{
}

/// Two Stacks chain events that look the same tell of the same blocks.
pub proof fn stacks_events_are_what_they_look_like(a: StacksChainEvent, b: StacksChainEvent)
    requires
        a@ == b@,
    ensures
        match (a, b) {
            (
                StacksChainEvent::ChainUpdatedWithBlocks(x),
                StacksChainEvent::ChainUpdatedWithBlocks(y),
            ) => {
                &&& x.new_blocks@ == y.new_blocks@
                &&& x.confirmed_blocks@ == y.confirmed_blocks@
            },
            (
                StacksChainEvent::ChainUpdatedWithReorg(x),
                StacksChainEvent::ChainUpdatedWithReorg(y),
            ) => {
                &&& x.blocks_to_rollback@ == y.blocks_to_rollback@
                &&& x.blocks_to_apply@ == y.blocks_to_apply@
                &&& x.confirmed_blocks@ == y.confirmed_blocks@
            },
            (
                StacksChainEvent::ChainUpdatedWithMicroblocks(x),
                StacksChainEvent::ChainUpdatedWithMicroblocks(y),
            ) => x == y,
            (
                StacksChainEvent::ChainUpdatedWithMicroblocksReorg(x),
                StacksChainEvent::ChainUpdatedWithMicroblocksReorg(y),
            ) => x == y,
            _ => false,
        },
{
}

/// Two reports look the same if they hold the same of each kind.
pub proof fn reports_are_what_they_look_like(
    a: PredicateEvaluationReport,
    b: PredicateEvaluationReport,
)
    requires
        a@ == b@,
    ensures
        a.predicates_evaluated@ == b.predicates_evaluated@,
        a.predicates_triggered@ == b.predicates_triggered@,
        a.predicates_expired@ == b.predicates_expired@,
{
}

/// Two events about pending transactions that look the same tell of the same
/// transactions.
pub proof fn mempool_events_are_what_they_look_like(
    a: StacksChainMempoolEvent,
    b: StacksChainMempoolEvent,
)
    requires
        a@ == b@,
    ensures
        match (a, b) {
            (
                StacksChainMempoolEvent::TransactionsAdmitted(x),
                StacksChainMempoolEvent::TransactionsAdmitted(y),
            ) => x@ == y@,
            (
                StacksChainMempoolEvent::TransactionDropped(x),
                StacksChainMempoolEvent::TransactionDropped(y),
            ) => x == y,
            _ => false,
        },
{
}

/// Two events for the listener that look the same say the same.
pub proof fn events_are_what_they_look_like(a: ObserverEvent, b: ObserverEvent)
    requires
        a@ == b@,
    ensures
        match (a, b) {
            (ObserverEvent::Error(x), ObserverEvent::Error(y)) => x@ == y@,
            (ObserverEvent::Fatal(x), ObserverEvent::Fatal(y)) => x@ == y@,
            (ObserverEvent::Info(x), ObserverEvent::Info(y)) => x@ == y@,
            (ObserverEvent::BitcoinChainEvent(x), ObserverEvent::BitcoinChainEvent(y)) => x.0@
                == y.0@ && x.1@ == y.1@,
            (ObserverEvent::StacksChainEvent(x), ObserverEvent::StacksChainEvent(y)) => x.0@
                == y.0@ && x.1@ == y.1@,
            (
                ObserverEvent::NotifyBitcoinTransactionProxied,
                ObserverEvent::NotifyBitcoinTransactionProxied,
            ) => true,
            (ObserverEvent::PredicateRegistered(x), ObserverEvent::PredicateRegistered(y)) => x
                == y,
            (ObserverEvent::PredicateDeregistered(x), ObserverEvent::PredicateDeregistered(y)) => x
                == y,
            (ObserverEvent::PredicateEnabled(x), ObserverEvent::PredicateEnabled(y)) => x == y,
            (
                ObserverEvent::BitcoinPredicateTriggered(x),
                ObserverEvent::BitcoinPredicateTriggered(y),
            ) => x == y,
            (
                ObserverEvent::StacksPredicateTriggered(x),
                ObserverEvent::StacksPredicateTriggered(y),
            ) => x == y,
            (ObserverEvent::PredicatesTriggered(x), ObserverEvent::PredicatesTriggered(y)) => x
                == y,
            (ObserverEvent::PredicateInterrupted(x), ObserverEvent::PredicateInterrupted(y)) => {
                x.predicate_key == y.predicate_key && x.error@ == y.error@
            },
            (ObserverEvent::Terminate, ObserverEvent::Terminate) => true,
            (
                ObserverEvent::StacksChainMempoolEvent(x),
                ObserverEvent::StacksChainMempoolEvent(y),
            ) => x@ == y@,
            _ => false,
        },
{
}

/// Two actions that look the same ask for the same.
pub proof fn actions_are_what_they_look_like(a: ObserverAction, b: ObserverAction)
    requires
        a@ == b@,
    ensures
        match (a, b) {
            (ObserverAction::Standardize(x), ObserverAction::Standardize(y)) => x == y,
            (ObserverAction::Download(x), ObserverAction::Download(y)) => x == y,
            (ObserverAction::MutateBlocks(x, p), ObserverAction::MutateBlocks(y, q)) => x@ == y@
                && p@ == q@,
            (ObserverAction::Notify(x), ObserverAction::Notify(y)) => x == y,
            (ObserverAction::EvaluateBitcoin(x, p), ObserverAction::EvaluateBitcoin(y, q)) => x@
                == y@ && p@ == q@,
            (ObserverAction::EvaluateStacks(x, p), ObserverAction::EvaluateStacks(y, q)) => x@
                == y@ && p@ == q@,
            (ObserverAction::ConnectNode, ObserverAction::ConnectNode) => true,
            (ObserverAction::CollectProof(x), ObserverAction::CollectProof(y)) => x == y,
            (
                ObserverAction::HandleBitcoinTrigger(x, p),
                ObserverAction::HandleBitcoinTrigger(y, q),
            ) => x == y && held(p@) == held(q@),
            (ObserverAction::HandleStacksTrigger(x), ObserverAction::HandleStacksTrigger(y)) => x
                == y,
            (
                ObserverAction::SendRequest {
                    request: x,
                    attempts_max: p,
                    attempts_interval_seconds: u,
                },
                ObserverAction::SendRequest {
                    request: y,
                    attempts_max: q,
                    attempts_interval_seconds: v,
                },
            ) => x == y && p == q && u == v,
            (ObserverAction::Emit(x), ObserverAction::Emit(y)) => x@ == y@,
            (ObserverAction::Measure(x), ObserverAction::Measure(y)) => x == y,
            (ObserverAction::ShutdownIngestion, ObserverAction::ShutdownIngestion) => true,
            _ => false,
        },
{
}

/// Two identifiers name the same block if their hashes agree, whatever their heights, and
/// two name the same transaction if their hashes agree.
pub proof fn identifiers_go_by_their_hashes(
    a: BlockIdentifier,
    b: BlockIdentifier,
    x: TransactionIdentifier,
    y: TransactionIdentifier,
)
    ensures
        a.eq_spec(&b) <==> a.hash@ == b.hash@,
        x.eq_spec(&y) <==> x.hash@ == y.hash@,
{
}

/// The sidecar hears of every block that the chain lost, and then of every block that it
/// gained, each in its order.
pub proof fn sidecar_hears_of_every_block(
    lost: Seq<BitcoinBlockData>,
    gained: Seq<BitcoinBlockData>,
    confirmed: Seq<BitcoinBlockData>,
    i: int,
)
    ensures
        ({
            let messages = notifications(
                BitcoinChainEventView::ChainUpdatedWithReorg {
                    blocks_to_rollback: lost,
                    blocks_to_apply: gained,
                    confirmed_blocks: confirmed,
                },
            );
            &&& messages.len() == lost.len() + gained.len()
            &&& 0 <= i < lost.len() ==> messages[i] == HandleBlock::UndoBlock(lost[i])
            &&& 0 <= i < gained.len() ==> messages[lost.len() + i] == HandleBlock::ApplyBlock(
                gained[i],
            )
        }),
        ({
            let messages = notifications(
                BitcoinChainEventView::ChainUpdatedWithBlocks {
                    new_blocks: gained,
                    confirmed_blocks: confirmed,
                },
            );
            &&& messages.len() == gained.len()
            &&& 0 <= i < gained.len() ==> messages[i] == HandleBlock::ApplyBlock(gained[i])
        }),
{
}

/// A predicate that was never counted was triggered no time.
pub proof fn count_is_what_is_tallied(tally: Tally, uuid: Seq<char>)
    ensures
        count_of(tally, uuid) == tallied(tally, uuid),
{
}

} // verus!
