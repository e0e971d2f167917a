//! What the observer is told and what it tells: the commands that it handles,
//! the events that it emits, and the data in them.

use vstd::prelude::*;

use crate::chain::{
    BitcoinBlockData, BitcoinBlockFullBreakdown, BitcoinChainEvent, BitcoinChainEventView,
    BlockchainEvent, StacksChainEvent, StacksChainEventView,
};
use crate::hooks::{ChainhookFullSpecification, ChainhookSpecification};
use crate::report::{PredicateEvaluationReport, ReportView};

verus! {

/// A transaction that a Stacks node reports.
#[derive(Clone, Debug, PartialEq)]
pub struct NewTransaction {
    pub txid: String,
    pub status: String,
    pub raw_result: String,
    pub raw_tx: String,
}

/// A Stacks node's answer to a read-only contract call.
#[derive(Clone, Debug, PartialEq)]
pub struct ContractReadonlyCall {
    pub okay: bool,
    pub result: String,
}

/// The predicate that an occurrence belongs to.
#[derive(Debug, PartialEq)]
pub struct PayloadChainhook {
    pub uuid: String,
}

impl Clone for PayloadChainhook {
    fn clone(&self) -> (copy: Self)
        ensures
            copy == *self,
    {
        PayloadChainhook { uuid: self.uuid.clone() }
    }
}

/// What a client is told of an occurrence on the Bitcoin chain. The blocks in
/// it travel in `content`, in serialised form.
#[derive(Debug, PartialEq)]
pub struct BitcoinChainhookOccurrencePayload {
    pub chainhook: PayloadChainhook,
    pub content: String,
}

impl Clone for BitcoinChainhookOccurrencePayload {
    fn clone(&self) -> (copy: Self)
        ensures
            copy == *self,
    {
        BitcoinChainhookOccurrencePayload {
            chainhook: self.chainhook.clone(),
            content: self.content.clone(),
        }
    }
}

/// What a client is told of an occurrence on the Stacks chain. The blocks in it
/// travel in `content`, in serialised form.
#[derive(Debug, PartialEq)]
pub struct StacksChainhookOccurrencePayload {
    pub chainhook: PayloadChainhook,
    pub content: String,
}

impl Clone for StacksChainhookOccurrencePayload {
    fn clone(&self) -> (copy: Self)
        ensures
            copy == *self,
    {
        StacksChainhookOccurrencePayload {
            chainhook: self.chainhook.clone(),
            content: self.content.clone(),
        }
    }
}

/// What a data handler is told.
#[derive(Clone, Debug, PartialEq)]
pub enum DataHandlerEvent {
    Process(BitcoinChainhookOccurrencePayload),
    Terminate,
}

/// A predicate and the height at which it expires.
#[derive(Clone, Debug, PartialEq)]
pub struct HookExpirationData {
    pub hook_uuid: String,
    pub block_height: u64,
}

/// What happened in a Stacks node's pool of pending transactions.
#[derive(Debug, PartialEq)]
pub enum StacksChainMempoolEvent {
    TransactionsAdmitted(Vec<MempoolAdmissionData>),
    TransactionDropped(String),
}

/// What a `StacksChainMempoolEvent` holds.
pub enum StacksChainMempoolEventView {
    TransactionsAdmitted(Seq<MempoolAdmissionData>),
    TransactionDropped(String),
}

impl View for StacksChainMempoolEvent {
    type V = StacksChainMempoolEventView;

    open spec fn view(&self) -> StacksChainMempoolEventView {
        match *self {
            StacksChainMempoolEvent::TransactionsAdmitted(transactions) => {
                StacksChainMempoolEventView::TransactionsAdmitted(transactions@)
            },
            StacksChainMempoolEvent::TransactionDropped(txid) => {
                StacksChainMempoolEventView::TransactionDropped(txid)
            },
        }
    }
}

impl Clone for StacksChainMempoolEvent {
    fn clone(&self) -> (copy: Self)
        ensures
            copy@ == self@,
    {
        match self {
            StacksChainMempoolEvent::TransactionsAdmitted(transactions) => {
                let copies = transactions.clone();
                assert(copies@ =~= transactions@);
                StacksChainMempoolEvent::TransactionsAdmitted(copies)
            },
            StacksChainMempoolEvent::TransactionDropped(txid) => {
                StacksChainMempoolEvent::TransactionDropped(txid.clone())
            },
        }
    }
}

/// A pending transaction.
#[derive(Debug, PartialEq)]
pub struct MempoolAdmissionData {
    pub tx_data: String,
    pub tx_description: String,
}

impl Clone for MempoolAdmissionData {
    fn clone(&self) -> (copy: Self)
        ensures
            copy == *self,
    {
        MempoolAdmissionData {
            tx_data: self.tx_data.clone(),
            tx_description: self.tx_description.clone(),
        }
    }
}

/// A predicate that was interrupted, and why.
#[derive(Debug, PartialEq)]
pub struct PredicateInterruptedData {
    pub predicate_key: String,
    pub error: String,
}

impl Clone for PredicateInterruptedData {
    fn clone(&self) -> (copy: Self)
        ensures
            copy == *self,
    {
        PredicateInterruptedData {
            predicate_key: self.predicate_key.clone(),
            error: self.error.clone(),
        }
    }
}

/// A command to the observer.
#[derive(Clone, Debug, PartialEq)]
pub enum ObserverCommand {
    ProcessBitcoinBlock(BitcoinBlockFullBreakdown),
    CacheBitcoinBlock(BitcoinBlockData),
    PropagateBitcoinChainEvent(BlockchainEvent),
    PropagateStacksChainEvent(StacksChainEvent),
    PropagateStacksMempoolEvent(StacksChainMempoolEvent),
    RegisterPredicate(ChainhookFullSpecification),
    EnablePredicate(ChainhookSpecification),
    DeregisterBitcoinPredicate(String),
    DeregisterStacksPredicate(String),
    ExpireBitcoinPredicate(HookExpirationData),
    ExpireStacksPredicate(HookExpirationData),
    NotifyBitcoinTransactionProxied,
    Terminate,
}

/// An event that the observer emits.
#[derive(Debug)]
pub enum ObserverEvent {
    Error(String),
    Fatal(String),
    Info(String),
    BitcoinChainEvent((BitcoinChainEvent, PredicateEvaluationReport)),
    StacksChainEvent((StacksChainEvent, PredicateEvaluationReport)),
    NotifyBitcoinTransactionProxied,
    PredicateRegistered(ChainhookSpecification),
    PredicateDeregistered(String),
    PredicateEnabled(ChainhookSpecification),
    BitcoinPredicateTriggered(BitcoinChainhookOccurrencePayload),
    StacksPredicateTriggered(StacksChainhookOccurrencePayload),
    PredicatesTriggered(usize),
    PredicateInterrupted(PredicateInterruptedData),
    Terminate,
    StacksChainMempoolEvent(StacksChainMempoolEvent),
}

/// What an `ObserverEvent` holds.
pub enum ObserverEventView {
    Error(Seq<char>),
    Fatal(Seq<char>),
    Info(Seq<char>),
    BitcoinChainEvent(BitcoinChainEventView, ReportView),
    StacksChainEvent(StacksChainEventView, ReportView),
    NotifyBitcoinTransactionProxied,
    PredicateRegistered(ChainhookSpecification),
    PredicateDeregistered(String),
    PredicateEnabled(ChainhookSpecification),
    BitcoinPredicateTriggered(BitcoinChainhookOccurrencePayload),
    StacksPredicateTriggered(StacksChainhookOccurrencePayload),
    PredicatesTriggered(nat),
    PredicateInterrupted { predicate_key: String, error: Seq<char> },
    Terminate,
    StacksChainMempoolEvent(StacksChainMempoolEventView),
}

impl View for ObserverEvent {
    type V = ObserverEventView;

    open spec fn view(&self) -> ObserverEventView {
        match *self {
            ObserverEvent::Error(message) => ObserverEventView::Error(message@),
            ObserverEvent::Fatal(message) => ObserverEventView::Fatal(message@),
            ObserverEvent::Info(message) => ObserverEventView::Info(message@),
            ObserverEvent::BitcoinChainEvent(data) => ObserverEventView::BitcoinChainEvent(
                data.0@,
                data.1@,
            ),
            ObserverEvent::StacksChainEvent(data) => ObserverEventView::StacksChainEvent(
                data.0@,
                data.1@,
            ),
            ObserverEvent::NotifyBitcoinTransactionProxied => {
                ObserverEventView::NotifyBitcoinTransactionProxied
            },
            ObserverEvent::PredicateRegistered(spec) => ObserverEventView::PredicateRegistered(
                spec,
            ),
            ObserverEvent::PredicateDeregistered(uuid) => {
                ObserverEventView::PredicateDeregistered(uuid)
            },
            ObserverEvent::PredicateEnabled(spec) => ObserverEventView::PredicateEnabled(spec),
            ObserverEvent::BitcoinPredicateTriggered(payload) => {
                ObserverEventView::BitcoinPredicateTriggered(payload)
            },
            ObserverEvent::StacksPredicateTriggered(payload) => {
                ObserverEventView::StacksPredicateTriggered(payload)
            },
            ObserverEvent::PredicatesTriggered(count) => ObserverEventView::PredicatesTriggered(
                count as nat,
            ),
            ObserverEvent::PredicateInterrupted(data) => ObserverEventView::PredicateInterrupted {
                predicate_key: data.predicate_key,
                error: data.error@,
            },
            ObserverEvent::Terminate => ObserverEventView::Terminate,
            ObserverEvent::StacksChainMempoolEvent(event) => {
                ObserverEventView::StacksChainMempoolEvent(event@)
            },
        }
    }
}

impl ObserverEvent {
    /// The report in the event, if there is one, is well-formed.
    pub open spec fn wf(&self) -> bool {
        match *self {
            ObserverEvent::BitcoinChainEvent(data) => data.1.wf(),
            ObserverEvent::StacksChainEvent(data) => data.1.wf(),
            _ => true,
        }
    }
}

impl Clone for ObserverEvent {
    fn clone(&self) -> (copy: Self)
        ensures
            self.wf() ==> copy.wf() && copy@ == self@,
    {
        match self {
            ObserverEvent::Error(message) => ObserverEvent::Error(message.clone()),
            ObserverEvent::Fatal(message) => ObserverEvent::Fatal(message.clone()),
            ObserverEvent::Info(message) => ObserverEvent::Info(message.clone()),
            ObserverEvent::BitcoinChainEvent(data) => {
                ObserverEvent::BitcoinChainEvent((data.0.clone(), data.1.clone()))
            },
            ObserverEvent::StacksChainEvent(data) => {
                ObserverEvent::StacksChainEvent((data.0.clone(), data.1.clone()))
            },
            ObserverEvent::NotifyBitcoinTransactionProxied => {
                ObserverEvent::NotifyBitcoinTransactionProxied
            },
            ObserverEvent::PredicateRegistered(spec) => {
                ObserverEvent::PredicateRegistered(spec.clone())
            },
            ObserverEvent::PredicateDeregistered(uuid) => {
                ObserverEvent::PredicateDeregistered(uuid.clone())
            },
            ObserverEvent::PredicateEnabled(spec) => ObserverEvent::PredicateEnabled(spec.clone()),
            ObserverEvent::BitcoinPredicateTriggered(payload) => {
                ObserverEvent::BitcoinPredicateTriggered(payload.clone())
            },
            ObserverEvent::StacksPredicateTriggered(payload) => {
                ObserverEvent::StacksPredicateTriggered(payload.clone())
            },
            ObserverEvent::PredicatesTriggered(count) => ObserverEvent::PredicatesTriggered(*count),
            ObserverEvent::PredicateInterrupted(data) => {
                ObserverEvent::PredicateInterrupted(data.clone())
            },
            ObserverEvent::Terminate => ObserverEvent::Terminate,
            ObserverEvent::StacksChainMempoolEvent(event) => {
                ObserverEvent::StacksChainMempoolEvent(event.clone())
            },
        }
    }
}

} // verus!
