//! What the observer and its driver tell each other: the inputs that the driver
//! feeds in, the actions that the observer hands out, and the phases in between.

use vstd::prelude::*;

use crate::blocks::{BitcoinBlockDataCached, PendingChainEvent, PendingChainEventView};
use crate::chain::{
    BitcoinBlockData, BitcoinBlockFullBreakdown, BitcoinChainEvent, BitcoinChainEventView,
    BlockIdentifier, Event, EventView, StacksChainEvent, StacksChainEventView,
};
use crate::commands::{
    BitcoinChainhookOccurrencePayload, ObserverCommand, ObserverEvent, ObserverEventView,
    StacksChainhookOccurrencePayload,
};
use crate::hooks::{BitcoinChainhookSpecification, StacksChainhookSpecification};
use crate::metrics::Metric;
use crate::proofs::{held, ProofTarget, ProofView, TransactionProof};
use crate::report::{PredicateEvaluationReport, ReportView};
use crate::sidecar::{HandleBlock, ObserverSidecar};
use crate::triggers::{Evaluation, TriggerChainhook};

verus! {

/// How often a request is tried before it counts as failed.
pub const REQUEST_ATTEMPTS: u16 = 3;

/// How long, in seconds, to wait between two attempts at a request.
pub const REQUEST_INTERVAL_SECONDS: u16 = 1;

/// Which partners the observer has.
#[derive(Clone, Copy, Debug, PartialEq, Eq, Structural)]
pub struct ObserverLinks {
    /// Someone receives the observer's events.
    pub listener: bool,
    /// A sidecar reworks blocks.
    pub blocks_mutator: bool,
    /// A sidecar is told of the blocks that come and go.
    pub chain_event_notifier: bool,
    /// A server takes in chain data, and is to be shut down in the end.
    pub ingestion: bool,
}

impl ObserverLinks {
    /// The partners that an observer with the given sidecar has.
    pub fn new(listener: bool, sidecar: Option<&ObserverSidecar>, ingestion: bool) -> (links:
        ObserverLinks)
        ensures
            links.listener == listener,
            links.ingestion == ingestion,
            links.blocks_mutator == (sidecar matches Some(sidecar)
                && sidecar.bitcoin_blocks_mutator is Some),
            links.chain_event_notifier == (sidecar matches Some(sidecar)
                && sidecar.bitcoin_chain_event_notifier is Some),
    {
        let (blocks_mutator, chain_event_notifier) = match sidecar {
            Some(sidecar) => (
                sidecar.bitcoin_blocks_mutator.is_some(),
                sidecar.bitcoin_chain_event_notifier.is_some(),
            ),
            None => (false, false),
        };
        ObserverLinks { listener, blocks_mutator, chain_event_notifier, ingestion }
    }
}

/// What a client is told of an occurrence on either chain.
#[derive(Debug, PartialEq)]
pub enum OccurrencePayload {
    Bitcoin(BitcoinChainhookOccurrencePayload),
    Stacks(StacksChainhookOccurrencePayload),
}

impl OccurrencePayload {
    /// Whether the occurrence is on the chain of an event.
    pub open spec fn of_chain(self, event: EventView) -> bool {
        event is BitcoinChainEvent == self is Bitcoin
    }

    /// Whether the occurrence is on the chain of an event.
    pub fn is_of_chain(&self, event: &Event) -> (same: bool)
        ensures
            same == self.of_chain(event@),
    {
        match (self, event) {
            (OccurrencePayload::Bitcoin(_), Event::BitcoinChainEvent(_)) => true,
            (OccurrencePayload::Stacks(_), Event::StacksChainEvent(_)) => true,
            _ => false,
        }
    }
}

/// What a triggered predicate's action comes down to: a request, known to the
/// driver by a number; a file, which an observer does not write; or data for
/// the observer's listener.
#[derive(Debug, PartialEq)]
pub enum ChainhookOccurrence {
    Http(u64, OccurrencePayload),
    File,
    Data(OccurrencePayload),
}

/// A request to be sent.
#[derive(Debug, PartialEq)]
pub struct PendingRequest {
    pub request: u64,
    pub payload: OccurrencePayload,
}

/// A block that is being standardised.
#[derive(Debug, PartialEq)]
pub struct BlockAttempt {
    pub block: BitcoinBlockFullBreakdown,
    /// The hash of the block as it first came.
    pub block_hash: String,
    /// How many attempts failed.
    pub attempts: u32,
}

/// The handling of an evaluated chain event.
#[derive(Debug)]
pub struct Round {
    pub event: Event,
    pub new_tip: u64,
    pub report: PredicateEvaluationReport,
    /// The triggers whose actions are still to be handled.
    pub triggers: Vec<TriggerChainhook>,
    pub hooks_ids_to_deregister: Vec<String>,
    /// The requests that are still to be sent.
    pub requests: Vec<PendingRequest>,
    /// The transactions that are still to be gone through for their proofs.
    pub targets: Vec<ProofTarget>,
    pub proofs: Vec<TransactionProof>,
}

/// What a `Round` holds.
pub struct RoundView {
    pub event: EventView,
    pub new_tip: u64,
    pub report: ReportView,
    pub triggers: Seq<TriggerChainhook>,
    pub hooks_ids_to_deregister: Seq<String>,
    pub requests: Seq<PendingRequest>,
    pub targets: Seq<ProofTarget>,
    pub proofs: Seq<ProofView>,
}

impl View for Round {
    type V = RoundView;

    open spec fn view(&self) -> RoundView {
        RoundView {
            event: self.event@,
            new_tip: self.new_tip,
            report: self.report@,
            triggers: self.triggers@,
            hooks_ids_to_deregister: self.hooks_ids_to_deregister@,
            requests: self.requests@,
            targets: self.targets@,
            proofs: held(self.proofs@),
        }
    }
}

/// What the observer is doing: nothing, or waiting for an answer.
#[derive(Debug)]
pub enum Phase {
    Idle,
    Standardizing(BlockAttempt),
    Downloading(BlockAttempt),
    Mutating(PendingChainEvent, Vec<BitcoinBlockDataCached>),
    Evaluating(Event, u64),
    CollectingProof(Round, ProofTarget),
    HandlingTrigger(Round),
    SendingRequest(Round, OccurrencePayload),
    Terminated,
}

/// What a `Phase` holds.
pub enum PhaseView {
    Idle,
    Standardizing(BlockAttempt),
    Downloading(BlockAttempt),
    Mutating(PendingChainEventView, Seq<BitcoinBlockDataCached>),
    Evaluating(EventView, u64),
    CollectingProof(RoundView, ProofTarget),
    HandlingTrigger(RoundView),
    SendingRequest(RoundView, OccurrencePayload),
    Terminated,
}

impl View for Phase {
    type V = PhaseView;

    open spec fn view(&self) -> PhaseView {
        match *self {
            Phase::Idle => PhaseView::Idle,
            Phase::Standardizing(attempt) => PhaseView::Standardizing(attempt),
            Phase::Downloading(attempt) => PhaseView::Downloading(attempt),
            Phase::Mutating(pending, blocks) => PhaseView::Mutating(pending@, blocks@),
            Phase::Evaluating(event, new_tip) => PhaseView::Evaluating(event@, new_tip),
            Phase::CollectingProof(round, target) => PhaseView::CollectingProof(round@, target),
            Phase::HandlingTrigger(round) => PhaseView::HandlingTrigger(round@),
            Phase::SendingRequest(round, payload) => PhaseView::SendingRequest(round@, payload),
            Phase::Terminated => PhaseView::Terminated,
        }
    }
}

impl Phase {
    /// The report of the round, if there is one, is well-formed.
    pub open spec fn wf(&self) -> bool {
        match *self {
            Phase::CollectingProof(round, _) => round.report.wf(),
            Phase::HandlingTrigger(round) => round.report.wf(),
            Phase::SendingRequest(round, _) => round.report.wf(),
            _ => true,
        }
    }
}

/// Something that the driver is to do.
#[derive(Debug)]
pub enum ObserverAction {
    /// Standardise a block; answer with `BlockStandardized` or `BlockRejected`.
    Standardize(BitcoinBlockFullBreakdown),
    /// Download the block with the given hash; answer with `BlockDownloaded`.
    Download(String),
    /// Let the sidecar rework blocks, and tell it which blocks the chain loses;
    /// answer with `BlocksMutated`.
    MutateBlocks(Vec<BitcoinBlockDataCached>, Vec<BlockIdentifier>),
    /// Tell the sidecar of a block.
    Notify(HandleBlock),
    /// Evaluate predicates on a chain event; answer with `Evaluated`.
    EvaluateBitcoin(BitcoinChainEvent, Vec<BitcoinChainhookSpecification>),
    /// Evaluate predicates on a chain event; answer with `Evaluated`.
    EvaluateStacks(StacksChainEvent, Vec<StacksChainhookSpecification>),
    /// Get ready to ask the Bitcoin node for proofs; to fail at this is fatal.
    ConnectNode,
    /// Ask for a proof; answer with `ProofCollected`.
    CollectProof(ProofTarget),
    /// Handle a triggered predicate's action; answer with `TriggerHandled`.
    HandleBitcoinTrigger(TriggerChainhook, Vec<TransactionProof>),
    /// Handle a triggered predicate's action; answer with `TriggerHandled`.
    HandleStacksTrigger(TriggerChainhook),
    /// Send a request, known by its number, with so many attempts, so many
    /// seconds apart; answer with `RequestSent`, which tells of a failure once
    /// every attempt failed.
    SendRequest { request: u64, attempts_max: u16, attempts_interval_seconds: u16 },
    /// Emit an event.
    Emit(ObserverEvent),
    /// Report to the monitoring.
    Measure(Metric),
    /// Shut down the server that takes in chain data.
    ShutdownIngestion,
}

/// What an `ObserverAction` holds.
pub enum ObserverActionView {
    Standardize(BitcoinBlockFullBreakdown),
    Download(String),
    MutateBlocks(Seq<BitcoinBlockDataCached>, Seq<BlockIdentifier>),
    Notify(HandleBlock),
    EvaluateBitcoin(BitcoinChainEventView, Seq<BitcoinChainhookSpecification>),
    EvaluateStacks(StacksChainEventView, Seq<StacksChainhookSpecification>),
    ConnectNode,
    CollectProof(ProofTarget),
    HandleBitcoinTrigger(TriggerChainhook, Seq<ProofView>),
    HandleStacksTrigger(TriggerChainhook),
    SendRequest { request: u64, attempts_max: u16, attempts_interval_seconds: u16 },
    Emit(ObserverEventView),
    Measure(Metric),
    ShutdownIngestion,
}

impl View for ObserverAction {
    type V = ObserverActionView;

    open spec fn view(&self) -> ObserverActionView {
        match *self {
            ObserverAction::Standardize(block) => ObserverActionView::Standardize(block),
            ObserverAction::Download(hash) => ObserverActionView::Download(hash),
            ObserverAction::MutateBlocks(blocks, ids) => ObserverActionView::MutateBlocks(
                blocks@,
                ids@,
            ),
            ObserverAction::Notify(message) => ObserverActionView::Notify(message),
            ObserverAction::EvaluateBitcoin(event, hooks) => ObserverActionView::EvaluateBitcoin(
                event@,
                hooks@,
            ),
            ObserverAction::EvaluateStacks(event, hooks) => ObserverActionView::EvaluateStacks(
                event@,
                hooks@,
            ),
            ObserverAction::ConnectNode => ObserverActionView::ConnectNode,
            ObserverAction::CollectProof(target) => ObserverActionView::CollectProof(target),
            ObserverAction::HandleBitcoinTrigger(trigger, proofs) => {
                ObserverActionView::HandleBitcoinTrigger(trigger, held(proofs@))
            },
            ObserverAction::HandleStacksTrigger(trigger) => {
                ObserverActionView::HandleStacksTrigger(trigger)
            },
            ObserverAction::SendRequest { request, attempts_max, attempts_interval_seconds } => {
                ObserverActionView::SendRequest {
                    request,
                    attempts_max,
                    attempts_interval_seconds,
                }
            },
            ObserverAction::Emit(event) => ObserverActionView::Emit(event@),
            ObserverAction::Measure(metric) => ObserverActionView::Measure(metric),
            ObserverAction::ShutdownIngestion => ObserverActionView::ShutdownIngestion,
        }
    }
}

impl ObserverAction {
    /// The event that the action emits, if it emits one, is well-formed.
    pub open spec fn wf(&self) -> bool {
        match *self {
            ObserverAction::Emit(event) => event.wf(),
            _ => true,
        }
    }
}

/// The actions are well-formed.
pub open spec fn all_wf(actions: Seq<ObserverAction>) -> bool {
    forall|i: int| 0 <= i < actions.len() ==> (#[trigger] actions[i]).wf()
}

/// What some actions hold.
pub open spec fn seen(actions: Seq<ObserverAction>) -> Seq<ObserverActionView> {
    actions.map_values(|action: ObserverAction| action@)
}

/// What the driver tells the observer: a command, or the answer to an action.
#[derive(Debug)]
pub enum ObserverInput {
    Command(ObserverCommand),
    /// No more commands will come.
    CommandsClosed,
    BlockStandardized(BitcoinBlockData),
    /// The block could not be standardised; it is to be downloaded anew, or
    /// tried again as it is.
    BlockRejected { refetch_block: bool },
    /// The block as downloaded, if it could be.
    BlockDownloaded(Option<BitcoinBlockFullBreakdown>),
    /// The blocks that the sidecar sent back, if it did.
    BlocksMutated(Option<Vec<BitcoinBlockDataCached>>),
    Evaluated(Evaluation),
    /// The proof, or why it could not be had.
    ProofCollected(Result<Vec<u8>, String>),
    /// What the action comes down to, unless it failed.
    TriggerHandled(Option<ChainhookOccurrence>),
    /// Whether the request was sent, or why not, and the key under which the
    /// request's predicate is known.
    RequestSent { outcome: Result<(), String>, predicate_key: String },
}

} // verus!
