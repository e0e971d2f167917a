//! The observer as a state machine: what each command and each answer leads to.

use vstd::prelude::*;

use crate::blocks::{
    cache_after_completion, cache_after_resolution, completion, filed, resolution, unprocessed,
    BitcoinBlockDataCached, BlockMap, PendingChainEventView,
};
use crate::chain::{BitcoinBlockData, BlockchainEvent, EventView, StacksChainEventView};
use crate::commands::{ObserverCommand, ObserverEventView};
use crate::hooks::{
    active_hooks, enabled_hook, has_hook, with_hook_enabled, with_hook_expired, without_hook,
    BitcoinChainhookSpecification, ChainhookFullSpecification, ChainhookSpecification,
    StacksChainhookSpecification,
};
use crate::metrics::{bitcoin_reorg, stacks_reorg, stacks_tip, Metric};
use crate::network::{BitcoinNetwork, StacksNetwork};
use crate::proofs::{
    next_target, proof_text, trigger_targets, wants_proofs, ProofTarget, ProofView,
};
use crate::protocol::{
    BlockAttempt, ChainhookOccurrence, ObserverActionView, ObserverInput, ObserverLinks,
    OccurrencePayload, PendingRequest, PhaseView, RoundView, REQUEST_ATTEMPTS,
    REQUEST_INTERVAL_SECONDS,
};
use crate::sidecar::{notifications, HandleBlock};
use crate::triggers::{admitted, all_counted, exhausted, tally_fits, Evaluation, Tally};

verus! {

/// How often the observer tries anew to standardise a block before it gives up.
pub const MAX_ATTEMPTS: u32 = 10;

/// What an observer holds.
pub struct ObserverView {
    pub links: ObserverLinks,
    pub bitcoin_network: BitcoinNetwork,
    pub stacks_network: StacksNetwork,
    pub bitcoin_hooks: Seq<BitcoinChainhookSpecification>,
    pub stacks_hooks: Seq<StacksChainhookSpecification>,
    pub occurrences: Tally,
    pub blocks: BlockMap,
    pub phase: PhaseView,
}

/// A step of the machine: the state that it leads to, and the actions to be
/// performed.
pub struct Step {
    pub state: ObserverView,
    pub actions: Seq<ObserverActionView>,
}

impl Step {
    /// The step with more actions before its own.
    pub open spec fn after(self, actions: Seq<ObserverActionView>) -> Step {
        Step { state: self.state, actions: actions + self.actions }
    }
}

impl RoundView {
    /// The round with one more proof.
    pub open spec fn with_proof(self, target: ProofTarget, proof: Seq<u8>) -> RoundView {
        RoundView {
            proofs: self.proofs.push(
                ProofView {
                    hash: target.transaction_identifier.hash@,
                    proof: proof_text(proof),
                },
            ),
            ..self
        }
    }

    /// The round with one more request to be sent.
    pub open spec fn with_request(self, request: u64, payload: OccurrencePayload) -> RoundView {
        RoundView { requests: self.requests.push(PendingRequest { request, payload }), ..self }
    }
}

impl ObserverView {
    /// The state in another phase.
    pub open spec fn in_phase(self, phase: PhaseView) -> ObserverView {
        ObserverView { phase, ..self }
    }

    /// The step that stays in this state and does nothing more.
    pub open spec fn quietly(self) -> Step {
        Step { state: self, actions: Seq::empty() }
    }

    /// The step to another phase, with one action.
    pub open spec fn asking(self, phase: PhaseView, action: ObserverActionView) -> Step {
        Step { state: self.in_phase(phase), actions: seq![action] }
    }

    /// The actions that emit an event: none where nobody listens.
    pub open spec fn emission(self, event: ObserverEventView) -> Seq<ObserverActionView> {
        if self.links.listener {
            seq![ObserverActionView::Emit(event)]
        } else {
            Seq::empty()
        }
    }

    /// The end of the observer.
    pub open spec fn terminated(self) -> Step {
        let shutdown = if self.links.ingestion {
            seq![ObserverActionView::ShutdownIngestion]
        } else {
            Seq::empty()
        };
        Step {
            state: self.in_phase(PhaseView::Terminated),
            actions: shutdown + self.emission(
                ObserverEventView::Info("Terminating event observer"@),
            ) + self.emission(ObserverEventView::Terminate),
        }
    }

    /// A Bitcoin hook is deregistered. The monitoring hears of it only if the
    /// hook was there; the listener hears of it in any case.
    pub open spec fn bitcoin_hook_deregistered(self, uuid: String) -> Step {
        let metric = if has_hook(self.bitcoin_hooks, uuid@) {
            seq![ObserverActionView::Measure(Metric::BitcoinPredicateDeregistered)]
        } else {
            Seq::empty()
        };
        Step {
            state: ObserverView {
                bitcoin_hooks: without_hook(self.bitcoin_hooks, uuid@),
                ..self
            },
            actions: metric + self.emission(ObserverEventView::PredicateDeregistered(uuid)),
        }
    }

    /// A Stacks hook is deregistered. The monitoring hears of it only if the
    /// hook was there; the listener hears of it in any case.
    pub open spec fn stacks_hook_deregistered(self, uuid: String) -> Step {
        let metric = if has_hook(self.stacks_hooks, uuid@) {
            seq![ObserverActionView::Measure(Metric::StacksPredicateDeregistered)]
        } else {
            Seq::empty()
        };
        Step {
            state: ObserverView { stacks_hooks: without_hook(self.stacks_hooks, uuid@), ..self },
            actions: metric + self.emission(ObserverEventView::PredicateDeregistered(uuid)),
        }
    }

    /// Hooks of one chain are deregistered, one after the other.
    pub open spec fn hooks_deregistered(self, bitcoin: bool, uuids: Seq<String>) -> Step
        decreases uuids.len(),
    {
        if uuids.len() == 0 {
            self.quietly()
        } else {
            let before = self.hooks_deregistered(bitcoin, uuids.drop_last());
            let last = if bitcoin {
                before.state.bitcoin_hook_deregistered(uuids.last())
            } else {
                before.state.stacks_hook_deregistered(uuids.last())
            };
            last.after(before.actions)
        }
    }

    /// A client's Bitcoin predicate is registered, unless it has no section for
    /// the observed network. Where nobody listens it is enabled at once.
    pub open spec fn bitcoin_hook_registered(
        self,
        hook: Option<BitcoinChainhookSpecification>,
    ) -> Step {
        match hook {
            Some(spec) => {
                let hooks = self.bitcoin_hooks.push(spec);
                Step {
                    state: ObserverView {
                        bitcoin_hooks: if self.links.listener {
                            hooks
                        } else {
                            with_hook_enabled(hooks, spec.uuid@)
                        },
                        ..self
                    },
                    actions: seq![ObserverActionView::Measure(Metric::BitcoinPredicateRegistered)]
                        + self.emission(
                        ObserverEventView::PredicateRegistered(
                            ChainhookSpecification::Bitcoin(spec),
                        ),
                    ),
                }
            },
            None => self.quietly(),
        }
    }

    /// A client's Stacks predicate is registered, unless it has no section for
    /// the observed network. Where nobody listens it is enabled at once.
    pub open spec fn stacks_hook_registered(
        self,
        hook: Option<StacksChainhookSpecification>,
    ) -> Step {
        match hook {
            Some(spec) => {
                let hooks = self.stacks_hooks.push(spec);
                Step {
                    state: ObserverView {
                        stacks_hooks: if self.links.listener {
                            hooks
                        } else {
                            with_hook_enabled(hooks, spec.uuid@)
                        },
                        ..self
                    },
                    actions: seq![ObserverActionView::Measure(Metric::StacksPredicateRegistered)]
                        + self.emission(
                        ObserverEventView::PredicateRegistered(
                            ChainhookSpecification::Stacks(spec),
                        ),
                    ),
                }
            },
            None => self.quietly(),
        }
    }

    /// A predicate is enabled. The listener is told of it as it came, marked as
    /// enabled where the store has a hook of its uuid.
    pub open spec fn hook_enabled(self, spec: ChainhookSpecification) -> Step {
        match spec {
            ChainhookSpecification::Bitcoin(hook) => {
                let told = if has_hook(self.bitcoin_hooks, hook.uuid@) {
                    enabled_hook(hook)
                } else {
                    hook
                };
                Step {
                    state: ObserverView {
                        bitcoin_hooks: with_hook_enabled(self.bitcoin_hooks, hook.uuid@),
                        ..self
                    },
                    actions: self.emission(
                        ObserverEventView::PredicateEnabled(ChainhookSpecification::Bitcoin(told)),
                    ),
                }
            },
            ChainhookSpecification::Stacks(hook) => {
                let told = if has_hook(self.stacks_hooks, hook.uuid@) {
                    enabled_hook(hook)
                } else {
                    hook
                };
                Step {
                    state: ObserverView {
                        stacks_hooks: with_hook_enabled(self.stacks_hooks, hook.uuid@),
                        ..self
                    },
                    actions: self.emission(
                        ObserverEventView::PredicateEnabled(ChainhookSpecification::Stacks(told)),
                    ),
                }
            },
        }
    }

    /// A block enters the cache.
    pub open spec fn block_cached(self, block: BitcoinBlockData) -> ObserverView {
        ObserverView { blocks: filed(self.blocks, unprocessed(block)), ..self }
    }

    /// The headers of a Bitcoin chain event are resolved. Where a sidecar
    /// reworks blocks, it is asked to; otherwise the event is complete.
    pub open spec fn bitcoin_event_resolved(self, event: BlockchainEvent) -> Step {
        let required = self.links.blocks_mutator;
        let resolved = resolution(self.blocks, event, required);
        let state = ObserverView {
            blocks: cache_after_resolution(self.blocks, event, required),
            ..self
        };
        if required {
            state.asking(
                PhaseView::Mutating(resolved.pending, resolved.blocks_to_mutate),
                ObserverActionView::MutateBlocks(
                    resolved.blocks_to_mutate,
                    resolved.blocks_ids_to_rollback,
                ),
            )
        } else {
            state.bitcoin_event_completed(resolved.pending, resolved.blocks_to_mutate)
        }
    }

    /// A Bitcoin chain event is complete: the monitoring hears of a
    /// reorganisation, the sidecar of the blocks, and the active hooks are to be
    /// evaluated.
    pub open spec fn bitcoin_event_completed(
        self,
        pending: PendingChainEventView,
        updated_blocks: Seq<BitcoinBlockDataCached>,
    ) -> Step {
        let event = completion(self.blocks, pending, updated_blocks);
        let state = ObserverView {
            blocks: cache_after_completion(self.blocks, pending, updated_blocks),
            ..self
        };
        let metric = match bitcoin_reorg(event) {
            Some(reorg) => seq![ObserverActionView::Measure(Metric::BitcoinReorg(reorg))],
            None => Seq::empty(),
        };
        let messages = if self.links.chain_event_notifier {
            notifications(event).map_values(
                |message: HandleBlock| ObserverActionView::Notify(message),
            )
        } else {
            Seq::empty()
        };
        state.asking(
            PhaseView::Evaluating(EventView::BitcoinChainEvent(event), pending.new_tip),
            ObserverActionView::EvaluateBitcoin(event, active_hooks(self.bitcoin_hooks)),
        ).after(metric + messages)
    }

    /// A Stacks chain event came: the monitoring hears of a reorganisation, and
    /// the active hooks are to be evaluated.
    pub open spec fn stacks_event_received(self, event: StacksChainEventView) -> Step {
        let metric = match stacks_reorg(event) {
            Some(reorg) => seq![ObserverActionView::Measure(Metric::StacksReorg(reorg))],
            None => Seq::empty(),
        };
        self.asking(
            PhaseView::Evaluating(EventView::StacksChainEvent(event), stacks_tip(event)),
            ObserverActionView::EvaluateStacks(event, active_hooks(self.stacks_hooks)),
        ).after(metric)
    }

    /// The round that an evaluation starts with: the triggers within their limits
    /// make it up, and the predicates of the others are to be deregistered.
    /// Proofs are for the Bitcoin chain alone.
    pub open spec fn first_round(
        self,
        event: EventView,
        new_tip: u64,
        evaluation: Evaluation,
    ) -> RoundView {
        let triggers = admitted(self.occurrences, evaluation.predicates_triggered@);
        RoundView {
            event,
            new_tip,
            report: evaluation.spec_report(),
            triggers,
            hooks_ids_to_deregister: exhausted(
                self.occurrences,
                evaluation.predicates_triggered@,
            ),
            requests: Seq::empty(),
            targets: if event is BitcoinChainEvent {
                trigger_targets(triggers)
            } else {
                Seq::empty()
            },
            proofs: Seq::empty(),
        }
    }

    /// The actions that get ready for proofs, where some triggers want them.
    pub open spec fn preparation(round: RoundView) -> Seq<ObserverActionView> {
        if round.event is BitcoinChainEvent && wants_proofs(round.triggers) {
            seq![ObserverActionView::ConnectNode]
        } else {
            Seq::empty()
        }
    }

    /// The predicates are evaluated: the triggers are counted, and a round
    /// starts.
    pub open spec fn evaluated(
        self,
        event: EventView,
        new_tip: u64,
        evaluation: Evaluation,
    ) -> Step {
        let state = ObserverView {
            occurrences: all_counted(self.occurrences, evaluation.predicates_triggered@),
            ..self
        };
        let round = self.first_round(event, new_tip, evaluation);
        state.proofs_wanted(round).after(Self::preparation(round))
    }

    /// The next proof that is not at hand is asked for. Once there is none, the
    /// listener hears how many predicates are triggered, and their actions are
    /// handled.
    pub open spec fn proofs_wanted(self, round: RoundView) -> Step {
        match next_target(round.targets, round.proofs) {
            Some((target, rest)) => self.asking(
                PhaseView::CollectingProof(RoundView { targets: rest, ..round }, target),
                ObserverActionView::CollectProof(target),
            ),
            None => self.triggers_wanted(RoundView { targets: Seq::empty(), ..round }).after(
                self.emission(ObserverEventView::PredicatesTriggered(round.triggers.len())),
            ),
        }
    }

    /// The next trigger's action is handled. Once there is none, the exhausted
    /// predicates are deregistered, and the requests are sent.
    pub open spec fn triggers_wanted(self, round: RoundView) -> Step {
        if round.triggers.len() > 0 {
            let rest = RoundView { triggers: round.triggers.drop_first(), ..round };
            self.asking(
                PhaseView::HandlingTrigger(rest),
                match round.event {
                    EventView::BitcoinChainEvent(_) => ObserverActionView::HandleBitcoinTrigger(
                        round.triggers.first(),
                        round.proofs,
                    ),
                    EventView::StacksChainEvent(_) => ObserverActionView::HandleStacksTrigger(
                        round.triggers.first(),
                    ),
                },
            )
        } else {
            let deregistered = self.hooks_deregistered(
                round.event is BitcoinChainEvent,
                round.hooks_ids_to_deregister,
            );
            deregistered.state.requests_wanted(
                RoundView { hooks_ids_to_deregister: Seq::empty(), ..round },
            ).after(deregistered.actions)
        }
    }

    /// What the end of a round comes to: the monitoring hears of the new tip, and
    /// the listener of the chain event and the report.
    pub open spec fn conclusion(self, round: RoundView) -> Seq<ObserverActionView> {
        let (metric, event) = match round.event {
            EventView::BitcoinChainEvent(event) => (
                Metric::BitcoinBlockEvaluated(round.new_tip),
                ObserverEventView::BitcoinChainEvent(event, round.report),
            ),
            EventView::StacksChainEvent(event) => (
                Metric::StacksBlockEvaluated(round.new_tip),
                ObserverEventView::StacksChainEvent(event, round.report),
            ),
        };
        seq![ObserverActionView::Measure(metric)] + self.emission(event)
    }

    /// The next request is sent. Once there is none, the round is over.
    pub open spec fn requests_wanted(self, round: RoundView) -> Step {
        if round.requests.len() > 0 {
            let rest = RoundView { requests: round.requests.drop_first(), ..round };
            self.asking(
                PhaseView::SendingRequest(rest, round.requests.first().payload),
                ObserverActionView::SendRequest {
                    request: round.requests.first().request,
                    attempts_max: REQUEST_ATTEMPTS,
                    attempts_interval_seconds: REQUEST_INTERVAL_SECONDS,
                },
            )
        } else {
            Step { state: self.in_phase(PhaseView::Idle), actions: self.conclusion(round) }
        }
    }

    /// The listener hears of an occurrence.
    pub open spec fn occurrence_told(self, payload: OccurrencePayload) -> Seq<ObserverActionView> {
        match payload {
            OccurrencePayload::Bitcoin(payload) => self.emission(
                ObserverEventView::BitcoinPredicateTriggered(payload),
            ),
            OccurrencePayload::Stacks(payload) => self.emission(
                ObserverEventView::StacksPredicateTriggered(payload),
            ),
        }
    }

    /// A request could not be sent: its predicate is removed, and the listener
    /// hears that it was interrupted.
    pub open spec fn predicate_interrupted(
        self,
        payload: OccurrencePayload,
        predicate_key: String,
        error: Seq<char>,
    ) -> Step {
        Step {
            state: match payload {
                OccurrencePayload::Bitcoin(payload) => ObserverView {
                    bitcoin_hooks: without_hook(self.bitcoin_hooks, payload.chainhook.uuid@),
                    ..self
                },
                OccurrencePayload::Stacks(payload) => ObserverView {
                    stacks_hooks: without_hook(self.stacks_hooks, payload.chainhook.uuid@),
                    ..self
                },
            },
            actions: self.emission(
                ObserverEventView::PredicateInterrupted {
                    predicate_key,
                    error: "Unable to evaluate predicate on Bitcoin chainstate: "@ + error,
                },
            ),
        }
    }

    /// The Bitcoin node answered the request for a proof: a proof that could be
    /// had is kept.
    pub open spec fn proof_handled(
        self,
        round: RoundView,
        target: ProofTarget,
        answer: Result<Vec<u8>, String>,
    ) -> Step {
        match answer {
            Ok(proof) => self.proofs_wanted(round.with_proof(target, proof@)),
            Err(_) => self.proofs_wanted(round),
        }
    }

    /// A trigger's action is handled: a request is kept until all triggers are
    /// handled, and the listener hears of data at once.
    pub open spec fn occurrence_handled(
        self,
        round: RoundView,
        occurrence: Option<ChainhookOccurrence>,
    ) -> Step {
        match occurrence {
            Some(ChainhookOccurrence::Http(request, payload)) => self.triggers_wanted(
                round.with_request(request, payload),
            ),
            Some(ChainhookOccurrence::Data(payload)) => self.triggers_wanted(round).after(
                self.occurrence_told(payload),
            ),
            _ => self.triggers_wanted(round),
        }
    }

    /// A request was sent, and the listener hears of the occurrence; or it could
    /// not be, and the predicate is interrupted.
    pub open spec fn request_handled(
        self,
        round: RoundView,
        payload: OccurrencePayload,
        outcome: Result<(), String>,
        predicate_key: String,
    ) -> Step {
        match outcome {
            Ok(_) => self.requests_wanted(round).after(self.occurrence_told(payload)),
            Err(error) => {
                let interrupted = self.predicate_interrupted(payload, predicate_key, error@);
                interrupted.state.requests_wanted(round).after(interrupted.actions)
            },
        }
    }

    /// What a command leads to.
    pub open spec fn on_command(self, command: ObserverCommand) -> Step {
        match command {
            ObserverCommand::ProcessBitcoinBlock(block) => self.asking(
                PhaseView::Standardizing(
                    BlockAttempt { block, block_hash: block.hash, attempts: 0 },
                ),
                ObserverActionView::Standardize(block),
            ),
            ObserverCommand::CacheBitcoinBlock(block) => self.block_cached(block).quietly(),
            ObserverCommand::PropagateBitcoinChainEvent(event) => {
                self.bitcoin_event_resolved(event)
            },
            ObserverCommand::PropagateStacksChainEvent(event) => self.stacks_event_received(event@),
            ObserverCommand::PropagateStacksMempoolEvent(event) => Step {
                state: self,
                actions: self.emission(ObserverEventView::StacksChainMempoolEvent(event@)),
            },
            ObserverCommand::RegisterPredicate(ChainhookFullSpecification::Bitcoin(hook)) => {
                self.bitcoin_hook_registered(hook.on(self.bitcoin_network))
            },
            ObserverCommand::RegisterPredicate(ChainhookFullSpecification::Stacks(hook)) => {
                self.stacks_hook_registered(hook.on(self.stacks_network))
            },
            ObserverCommand::EnablePredicate(spec) => self.hook_enabled(spec),
            ObserverCommand::DeregisterBitcoinPredicate(uuid) => self.bitcoin_hook_deregistered(
                uuid,
            ),
            ObserverCommand::DeregisterStacksPredicate(uuid) => self.stacks_hook_deregistered(uuid),
            ObserverCommand::ExpireBitcoinPredicate(data) => ObserverView {
                bitcoin_hooks: with_hook_expired(
                    self.bitcoin_hooks,
                    data.hook_uuid@,
                    data.block_height,
                ),
                ..self
            }.quietly(),
            ObserverCommand::ExpireStacksPredicate(data) => ObserverView {
                stacks_hooks: with_hook_expired(
                    self.stacks_hooks,
                    data.hook_uuid@,
                    data.block_height,
                ),
                ..self
            }.quietly(),
            ObserverCommand::NotifyBitcoinTransactionProxied => Step {
                state: self,
                actions: self.emission(ObserverEventView::NotifyBitcoinTransactionProxied),
            },
            ObserverCommand::Terminate => self.terminated(),
        }
    }

    /// What a failed attempt to standardise a block leads to: another attempt,
    /// for which the block may be downloaded anew, or the end of the observer
    /// once too many failed.
    pub open spec fn block_rejected(self, attempt: BlockAttempt, refetch_block: bool) -> Step {
        if attempt.attempts + 1 > MAX_ATTEMPTS {
            self.terminated()
        } else {
            let next = BlockAttempt { attempts: (attempt.attempts + 1) as u32, ..attempt };
            if refetch_block {
                self.asking(
                    PhaseView::Downloading(next),
                    ObserverActionView::Download(next.block_hash),
                )
            } else {
                self.asking(
                    PhaseView::Standardizing(next),
                    ObserverActionView::Standardize(next.block),
                )
            }
        }
    }

    /// Whether an input answers what the observer waits for. An evaluation must
    /// not lead to a count that cannot be written down.
    pub open spec fn accepts(self, input: ObserverInput) -> bool {
        match (self.phase, input) {
            (PhaseView::Idle, ObserverInput::Command(_)) => true,
            (PhaseView::Idle, ObserverInput::CommandsClosed) => true,
            (PhaseView::Standardizing(_), ObserverInput::BlockStandardized(_)) => true,
            (PhaseView::Standardizing(_), ObserverInput::BlockRejected { .. }) => true,
            (PhaseView::Downloading(_), ObserverInput::BlockDownloaded(_)) => true,
            (PhaseView::Mutating(_, _), ObserverInput::BlocksMutated(_)) => true,
            (PhaseView::Evaluating(_, _), ObserverInput::Evaluated(evaluation)) => tally_fits(
                self.occurrences,
                evaluation.predicates_triggered@,
            ),
            (PhaseView::CollectingProof(_, _), ObserverInput::ProofCollected(_)) => true,
            (PhaseView::HandlingTrigger(round), ObserverInput::TriggerHandled(occurrence)) => {
                match occurrence {
                    Some(ChainhookOccurrence::Http(_, payload)) => payload.of_chain(round.event),
                    Some(ChainhookOccurrence::Data(payload)) => payload.of_chain(round.event),
                    _ => true,
                }
            },
            (PhaseView::SendingRequest(_, _), ObserverInput::RequestSent { .. }) => true,
            _ => false,
        }
    }

    /// The step that an input leads to. Once its question is answered, the
    /// observer is idle until it asks the next. An input that answers nothing
    /// that the observer waits for leads nowhere.
    pub open spec fn step(self, input: ObserverInput) -> Step {
        let state = self.in_phase(PhaseView::Idle);
        match (self.phase, input) {
            (PhaseView::Idle, ObserverInput::Command(command)) => state.on_command(command),
            (PhaseView::Idle, ObserverInput::CommandsClosed) => state.terminated(),
            (PhaseView::Standardizing(_), ObserverInput::BlockStandardized(block)) => {
                state.block_cached(block).quietly()
            },
            (PhaseView::Standardizing(attempt), ObserverInput::BlockRejected { refetch_block }) => {
                state.block_rejected(attempt, refetch_block)
            },
            (PhaseView::Downloading(attempt), ObserverInput::BlockDownloaded(downloaded)) => {
                let block = match downloaded {
                    Some(block) => block,
                    None => attempt.block,
                };
                state.asking(
                    PhaseView::Standardizing(BlockAttempt { block, ..attempt }),
                    ObserverActionView::Standardize(block),
                )
            },
            (PhaseView::Mutating(pending, blocks), ObserverInput::BlocksMutated(reply)) => {
                state.bitcoin_event_completed(
                    pending,
                    match reply {
                        Some(updated_blocks) => updated_blocks@,
                        None => blocks,
                    },
                )
            },
            (PhaseView::Evaluating(event, new_tip), ObserverInput::Evaluated(evaluation)) => {
                state.evaluated(event, new_tip, evaluation)
            },
            (PhaseView::CollectingProof(round, target), ObserverInput::ProofCollected(answer)) => {
                state.proof_handled(round, target, answer)
            },
            (PhaseView::HandlingTrigger(round), ObserverInput::TriggerHandled(occurrence)) => {
                state.occurrence_handled(round, occurrence)
            },
            (
                PhaseView::SendingRequest(round, payload),
                ObserverInput::RequestSent { outcome, predicate_key },
            ) => state.request_handled(round, payload, outcome, predicate_key),
            _ => self.quietly(),
        }
    }
}

} // verus!
