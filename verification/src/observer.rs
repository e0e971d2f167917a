//! The observer: a state machine that handles commands one at a time.
//!
//! The machine decides; whoever drives it acts. It hands out actions, to be
//! performed in order. Where the last of them asks for something (a block to be
//! standardised, predicates to be evaluated, a request to be sent), the driver
//! feeds the answer back in, and goes on so until the machine is idle and takes
//! the next command.

use vstd::prelude::*;

use crate::blocks::{BitcoinBlockDataCached, BitcoinBlockStore, PendingChainEvent};
use crate::chain::{BitcoinBlockData, BlockchainEvent, Event, StacksChainEvent};
use crate::commands::{HookExpirationData, ObserverCommand, ObserverEvent, PredicateInterruptedData};
use crate::config::EventObserverConfig;
use crate::hooks::{ChainhookFullSpecification, ChainhookSpecification, ChainhookStore};
use crate::laws::validity::{every_step_keeps_the_observer_valid, is_valid};
use crate::metrics::{measure_bitcoin_reorg, measure_stacks_reorg, measure_stacks_tip, Metric};
use crate::network::{BitcoinNetwork, StacksNetwork};
use crate::proofs::{
    any_wants_proofs, gather_all_proofs, get_bitcoin_proof, held, take_next_target, ProofTarget,
    TransactionProof,
};
use crate::protocol::{
    all_wf, seen, BlockAttempt, ChainhookOccurrence, ObserverAction, ObserverActionView,
    ObserverInput, ObserverLinks, OccurrencePayload, PendingRequest, Phase, PhaseView, Round,
    REQUEST_ATTEMPTS, REQUEST_INTERVAL_SECONDS,
};
use crate::sidecar::{
    notify_chain_event, perform_bitcoin_sidecar_mutations, HandleBlock, ObserverSidecar,
};
use crate::text::wrap_text;
use crate::transition::{ObserverView, Step, MAX_ATTEMPTS};
use crate::triggers::{tally_fits, Evaluation, OccurrenceTracker};

verus! {

/// An observer.
pub struct Observer {
    links: ObserverLinks,
    bitcoin_network: BitcoinNetwork,
    stacks_network: StacksNetwork,
    store: ChainhookStore,
    occurrences: OccurrenceTracker,
    blocks: BitcoinBlockStore,
    phase: Phase,
}

impl View for Observer {
    type V = ObserverView;

    closed spec fn view(&self) -> ObserverView {
        ObserverView {
            links: self.links,
            bitcoin_network: self.bitcoin_network,
            stacks_network: self.stacks_network,
            bitcoin_hooks: self.store.predicates.bitcoin_chainhooks@,
            stacks_hooks: self.store.predicates.stacks_chainhooks@,
            occurrences: self.occurrences@,
            blocks: self.blocks@,
            phase: self.phase@,
        }
    }
}

/// A step was taken: the state is the one that it leads to, and its actions were
/// added to those before.
pub open spec fn taken(
    step: Step,
    state: ObserverView,
    before: Seq<ObserverAction>,
    after: Seq<ObserverAction>,
) -> bool {
    &&& state == step.state
    &&& seen(after) == seen(before) + step.actions
    &&& all_wf(before) ==> all_wf(after)
}

/// Adds an action.
fn push_action(out: &mut Vec<ObserverAction>, action: ObserverAction)
    requires
        action.wf(),
    ensures
        seen(final(out)@) == seen(old(out)@).push(action@),
        all_wf(old(out)@) ==> all_wf(final(out)@),
{
    out.push(action);
    assert(seen(out@) =~= seen(old(out)@).push(action@));
}

/// Adds the messages to a sidecar.
fn push_notifications(out: &mut Vec<ObserverAction>, messages: Vec<HandleBlock>)
    ensures
        seen(final(out)@) == seen(old(out)@) + messages@.map_values(
            |message: HandleBlock| ObserverActionView::Notify(message),
        ),
        all_wf(old(out)@) ==> all_wf(final(out)@),
{
    let ghost told = messages@.map_values(
        |message: HandleBlock| ObserverActionView::Notify(message),
    );
    assert(seen(out@) =~= seen(old(out)@) + told.take(0));
    for message in iter: messages.into_iter()
        invariant
            iter.seq() == messages@,
            told == messages@.map_values(
                |message: HandleBlock| ObserverActionView::Notify(message),
            ),
            seen(out@) == seen(old(out)@) + told.take(iter.index()),
            all_wf(old(out)@) ==> all_wf(out@),
    {
        push_action(out, ObserverAction::Notify(message));
        assert(seen(out@) =~= seen(old(out)@) + told.take(iter.index() + 1));
    }
    assert(told.take(told.len() as int) =~= told);
}

impl Observer {
    /// The observer is in a valid state, and what it holds is well-formed.
    pub closed spec fn wf(&self) -> bool {
        self.sound() && is_valid(self@)
    }

    /// What the observer holds is well-formed.
    closed spec fn sound(&self) -> bool {
        self.phase.wf()
    }

    /// Emits an event, if anyone listens.
    fn emit(&self, event: ObserverEvent, out: &mut Vec<ObserverAction>)
        requires
            event.wf(),
        ensures
            seen(final(out)@) == seen(old(out)@) + self@.emission(event@),
            all_wf(old(out)@) ==> all_wf(final(out)@),
    {
        if self.links.listener {
            push_action(out, ObserverAction::Emit(event));
        }
        assert(seen(out@) =~= seen(old(out)@) + self@.emission(event@));
    }

    /// Ends the observer.
    fn terminate(&mut self, out: &mut Vec<ObserverAction>)
        ensures
            final(self).sound(),
            taken(old(self)@.terminated(), final(self)@, old(out)@, final(out)@),
    {
        if self.links.ingestion {
            push_action(out, ObserverAction::ShutdownIngestion);
        }
        self.emit(ObserverEvent::Info("Terminating event observer".to_string()), out);
        self.emit(ObserverEvent::Terminate, out);
        self.phase = Phase::Terminated;
        assert(seen(out@) =~= seen(old(out)@) + old(self)@.terminated().actions);
    }

    /// Deregisters a Bitcoin hook.
    fn deregister_bitcoin_hook(&mut self, uuid: String, out: &mut Vec<ObserverAction>)
        requires
            old(self).sound(),
        ensures
            final(self).sound(),
            taken(
                old(self)@.bitcoin_hook_deregistered(uuid),
                final(self)@,
                old(out)@,
                final(out)@,
            ),
    {
        if self.store.predicates.deregister_bitcoin_hook(uuid.as_str()).is_some() {
            push_action(out, ObserverAction::Measure(Metric::BitcoinPredicateDeregistered));
        }
        self.emit(ObserverEvent::PredicateDeregistered(uuid), out);
        assert(seen(out@) =~= seen(old(out)@) + old(self)@.bitcoin_hook_deregistered(uuid).actions);
    }

    /// Deregisters a Stacks hook.
    fn deregister_stacks_hook(&mut self, uuid: String, out: &mut Vec<ObserverAction>)
        requires
            old(self).sound(),
        ensures
            final(self).sound(),
            taken(
                old(self)@.stacks_hook_deregistered(uuid),
                final(self)@,
                old(out)@,
                final(out)@,
            ),
    {
        if self.store.predicates.deregister_stacks_hook(uuid.as_str()).is_some() {
            push_action(out, ObserverAction::Measure(Metric::StacksPredicateDeregistered));
        }
        self.emit(ObserverEvent::PredicateDeregistered(uuid), out);
        assert(seen(out@) =~= seen(old(out)@) + old(self)@.stacks_hook_deregistered(uuid).actions);
    }

    /// Deregisters hooks of one chain, one after the other.
    fn deregister_hooks(
        &mut self,
        bitcoin: bool,
        uuids: Vec<String>,
        out: &mut Vec<ObserverAction>,
    )
        requires
            old(self).sound(),
        ensures
            final(self).sound(),
            taken(
                old(self)@.hooks_deregistered(bitcoin, uuids@),
                final(self)@,
                old(out)@,
                final(out)@,
            ),
    {
        assert(seen(out@) =~= seen(old(out)@) + old(self)@.hooks_deregistered(
            bitcoin,
            uuids@.take(0),
        ).actions);
        for uuid in iter: uuids.into_iter()
            invariant
                iter.seq() == uuids@,
                self.sound(),
                taken(
                    old(self)@.hooks_deregistered(bitcoin, uuids@.take(iter.index())),
                    self@,
                    old(out)@,
                    out@,
                ),
        {
            let ghost before = old(self)@.hooks_deregistered(bitcoin, uuids@.take(iter.index()));
            let ghost after = old(self)@.hooks_deregistered(bitcoin, uuids@.take(iter.index() + 1));
            assert(uuids@.take(iter.index() + 1).drop_last() =~= uuids@.take(iter.index()));
            if bitcoin {
                self.deregister_bitcoin_hook(uuid, out);
            } else {
                self.deregister_stacks_hook(uuid, out);
            }
            assert(seen(out@) =~= seen(old(out)@) + after.actions);
        }
        assert(uuids@.take(uuids@.len() as int) =~= uuids@);
    }

    /// Registers a client's predicate.
    fn register_predicate(
        &mut self,
        hook: ChainhookFullSpecification,
        out: &mut Vec<ObserverAction>,
    )
        requires
            old(self).sound(),
        ensures
            final(self).sound(),
            taken(
                old(self)@.on_command(ObserverCommand::RegisterPredicate(hook)),
                final(self)@,
                old(out)@,
                final(out)@,
            ),
    {
        let ghost step = old(self)@.on_command(ObserverCommand::RegisterPredicate(hook));
        let bitcoin_network = self.bitcoin_network;
        let stacks_network = self.stacks_network;
        match self.store.predicates.register_full_specification(
            (&bitcoin_network, &stacks_network),
            hook,
        ) {
            Some(spec) => {
                let metric = match spec {
                    ChainhookSpecification::Bitcoin(_) => Metric::BitcoinPredicateRegistered,
                    ChainhookSpecification::Stacks(_) => Metric::StacksPredicateRegistered,
                };
                push_action(out, ObserverAction::Measure(metric));
                if self.links.listener {
                    self.emit(ObserverEvent::PredicateRegistered(spec), out);
                } else {
                    let mut spec = spec;
                    self.store.predicates.enable_specification(&mut spec);
                }
            },
            None => {},
        }
        assert(seen(out@) =~= seen(old(out)@) + step.actions);
    }

    /// Enables a predicate.
    fn enable_predicate(&mut self, spec: ChainhookSpecification, out: &mut Vec<ObserverAction>)
        requires
            old(self).sound(),
        ensures
            final(self).sound(),
            taken(old(self)@.hook_enabled(spec), final(self)@, old(out)@, final(out)@),
    {
        let mut enabled = spec;
        self.store.predicates.enable_specification(&mut enabled);
        self.emit(ObserverEvent::PredicateEnabled(enabled), out);
    }

    /// Files a block in the cache.
    fn cache_block(&mut self, block: BitcoinBlockData)
        requires
            old(self).sound(),
        ensures
            final(self).sound(),
            final(self)@ == old(self)@.block_cached(block),
    {
        self.blocks.insert(BitcoinBlockDataCached { block, processed_by_sidecar: false });
    }

    /// Asks the driver for something, and waits for the answer in a phase.
    fn ask(&mut self, phase: Phase, action: ObserverAction, out: &mut Vec<ObserverAction>)
        requires
            phase.wf(),
            action.wf(),
        ensures
            final(self).sound(),
            taken(old(self)@.asking(phase@, action@), final(self)@, old(out)@, final(out)@),
    {
        push_action(out, action);
        self.phase = phase;
        assert(seen(out@) =~= seen(old(out)@) + seq![action@]);
    }

    /// Goes on with a Bitcoin chain event whose blocks are known.
    fn complete_bitcoin_event(
        &mut self,
        pending: PendingChainEvent,
        updated_blocks: Vec<BitcoinBlockDataCached>,
        out: &mut Vec<ObserverAction>,
    )
        ensures
            final(self).sound(),
            taken(
                old(self)@.bitcoin_event_completed(pending@, updated_blocks@),
                final(self)@,
                old(out)@,
                final(out)@,
            ),
    {
        let ghost step = old(self)@.bitcoin_event_completed(pending@, updated_blocks@);
        let new_tip: u64 = pending.new_tip;
        let event = self.blocks.complete(pending, updated_blocks);
        if let Some(reorg) = measure_bitcoin_reorg(&event) {
            push_action(out, ObserverAction::Measure(Metric::BitcoinReorg(reorg)));
        }
        if self.links.chain_event_notifier {
            push_notifications(out, notify_chain_event(&event));
        }
        let hooks = self.store.predicates.active_bitcoin_hooks();
        let evaluated = event.clone();
        self.ask(
            Phase::Evaluating(Event::BitcoinChainEvent(event), new_tip),
            ObserverAction::EvaluateBitcoin(evaluated, hooks),
            out,
        );
        assert(seen(out@) =~= seen(old(out)@) + step.actions);
    }

    /// Propagates a Bitcoin chain event.
    fn propagate_bitcoin_event(&mut self, event: BlockchainEvent, out: &mut Vec<ObserverAction>)
        ensures
            final(self).sound(),
            taken(old(self)@.bitcoin_event_resolved(event), final(self)@, old(out)@, final(out)@),
    {
        let required = self.links.blocks_mutator;
        let resolved = self.blocks.resolve(event, required);
        if required {
            let blocks = resolved.blocks_to_mutate.clone();
            assert(blocks@ =~= resolved.blocks_to_mutate@);
            self.ask(
                Phase::Mutating(resolved.pending, resolved.blocks_to_mutate),
                ObserverAction::MutateBlocks(blocks, resolved.blocks_ids_to_rollback),
                out,
            );
        } else {
            self.complete_bitcoin_event(resolved.pending, resolved.blocks_to_mutate, out);
        }
    }

    /// Propagates a Stacks chain event.
    fn propagate_stacks_event(&mut self, event: StacksChainEvent, out: &mut Vec<ObserverAction>)
        ensures
            final(self).sound(),
            taken(old(self)@.stacks_event_received(event@), final(self)@, old(out)@, final(out)@),
    {
        let ghost step = old(self)@.stacks_event_received(event@);
        if let Some(reorg) = measure_stacks_reorg(&event) {
            push_action(out, ObserverAction::Measure(Metric::StacksReorg(reorg)));
        }
        let new_tip: u64 = measure_stacks_tip(&event);
        let hooks = self.store.predicates.active_stacks_hooks();
        let evaluated = event.clone();
        self.ask(
            Phase::Evaluating(Event::StacksChainEvent(event), new_tip),
            ObserverAction::EvaluateStacks(evaluated, hooks),
            out,
        );
        assert(seen(out@) =~= seen(old(out)@) + step.actions);
    }

    /// Tells the listener of an occurrence.
    fn tell_occurrence(&self, payload: OccurrencePayload, out: &mut Vec<ObserverAction>)
        ensures
            seen(final(out)@) == seen(old(out)@) + self@.occurrence_told(payload),
            all_wf(old(out)@) ==> all_wf(final(out)@),
    {
        match payload {
            OccurrencePayload::Bitcoin(payload) => {
                self.emit(ObserverEvent::BitcoinPredicateTriggered(payload), out);
            },
            OccurrencePayload::Stacks(payload) => {
                self.emit(ObserverEvent::StacksPredicateTriggered(payload), out);
            },
        }
    }

    /// Removes the predicate of a request that could not be sent.
    fn interrupt_predicate(
        &mut self,
        payload: OccurrencePayload,
        predicate_key: String,
        error: String,
        out: &mut Vec<ObserverAction>,
    )
        requires
            old(self).sound(),
        ensures
            final(self).sound(),
            taken(
                old(self)@.predicate_interrupted(payload, predicate_key, error@),
                final(self)@,
                old(out)@,
                final(out)@,
            ),
    {
        match payload {
            OccurrencePayload::Bitcoin(payload) => {
                self.store.predicates.deregister_bitcoin_hook(payload.chainhook.uuid.as_str());
            },
            OccurrencePayload::Stacks(payload) => {
                self.store.predicates.deregister_stacks_hook(payload.chainhook.uuid.as_str());
            },
        }
        let message = wrap_text(
            "Unable to evaluate predicate on Bitcoin chainstate: ",
            error.as_str(),
            "",
        );
        proof {
            reveal_strlit("");
            assert(message@ =~= "Unable to evaluate predicate on Bitcoin chainstate: "@ + error@);
        }
        self.emit(
            ObserverEvent::PredicateInterrupted(
                PredicateInterruptedData { predicate_key, error: message },
            ),
            out,
        );
    }

    /// Sends the next request, or ends the round.
    fn want_requests(&mut self, round: Round, out: &mut Vec<ObserverAction>)
        requires
            round.report.wf(),
        ensures
            final(self).sound(),
            taken(old(self)@.requests_wanted(round@), final(self)@, old(out)@, final(out)@),
    {
        let ghost step = old(self)@.requests_wanted(round@);
        let mut round = round;
        if round.requests.len() > 0 {
            let ghost requests = round.requests@;
            let PendingRequest { request, payload } = round.requests.remove(0);
            assert(round.requests@ =~= requests.drop_first());
            self.ask(
                Phase::SendingRequest(round, payload),
                ObserverAction::SendRequest {
                    request,
                    attempts_max: REQUEST_ATTEMPTS,
                    attempts_interval_seconds: REQUEST_INTERVAL_SECONDS,
                },
                out,
            );
        } else {
            match round.event {
                Event::BitcoinChainEvent(event) => {
                    push_action(
                        out,
                        ObserverAction::Measure(Metric::BitcoinBlockEvaluated(round.new_tip)),
                    );
                    self.emit(ObserverEvent::BitcoinChainEvent((event, round.report)), out);
                },
                Event::StacksChainEvent(event) => {
                    push_action(
                        out,
                        ObserverAction::Measure(Metric::StacksBlockEvaluated(round.new_tip)),
                    );
                    self.emit(ObserverEvent::StacksChainEvent((event, round.report)), out);
                },
            }
            self.phase = Phase::Idle;
            assert(seen(out@) =~= seen(old(out)@) + step.actions);
        }
    }

    /// Handles the next trigger, or goes on to the requests.
    fn want_triggers(&mut self, round: Round, out: &mut Vec<ObserverAction>)
        requires
            old(self).sound(),
            round.report.wf(),
        ensures
            final(self).sound(),
            taken(old(self)@.triggers_wanted(round@), final(self)@, old(out)@, final(out)@),
    {
        let ghost step = old(self)@.triggers_wanted(round@);
        let mut round = round;
        if round.triggers.len() > 0 {
            let ghost triggers = round.triggers@;
            let trigger = round.triggers.remove(0);
            assert(round.triggers@ =~= triggers.drop_first());
            let action = match &round.event {
                Event::BitcoinChainEvent(_) => {
                    let proofs = round.proofs.clone();
                    assert(proofs@ =~= round.proofs@);
                    ObserverAction::HandleBitcoinTrigger(trigger, proofs)
                },
                Event::StacksChainEvent(_) => ObserverAction::HandleStacksTrigger(trigger),
            };
            self.ask(Phase::HandlingTrigger(round), action, out);
        } else {
            let bitcoin = match &round.event {
                Event::BitcoinChainEvent(_) => true,
                Event::StacksChainEvent(_) => false,
            };
            let mut hooks_ids_to_deregister: Vec<String> = Vec::new();
            core::mem::swap(&mut hooks_ids_to_deregister, &mut round.hooks_ids_to_deregister);
            self.deregister_hooks(bitcoin, hooks_ids_to_deregister, out);
            self.want_requests(round, out);
            assert(seen(out@) =~= seen(old(out)@) + step.actions);
        }
    }

    /// Asks for the next proof, or goes on to the triggers.
    fn want_proofs(&mut self, round: Round, out: &mut Vec<ObserverAction>)
        requires
            old(self).sound(),
            round.report.wf(),
        ensures
            final(self).sound(),
            taken(old(self)@.proofs_wanted(round@), final(self)@, old(out)@, final(out)@),
    {
        let ghost step = old(self)@.proofs_wanted(round@);
        let mut round = round;
        match take_next_target(&mut round.targets, &round.proofs) {
            Some(target) => {
                let wanted = target.clone();
                self.ask(
                    Phase::CollectingProof(round, target),
                    ObserverAction::CollectProof(wanted),
                    out,
                );
            },
            None => {
                assert(round.targets@ =~= Seq::empty());
                self.emit(ObserverEvent::PredicatesTriggered(round.triggers.len()), out);
                self.want_triggers(round, out);
                assert(seen(out@) =~= seen(old(out)@) + step.actions);
            },
        }
    }

    /// Starts a round with what the evaluation found.
    fn start_round(
        &mut self,
        event: Event,
        new_tip: u64,
        evaluation: Evaluation,
        out: &mut Vec<ObserverAction>,
    )
        requires
            old(self).sound(),
            tally_fits(old(self)@.occurrences, evaluation.predicates_triggered@),
        ensures
            final(self).sound(),
            taken(
                old(self)@.evaluated(event@, new_tip, evaluation),
                final(self)@,
                old(out)@,
                final(out)@,
            ),
    {
        let report = evaluation.report();
        let (triggers, hooks_ids_to_deregister) = self.occurrences.count_triggers(
            evaluation.predicates_triggered,
        );
        let (wanted, targets) = match &event {
            Event::BitcoinChainEvent(_) => {
                (any_wants_proofs(&triggers), gather_all_proofs(&triggers))
            },
            Event::StacksChainEvent(_) => (false, Vec::new()),
        };
        let round = Round {
            event,
            new_tip,
            report,
            triggers,
            hooks_ids_to_deregister,
            requests: Vec::new(),
            targets,
            proofs: Vec::new(),
        };
        assert(held(round.proofs@) =~= Seq::empty());
        let ghost preparation = ObserverView::preparation(round@);
        if wanted {
            push_action(out, ObserverAction::ConnectNode);
        }
        assert(seen(out@) =~= seen(old(out)@) + preparation);
        self.want_proofs(round, out);
        assert(seen(out@) =~= seen(old(out)@) + old(self)@.evaluated(
            event@,
            new_tip,
            evaluation,
        ).actions);
    }

    /// Tries again to standardise a block, or gives up.
    fn retry_block(
        &mut self,
        attempt: BlockAttempt,
        refetch_block: bool,
        out: &mut Vec<ObserverAction>,
    )
        ensures
            final(self).sound(),
            taken(
                old(self)@.block_rejected(attempt, refetch_block),
                final(self)@,
                old(out)@,
                final(out)@,
            ),
    {
        if attempt.attempts >= MAX_ATTEMPTS {
            self.terminate(out);
        } else {
            let next = BlockAttempt { attempts: attempt.attempts + 1, ..attempt };
            if refetch_block {
                let hash = next.block_hash.clone();
                self.ask(Phase::Downloading(next), ObserverAction::Download(hash), out);
            } else {
                let block = next.block.clone();
                self.ask(Phase::Standardizing(next), ObserverAction::Standardize(block), out);
            }
        }
    }

    /// Handles a command.
    fn handle_command(&mut self, command: ObserverCommand, out: &mut Vec<ObserverAction>)
        requires
            old(self).sound(),
        ensures
            final(self).sound(),
            taken(old(self)@.on_command(command), final(self)@, old(out)@, final(out)@),
    {
        let ghost step = old(self)@.on_command(command);
        match command {
            ObserverCommand::ProcessBitcoinBlock(block) => {
                let block_hash = block.hash.clone();
                let attempt = BlockAttempt { block: block.clone(), block_hash, attempts: 0 };
                self.ask(Phase::Standardizing(attempt), ObserverAction::Standardize(block), out);
            },
            ObserverCommand::CacheBitcoinBlock(block) => {
                self.cache_block(block);
                assert(seen(out@) =~= seen(old(out)@) + step.actions);
            },
            ObserverCommand::PropagateBitcoinChainEvent(event) => {
                self.propagate_bitcoin_event(event, out);
            },
            ObserverCommand::PropagateStacksChainEvent(event) => {
                self.propagate_stacks_event(event, out);
            },
            ObserverCommand::PropagateStacksMempoolEvent(event) => {
                self.emit(ObserverEvent::StacksChainMempoolEvent(event), out);
            },
            ObserverCommand::RegisterPredicate(hook) => {
                self.register_predicate(hook, out);
            },
            ObserverCommand::EnablePredicate(spec) => {
                self.enable_predicate(spec, out);
            },
            ObserverCommand::DeregisterBitcoinPredicate(uuid) => {
                self.deregister_bitcoin_hook(uuid, out);
            },
            ObserverCommand::DeregisterStacksPredicate(uuid) => {
                self.deregister_stacks_hook(uuid, out);
            },
            ObserverCommand::ExpireBitcoinPredicate(data) => {
                let HookExpirationData { hook_uuid, block_height } = data;
                self.store.predicates.expire_bitcoin_hook(hook_uuid.as_str(), block_height);
                assert(seen(out@) =~= seen(old(out)@) + step.actions);
            },
            ObserverCommand::ExpireStacksPredicate(data) => {
                let HookExpirationData { hook_uuid, block_height } = data;
                self.store.predicates.expire_stacks_hook(hook_uuid.as_str(), block_height);
                assert(seen(out@) =~= seen(old(out)@) + step.actions);
            },
            ObserverCommand::NotifyBitcoinTransactionProxied => {
                self.emit(ObserverEvent::NotifyBitcoinTransactionProxied, out);
            },
            ObserverCommand::Terminate => {
                self.terminate(out);
            },
        }
    }

    /// Goes on with a round once a trigger's action is handled.
    fn handle_occurrence(
        &mut self,
        round: Round,
        occurrence: Option<ChainhookOccurrence>,
        out: &mut Vec<ObserverAction>,
    )
        requires
            old(self).sound(),
            round.report.wf(),
        ensures
            final(self).sound(),
            taken(
                old(self)@.occurrence_handled(round@, occurrence),
                final(self)@,
                old(out)@,
                final(out)@,
            ),
    {
        let ghost step = old(self)@.occurrence_handled(round@, occurrence);
        let mut round = round;
        match occurrence {
            Some(ChainhookOccurrence::Http(request, payload)) => {
                round.requests.push(PendingRequest { request, payload });
            },
            Some(ChainhookOccurrence::Data(payload)) => {
                self.tell_occurrence(payload, out);
            },
            Some(ChainhookOccurrence::File) => {},
            None => {},
        }
        self.want_triggers(round, out);
        assert(seen(out@) =~= seen(old(out)@) + step.actions);
    }

    /// Goes on with a round once a request is sent, or could not be.
    fn handle_delivery(
        &mut self,
        round: Round,
        payload: OccurrencePayload,
        outcome: Result<(), String>,
        predicate_key: String,
        out: &mut Vec<ObserverAction>,
    )
        requires
            old(self).sound(),
            round.report.wf(),
        ensures
            final(self).sound(),
            taken(
                old(self)@.request_handled(round@, payload, outcome, predicate_key),
                final(self)@,
                old(out)@,
                final(out)@,
            ),
    {
        let ghost step = old(self)@.request_handled(round@, payload, outcome, predicate_key);
        match outcome {
            Ok(_) => {
                self.tell_occurrence(payload, out);
            },
            Err(error) => {
                self.interrupt_predicate(payload, predicate_key, error, out);
            },
        }
        self.want_requests(round, out);
        assert(seen(out@) =~= seen(old(out)@) + step.actions);
    }

    /// Goes on with a round once the Bitcoin node answered the request for a
    /// proof.
    fn handle_proof(
        &mut self,
        round: Round,
        target: ProofTarget,
        answer: Result<Vec<u8>, String>,
        out: &mut Vec<ObserverAction>,
    )
        requires
            old(self).sound(),
            round.report.wf(),
        ensures
            final(self).sound(),
            taken(
                old(self)@.proof_handled(round@, target, answer),
                final(self)@,
                old(out)@,
                final(out)@,
            ),
    {
        let ghost before = round@.proofs;
        let mut round = round;
        match get_bitcoin_proof(&target.transaction_identifier, answer) {
            Ok(proof) => {
                round.proofs.push(
                    TransactionProof {
                        transaction_identifier: target.transaction_identifier,
                        proof,
                    },
                );
                assert(round@.proofs =~= before.push(round.proofs@.last()@));
            },
            Err(_) => {},
        }
        self.want_proofs(round, out);
    }

    /// An idle observer with the given predicates.
    pub fn new(
        config: &EventObserverConfig,
        store: ChainhookStore,
        links: ObserverLinks,
    ) -> (observer: Observer)
        ensures
            observer.wf(),
            observer@ == (ObserverView {
                links,
                bitcoin_network: config.bitcoin_network,
                stacks_network: config.stacks_network,
                bitcoin_hooks: store.predicates.bitcoin_chainhooks@,
                stacks_hooks: store.predicates.stacks_chainhooks@,
                occurrences: Map::empty(),
                blocks: Map::empty(),
                phase: PhaseView::Idle,
            }),
    {
        Observer {
            links,
            bitcoin_network: config.bitcoin_network,
            stacks_network: config.stacks_network,
            store,
            occurrences: OccurrenceTracker::new(),
            blocks: BitcoinBlockStore::new(),
            phase: Phase::Idle,
        }
    }

    /// Whether the observer takes commands.
    pub fn is_idle(&self) -> (idle: bool)
        ensures
            idle == (self@.phase is Idle),
    {
        match &self.phase {
            Phase::Idle => true,
            _ => false,
        }
    }

    /// Whether the observer came to its end.
    pub fn is_terminated(&self) -> (terminated: bool)
        ensures
            terminated == (self@.phase is Terminated),
    {
        match &self.phase {
            Phase::Terminated => true,
            _ => false,
        }
    }

    /// Whether an input answers what the observer waits for.
    pub fn accepts(&self, input: &ObserverInput) -> (accepted: bool)
        ensures
            accepted == self@.accepts(*input),
    {
        match (&self.phase, input) {
            (Phase::Idle, ObserverInput::Command(_)) => true,
            (Phase::Idle, ObserverInput::CommandsClosed) => true,
            (Phase::Standardizing(_), ObserverInput::BlockStandardized(_)) => true,
            (Phase::Standardizing(_), ObserverInput::BlockRejected { .. }) => true,
            (Phase::Downloading(_), ObserverInput::BlockDownloaded(_)) => true,
            (Phase::Mutating(_, _), ObserverInput::BlocksMutated(_)) => true,
            (Phase::Evaluating(_, _), ObserverInput::Evaluated(evaluation)) => {
                self.occurrences.fits(&evaluation.predicates_triggered)
            },
            (Phase::CollectingProof(_, _), ObserverInput::ProofCollected(_)) => true,
            (Phase::HandlingTrigger(round), ObserverInput::TriggerHandled(occurrence)) => {
                match occurrence {
                    Some(ChainhookOccurrence::Http(_, payload)) => {
                        payload.is_of_chain(&round.event)
                    },
                    Some(ChainhookOccurrence::Data(payload)) => payload.is_of_chain(&round.event),
                    Some(ChainhookOccurrence::File) => true,
                    None => true,
                }
            },
            (Phase::SendingRequest(_, _), ObserverInput::RequestSent { .. }) => true,
            _ => false,
        }
    }

    /// Takes a step from idleness.
    fn step_from_idle(
        &mut self,
        input: ObserverInput,
        out: &mut Vec<ObserverAction>,
    )
        requires
            old(self)@.phase is Idle,
            old(self).sound(),
            old(self)@.in_phase(PhaseView::Idle).accepts(input),
        ensures
            final(self).sound(),
            taken(
                old(self)@.in_phase(PhaseView::Idle).step(input),
                final(self)@,
                old(out)@,
                final(out)@,
            ),
    {
        match input {
            ObserverInput::Command(command) => self.handle_command(command, out),
            ObserverInput::CommandsClosed => self.terminate(out),
            _ => {},
        }
    }

    /// Takes a step from the standardisation of a block.
    fn step_from_standardizing(
        &mut self,
        attempt: BlockAttempt,
        input: ObserverInput,
        out: &mut Vec<ObserverAction>,
    )
        requires
            old(self)@.phase is Idle,
            old(self).sound(),
            old(self)@.in_phase(PhaseView::Standardizing(attempt)).accepts(input),
        ensures
            final(self).sound(),
            taken(
                old(self)@.in_phase(PhaseView::Standardizing(attempt)).step(input),
                final(self)@,
                old(out)@,
                final(out)@,
            ),
    {
        match input {
            ObserverInput::BlockStandardized(block) => {
                self.cache_block(block);
                assert(seen(out@) =~= seen(old(out)@) + Seq::empty());
            },
            ObserverInput::BlockRejected { refetch_block } => {
                self.retry_block(attempt, refetch_block, out)
            },
            _ => {},
        }
    }

    /// Takes a step from the download of a block.
    fn step_from_downloading(
        &mut self,
        attempt: BlockAttempt,
        input: ObserverInput,
        out: &mut Vec<ObserverAction>,
    )
        requires
            old(self)@.phase is Idle,
            old(self)@.in_phase(PhaseView::Downloading(attempt)).accepts(input),
        ensures
            final(self).sound(),
            taken(
                old(self)@.in_phase(PhaseView::Downloading(attempt)).step(input),
                final(self)@,
                old(out)@,
                final(out)@,
            ),
    {
        if let ObserverInput::BlockDownloaded(downloaded) = input {
            let block = match downloaded {
                Some(block) => block,
                None => attempt.block,
            };
            let next = BlockAttempt {
                block: block.clone(),
                block_hash: attempt.block_hash,
                attempts: attempt.attempts,
            };
            self.ask(Phase::Standardizing(next), ObserverAction::Standardize(block), out);
        }
    }

    /// Takes a step from the rework of blocks.
    fn step_from_mutating(
        &mut self,
        pending: PendingChainEvent,
        blocks: Vec<BitcoinBlockDataCached>,
        input: ObserverInput,
        out: &mut Vec<ObserverAction>,
    )
        requires
            old(self)@.phase is Idle,
            old(self)@.in_phase(PhaseView::Mutating(pending@, blocks@)).accepts(input),
        ensures
            final(self).sound(),
            taken(
                old(self)@.in_phase(PhaseView::Mutating(pending@, blocks@)).step(input),
                final(self)@,
                old(out)@,
                final(out)@,
            ),
    {
        if let ObserverInput::BlocksMutated(reply) = input {
            let updated_blocks = perform_bitcoin_sidecar_mutations(blocks, reply);
            self.complete_bitcoin_event(pending, updated_blocks, out);
        }
    }

    /// Takes a step from the evaluation of predicates.
    fn step_from_evaluating(
        &mut self,
        event: Event,
        new_tip: u64,
        input: ObserverInput,
        out: &mut Vec<ObserverAction>,
    )
        requires
            old(self)@.phase is Idle,
            old(self).sound(),
            old(self)@.in_phase(PhaseView::Evaluating(event@, new_tip)).accepts(input),
        ensures
            final(self).sound(),
            taken(
                old(self)@.in_phase(PhaseView::Evaluating(event@, new_tip)).step(input),
                final(self)@,
                old(out)@,
                final(out)@,
            ),
    {
        if let ObserverInput::Evaluated(evaluation) = input {
            self.start_round(event, new_tip, evaluation, out);
        }
    }

    /// Takes a step from the request for a proof.
    fn step_from_collecting_proof(
        &mut self,
        round: Round,
        target: ProofTarget,
        input: ObserverInput,
        out: &mut Vec<ObserverAction>,
    )
        requires
            old(self)@.phase is Idle,
            old(self).sound(),
            round.report.wf(),
            old(self)@.in_phase(PhaseView::CollectingProof(round@, target)).accepts(input),
        ensures
            final(self).sound(),
            taken(
                old(self)@.in_phase(PhaseView::CollectingProof(round@, target)).step(input),
                final(self)@,
                old(out)@,
                final(out)@,
            ),
    {
        if let ObserverInput::ProofCollected(answer) = input {
            self.handle_proof(round, target, answer, out);
        }
    }

    /// Takes a step from the handling of a trigger.
    fn step_from_handling_trigger(
        &mut self,
        round: Round,
        input: ObserverInput,
        out: &mut Vec<ObserverAction>,
    )
        requires
            old(self)@.phase is Idle,
            old(self).sound(),
            round.report.wf(),
            old(self)@.in_phase(PhaseView::HandlingTrigger(round@)).accepts(input),
        ensures
            final(self).sound(),
            taken(
                old(self)@.in_phase(PhaseView::HandlingTrigger(round@)).step(input),
                final(self)@,
                old(out)@,
                final(out)@,
            ),
    {
        if let ObserverInput::TriggerHandled(occurrence) = input {
            self.handle_occurrence(round, occurrence, out);
        }
    }

    /// Takes a step from the sending of a request.
    fn step_from_sending_request(
        &mut self,
        round: Round,
        payload: OccurrencePayload,
        input: ObserverInput,
        out: &mut Vec<ObserverAction>,
    )
        requires
            old(self)@.phase is Idle,
            old(self).sound(),
            round.report.wf(),
            old(self)@.in_phase(PhaseView::SendingRequest(round@, payload)).accepts(input),
        ensures
            final(self).sound(),
            taken(
                old(self)@.in_phase(PhaseView::SendingRequest(round@, payload)).step(input),
                final(self)@,
                old(out)@,
                final(out)@,
            ),
    {
        if let ObserverInput::RequestSent { outcome, predicate_key } = input {
            self.handle_delivery(round, payload, outcome, predicate_key, out);
        }
    }

    /// Takes a step: hands out the actions that an input leads to.
    pub fn step(&mut self, input: ObserverInput) -> (actions: Vec<ObserverAction>)
        requires
            old(self).wf(),
            old(self)@.accepts(input),
        ensures
            final(self).wf(),
            final(self)@ == old(self)@.step(input).state,
            seen(actions@) == old(self)@.step(input).actions,
            all_wf(actions@),
    {
        let mut actions: Vec<ObserverAction> = Vec::new();
        let mut phase = Phase::Idle;
        core::mem::swap(&mut phase, &mut self.phase);
        let out = &mut actions;
        match phase {
            Phase::Idle => self.step_from_idle(input, out),
            Phase::Standardizing(attempt) => self.step_from_standardizing(attempt, input, out),
            Phase::Downloading(attempt) => self.step_from_downloading(attempt, input, out),
            Phase::Mutating(pending, blocks) => {
                self.step_from_mutating(pending, blocks, input, out)
            },
            Phase::Evaluating(event, new_tip) => {
                self.step_from_evaluating(event, new_tip, input, out)
            },
            Phase::CollectingProof(round, target) => {
                self.step_from_collecting_proof(round, target, input, out)
            },
            Phase::HandlingTrigger(round) => self.step_from_handling_trigger(round, input, out),
            Phase::SendingRequest(round, payload) => {
                self.step_from_sending_request(round, payload, input, out)
            },
            Phase::Terminated => {},
        }
        proof {
            every_step_keeps_the_observer_valid(old(self)@, input);
        }
        assert(seen(Seq::<ObserverAction>::empty()) + old(self)@.step(input).actions =~= old(
            self,
        )@.step(input).actions);
        actions
    }
}

/// Starts to handle commands: an idle observer with the given predicates, and
/// with the partners that the channels and the server at hand make out.
pub fn start_observer_commands_handler(
    config: &EventObserverConfig,
    chainhook_store: ChainhookStore,
    listener: bool,
    ingestion: bool,
    observer_sidecar: Option<&ObserverSidecar>,
) -> (observer: Observer)
    ensures
        observer.wf(),
        observer@ == (ObserverView {
            links: ObserverLinks {
                listener,
                blocks_mutator: observer_sidecar matches Some(sidecar)
                    && sidecar.bitcoin_blocks_mutator is Some,
                chain_event_notifier: observer_sidecar matches Some(sidecar)
                    && sidecar.bitcoin_chain_event_notifier is Some,
                ingestion,
            },
            bitcoin_network: config.bitcoin_network,
            stacks_network: config.stacks_network,
            bitcoin_hooks: chainhook_store.predicates.bitcoin_chainhooks@,
            stacks_hooks: chainhook_store.predicates.stacks_chainhooks@,
            occurrences: Map::empty(),
            blocks: Map::empty(),
            phase: PhaseView::Idle,
        }),
{
    let links = ObserverLinks::new(listener, observer_sidecar, ingestion);
    Observer::new(config, chainhook_store, links)
}

} // verus!
