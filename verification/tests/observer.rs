use chainhook_observer::blocks::BitcoinBlockDataCached;
use chainhook_observer::chain::{
    BitcoinBlockData, BitcoinBlockFullBreakdown, BitcoinChainEvent,
    BitcoinChainUpdatedWithBlocksData, BitcoinChainUpdatedWithReorgData, BlockHeader,
    BlockIdentifier, BlockchainEvent, BlockchainUpdatedWithHeaders, BlockchainUpdatedWithReorg,
    StacksBlockData, StacksBlockUpdate, StacksChainEvent, StacksChainUpdatedWithReorgData,
    TransactionIdentifier,
};
use chainhook_observer::commands::{
    BitcoinChainhookOccurrencePayload, HookExpirationData, ObserverCommand, ObserverEvent,
    PayloadChainhook, PredicateInterruptedData, StacksChainMempoolEvent,
    StacksChainhookOccurrencePayload,
};
use chainhook_observer::config::EventObserverConfig;
use chainhook_observer::hooks::{
    BitcoinChainhookSpecification, ChainhookFullSpecification, ChainhookOnNetwork,
    ChainhookSpecification, ChainhookStore, MultiNetworkChainhook, StacksChainhookSpecification,
};
use chainhook_observer::metrics::{Metric, Reorg};
use chainhook_observer::network::{BitcoinNetwork, StacksNetwork};
use chainhook_observer::observer::{start_observer_commands_handler, Observer};
use chainhook_observer::proofs::{ProofTarget, TransactionProof};
use chainhook_observer::protocol::{
    ChainhookOccurrence, ObserverAction, ObserverInput, ObserverLinks, OccurrencePayload,
    REQUEST_ATTEMPTS, REQUEST_INTERVAL_SECONDS,
};
use chainhook_observer::report::PredicateEvaluationReport;
use chainhook_observer::sidecar::{HandleBlock, ObserverSidecar};
use chainhook_observer::triggers::{
    AppliedBlock, Evaluation, TriggerChainhook, TriggeredChainhook,
};

fn links(listener: bool, sidecar: bool) -> ObserverLinks {
    ObserverLinks {
        listener,
        blocks_mutator: sidecar,
        chain_event_notifier: sidecar,
        ingestion: false,
    }
}

fn observer_with(links: ObserverLinks, store: ChainhookStore) -> Observer {
    let config = EventObserverConfig::new_using_overrides(None).unwrap();
    Observer::new(&config, store, links)
}

fn observer(listener: bool, sidecar: bool) -> Observer {
    observer_with(links(listener, sidecar), ChainhookStore::new())
}

fn feed(observer: &mut Observer, input: ObserverInput) -> Vec<ObserverAction> {
    assert!(observer.accepts(&input));
    observer.step(input)
}

fn command(observer: &mut Observer, command: ObserverCommand) -> Vec<ObserverAction> {
    feed(observer, ObserverInput::Command(command))
}

fn assert_same(actions: Vec<ObserverAction>, expected: Vec<ObserverAction>) {
    assert_eq!(format!("{:#?}", actions), format!("{:#?}", expected));
}

fn identifier(index: u64, hash: &str) -> BlockIdentifier {
    BlockIdentifier { index, hash: hash.to_string() }
}

fn header(index: u64, hash: &str) -> BlockHeader {
    BlockHeader {
        block_identifier: identifier(index, hash),
        parent_block_identifier: identifier(index - 1, "parent"),
    }
}

fn block(index: u64, hash: &str) -> BitcoinBlockData {
    BitcoinBlockData {
        block_identifier: identifier(index, hash),
        timestamp: 100 + index as u32,
        content: String::new(),
    }
}

fn raw(hash: &str, content: &str) -> BitcoinBlockFullBreakdown {
    BitcoinBlockFullBreakdown { hash: hash.to_string(), content: content.to_string() }
}

fn new_blocks(new: Vec<BlockHeader>, confirmed: Vec<BlockHeader>) -> ObserverCommand {
    ObserverCommand::PropagateBitcoinChainEvent(BlockchainEvent::BlockchainUpdatedWithHeaders(
        BlockchainUpdatedWithHeaders { new_headers: new, confirmed_headers: confirmed },
    ))
}

fn blocks_event(new: Vec<BitcoinBlockData>, confirmed: Vec<BitcoinBlockData>) -> BitcoinChainEvent {
    BitcoinChainEvent::ChainUpdatedWithBlocks(BitcoinChainUpdatedWithBlocksData {
        new_blocks: new,
        confirmed_blocks: confirmed,
    })
}

fn predicate(uuid: &str, limit: Option<u64>) -> MultiNetworkChainhook<BitcoinNetwork> {
    MultiNetworkChainhook {
        uuid: uuid.to_string(),
        owner_uuid: None,
        name: "name".to_string(),
        version: 1,
        networks: vec![ChainhookOnNetwork {
            network: BitcoinNetwork::Regtest,
            expire_after_occurrence: limit,
            content: String::new(),
        }],
    }
}

fn hook(uuid: &str, enabled: bool) -> BitcoinChainhookSpecification {
    BitcoinChainhookSpecification {
        uuid: uuid.to_string(),
        owner_uuid: None,
        name: "name".to_string(),
        version: 1,
        network: BitcoinNetwork::Regtest,
        expire_after_occurrence: None,
        enabled,
        expired_at: None,
        content: String::new(),
    }
}

fn stacks_hook(uuid: &str, enabled: bool) -> StacksChainhookSpecification {
    StacksChainhookSpecification {
        uuid: uuid.to_string(),
        owner_uuid: None,
        name: "name".to_string(),
        version: 1,
        network: StacksNetwork::Devnet,
        expire_after_occurrence: None,
        enabled,
        expired_at: None,
        content: String::new(),
    }
}

fn store(bitcoin: &[&str], stacks: &[&str]) -> ChainhookStore {
    let mut store = ChainhookStore::new();
    for uuid in bitcoin {
        store.predicates.bitcoin_chainhooks.push(hook(uuid, true));
    }
    for uuid in stacks {
        store.predicates.stacks_chainhooks.push(stacks_hook(uuid, true));
    }
    store
}

fn register(uuid: &str) -> ObserverCommand {
    ObserverCommand::RegisterPredicate(ChainhookFullSpecification::Bitcoin(predicate(uuid, None)))
}

fn trigger(uuid: &str, limit: Option<u64>, proof: bool, txs: &[&str]) -> TriggerChainhook {
    TriggerChainhook {
        chainhook: TriggeredChainhook {
            uuid: uuid.to_string(),
            expire_after_occurrence: limit,
            include_proof: proof,
        },
        apply: vec![AppliedBlock {
            block_identifier: identifier(1, "0x1"),
            transactions: txs
                .iter()
                .map(|hash| TransactionIdentifier { hash: hash.to_string() })
                .collect(),
        }],
        content: uuid.to_string(),
    }
}

fn evaluation(triggers: Vec<TriggerChainhook>) -> Evaluation {
    Evaluation {
        predicates_triggered: triggers,
        predicates_evaluated: vec![],
        predicates_expired: vec![],
    }
}

fn bitcoin_payload(uuid: &str) -> BitcoinChainhookOccurrencePayload {
    BitcoinChainhookOccurrencePayload {
        chainhook: PayloadChainhook { uuid: uuid.to_string() },
        content: String::new(),
    }
}

fn http(request: u64, uuid: &str) -> ObserverInput {
    ObserverInput::TriggerHandled(Some(ChainhookOccurrence::Http(
        request,
        OccurrencePayload::Bitcoin(bitcoin_payload(uuid)),
    )))
}

fn send(request: u64) -> ObserverAction {
    ObserverAction::SendRequest { request, attempts_max: 3, attempts_interval_seconds: 1 }
}

fn sent(outcome: Result<(), String>) -> ObserverInput {
    ObserverInput::RequestSent { outcome, predicate_key: "key".to_string() }
}

fn reported(triggers: &[&str]) -> PredicateEvaluationReport {
    let mut report = PredicateEvaluationReport::new();
    for uuid in triggers {
        report.track_trigger(uuid, &vec![&identifier(1, "0x1")]);
    }
    report
}

fn active(observer: &mut Observer) -> Vec<String> {
    let actions = command(observer, new_blocks(vec![], vec![]));
    let names = match actions.last() {
        Some(ObserverAction::EvaluateBitcoin(_, hooks)) => {
            hooks.iter().map(|hook| hook.uuid.clone()).collect()
        }
        _ => panic!("evaluation expected"),
    };
    feed(observer, ObserverInput::Evaluated(evaluation(vec![])));
    assert!(observer.is_idle());
    names
}

#[test]
fn sidecar_makes_out_the_partners() {
    let config = EventObserverConfig::new_using_overrides(None).unwrap();
    let (blocks_tx, _blocks_rx) = crossbeam_channel::unbounded();
    let (_updated_tx, updated_rx) = crossbeam_channel::unbounded();
    let sidecar = ObserverSidecar {
        bitcoin_blocks_mutator: Some((blocks_tx, updated_rx)),
        bitcoin_chain_event_notifier: None,
    };
    assert_eq!(
        ObserverLinks::new(true, Some(&sidecar), false),
        ObserverLinks {
            listener: true,
            blocks_mutator: true,
            chain_event_notifier: false,
            ingestion: false,
        }
    );
    assert_eq!(
        ObserverLinks::new(false, None, true),
        ObserverLinks {
            listener: false,
            blocks_mutator: false,
            chain_event_notifier: false,
            ingestion: true,
        }
    );
    let mut observer =
        start_observer_commands_handler(&config, store(&["a"], &[]), false, false, Some(&sidecar));
    let actions = command(&mut observer, new_blocks(vec![], vec![]));
    assert_same(actions, vec![ObserverAction::MutateBlocks(vec![], vec![])]);
}

#[test]
fn observer_terminates_for_good() {
    let all = ObserverLinks { ingestion: true, ..links(true, false) };
    for input in [
        ObserverInput::CommandsClosed,
        ObserverInput::Command(ObserverCommand::Terminate),
    ] {
        let mut observer = observer_with(all, ChainhookStore::new());
        let actions = feed(&mut observer, input);
        assert_same(
            actions,
            vec![
                ObserverAction::ShutdownIngestion,
                ObserverAction::Emit(ObserverEvent::Info("Terminating event observer".to_string())),
                ObserverAction::Emit(ObserverEvent::Terminate),
            ],
        );
        assert!(observer.is_terminated());
        assert!(!observer.is_idle());
        assert!(!observer.accepts(&ObserverInput::CommandsClosed));
        assert!(!observer.accepts(&ObserverInput::Command(ObserverCommand::Terminate)));
    }
    let mut silent = observer(false, false);
    assert!(command(&mut silent, ObserverCommand::Terminate).is_empty());
    assert!(silent.is_terminated());
}

#[test]
fn only_the_answer_that_is_waited_for_is_accepted() {
    let mut observer = observer(true, false);
    assert!(!observer.accepts(&ObserverInput::BlockDownloaded(None)));
    assert!(!observer.accepts(&ObserverInput::Evaluated(evaluation(vec![]))));
    command(&mut observer, new_blocks(vec![], vec![]));
    assert!(!observer.accepts(&ObserverInput::Command(ObserverCommand::Terminate)));
    assert!(!observer.accepts(&sent(Ok(()))));
    assert!(observer.accepts(&ObserverInput::Evaluated(evaluation(vec![]))));
}

#[test]
fn block_is_given_up_at_the_eleventh_failure() {
    let mut observer = observer(true, false);
    let actions = command(&mut observer, ObserverCommand::ProcessBitcoinBlock(raw("0x1", "a")));
    assert_same(actions, vec![ObserverAction::Standardize(raw("0x1", "a"))]);
    for attempt in 1..=10 {
        if attempt % 2 == 0 {
            let actions =
                feed(&mut observer, ObserverInput::BlockRejected { refetch_block: false });
            assert_same(actions, vec![ObserverAction::Standardize(raw("other", "b"))]);
        } else {
            let actions = feed(&mut observer, ObserverInput::BlockRejected { refetch_block: true });
            assert_same(actions, vec![ObserverAction::Download("0x1".to_string())]);
            let actions = feed(
                &mut observer,
                ObserverInput::BlockDownloaded(Some(raw("other", "b"))),
            );
            assert_same(actions, vec![ObserverAction::Standardize(raw("other", "b"))]);
        }
    }
    let actions = feed(&mut observer, ObserverInput::BlockRejected { refetch_block: true });
    assert_same(
        actions,
        vec![
            ObserverAction::Emit(ObserverEvent::Info("Terminating event observer".to_string())),
            ObserverAction::Emit(ObserverEvent::Terminate),
        ],
    );
    assert!(observer.is_terminated());
}

#[test]
fn failed_download_leaves_the_block_as_it_was() {
    let mut observer = observer(false, false);
    command(&mut observer, ObserverCommand::ProcessBitcoinBlock(raw("0x1", "a")));
    feed(&mut observer, ObserverInput::BlockRejected { refetch_block: true });
    let actions = feed(&mut observer, ObserverInput::BlockDownloaded(None));
    assert_same(actions, vec![ObserverAction::Standardize(raw("0x1", "a"))]);
    let actions = feed(&mut observer, ObserverInput::BlockStandardized(block(1, "0x1")));
    assert!(actions.is_empty());
    assert!(observer.is_idle());
    let actions = command(&mut observer, new_blocks(vec![header(1, "0x1")], vec![]));
    let event = blocks_event(vec![block(1, "0x1")], vec![]);
    assert_same(actions, vec![ObserverAction::EvaluateBitcoin(event, vec![])]);
}

#[test]
fn cached_blocks_are_propagated_and_confirmed() {
    let mut observer = observer_with(links(true, false), store(&["a"], &[]));
    assert!(command(&mut observer, ObserverCommand::CacheBitcoinBlock(block(1, "0x1"))).is_empty());
    let actions = command(&mut observer, new_blocks(vec![header(1, "0x1")], vec![]));
    let event = || blocks_event(vec![block(1, "0x1")], vec![]);
    assert_same(
        actions,
        vec![ObserverAction::EvaluateBitcoin(event(), vec![hook("a", true)])],
    );
    let actions = feed(&mut observer, ObserverInput::Evaluated(evaluation(vec![])));
    assert_same(
        actions,
        vec![
            ObserverAction::Emit(ObserverEvent::PredicatesTriggered(0)),
            ObserverAction::Measure(Metric::BitcoinBlockEvaluated(1)),
            ObserverAction::Emit(ObserverEvent::BitcoinChainEvent((event(), reported(&[])))),
        ],
    );
    let actions =
        command(&mut observer, new_blocks(vec![header(8, "0x8")], vec![header(1, "0x1")]));
    let event = blocks_event(vec![], vec![block(1, "0x1")]);
    assert_same(
        actions,
        vec![ObserverAction::EvaluateBitcoin(event, vec![hook("a", true)])],
    );
    feed(&mut observer, ObserverInput::Evaluated(evaluation(vec![])));
    let actions =
        command(&mut observer, new_blocks(vec![header(1, "0x1")], vec![header(1, "0x1")]));
    let event = blocks_event(vec![], vec![]);
    assert_same(
        actions,
        vec![ObserverAction::EvaluateBitcoin(event, vec![hook("a", true)])],
    );
}

#[test]
fn sidecar_reworks_blocks_and_is_told_of_them() {
    let mut observer = observer(false, true);
    for (index, hash) in [(4, "0x4"), (4, "0x4b"), (5, "0x5b")] {
        command(&mut observer, ObserverCommand::CacheBitcoinBlock(block(index, hash)));
    }
    let actions = command(
        &mut observer,
        ObserverCommand::PropagateBitcoinChainEvent(BlockchainEvent::BlockchainUpdatedWithReorg(
            BlockchainUpdatedWithReorg {
                headers_to_rollback: vec![header(4, "0x4")],
                headers_to_apply: vec![header(4, "0x4b"), header(5, "0x5b")],
                confirmed_headers: vec![],
            },
        )),
    );
    let cached = |index, hash| BitcoinBlockDataCached {
        block: block(index, hash),
        processed_by_sidecar: false,
    };
    assert_same(
        actions,
        vec![ObserverAction::MutateBlocks(
            vec![cached(4, "0x4b"), cached(5, "0x5b")],
            vec![identifier(4, "0x4")],
        )],
    );
    let mut reworked = vec![cached(4, "0x4b"), cached(5, "0x5b")];
    reworked[1].block.timestamp = 7;
    reworked[1].processed_by_sidecar = true;
    let new_tip = reworked[1].block.clone();
    let actions = feed(&mut observer, ObserverInput::BlocksMutated(Some(reworked)));
    let event = BitcoinChainEvent::ChainUpdatedWithReorg(BitcoinChainUpdatedWithReorgData {
        blocks_to_rollback: vec![block(4, "0x4")],
        blocks_to_apply: vec![block(4, "0x4b"), new_tip.clone()],
        confirmed_blocks: vec![],
    });
    assert_same(
        actions,
        vec![
            ObserverAction::Measure(Metric::BitcoinReorg(Reorg {
                timestamp: 7,
                applied_blocks: 2,
                rolled_back_blocks: 1,
            })),
            ObserverAction::Notify(HandleBlock::UndoBlock(block(4, "0x4"))),
            ObserverAction::Notify(HandleBlock::ApplyBlock(block(4, "0x4b"))),
            ObserverAction::Notify(HandleBlock::ApplyBlock(new_tip)),
            ObserverAction::EvaluateBitcoin(event, vec![]),
        ],
    );
}

#[test]
fn blocks_go_on_when_the_sidecar_is_silent() {
    let mut observer = observer(false, true);
    command(&mut observer, ObserverCommand::CacheBitcoinBlock(block(1, "0x1")));
    command(&mut observer, new_blocks(vec![header(1, "0x1")], vec![]));
    let actions = feed(&mut observer, ObserverInput::BlocksMutated(None));
    assert_same(
        actions,
        vec![
            ObserverAction::Notify(HandleBlock::ApplyBlock(block(1, "0x1"))),
            ObserverAction::EvaluateBitcoin(
                blocks_event(vec![block(1, "0x1")], vec![]),
                vec![],
            ),
        ],
    );
}

#[test]
fn registered_predicate_waits_for_the_listener() {
    let mut observer = observer(true, false);
    let actions = command(&mut observer, register("a"));
    assert_same(
        actions,
        vec![
            ObserverAction::Measure(Metric::BitcoinPredicateRegistered),
            ObserverAction::Emit(ObserverEvent::PredicateRegistered(
                ChainhookSpecification::Bitcoin(hook("a", false)),
            )),
        ],
    );
    assert!(active(&mut observer).is_empty());
    let enable =
        ObserverCommand::EnablePredicate(ChainhookSpecification::Bitcoin(hook("a", false)));
    let actions = command(&mut observer, enable);
    assert_same(
        actions,
        vec![ObserverAction::Emit(ObserverEvent::PredicateEnabled(
            ChainhookSpecification::Bitcoin(hook("a", true)),
        ))],
    );
    assert_eq!(active(&mut observer), vec!["a"]);
    let unknown =
        ObserverCommand::EnablePredicate(ChainhookSpecification::Bitcoin(hook("z", false)));
    let actions = command(&mut observer, unknown);
    assert_same(
        actions,
        vec![ObserverAction::Emit(ObserverEvent::PredicateEnabled(
            ChainhookSpecification::Bitcoin(hook("z", false)),
        ))],
    );
}

#[test]
fn registered_predicate_is_enabled_where_nobody_listens() {
    let mut observer = observer(false, false);
    let actions = command(&mut observer, register("a"));
    assert_same(actions, vec![ObserverAction::Measure(Metric::BitcoinPredicateRegistered)]);
    assert_eq!(active(&mut observer), vec!["a"]);
}

#[test]
fn predicate_for_another_network_is_passed_over() {
    let mut observer = observer(true, false);
    let mut other = predicate("a", None);
    other.networks[0].network = BitcoinNetwork::Mainnet;
    let register =
        ObserverCommand::RegisterPredicate(ChainhookFullSpecification::Bitcoin(other));
    assert!(command(&mut observer, register).is_empty());
}

#[test]
fn deregistration_is_always_told_but_measured_once() {
    let mut observer = observer_with(links(true, false), store(&["a"], &["a"]));
    let told = || ObserverAction::Emit(ObserverEvent::PredicateDeregistered("a".to_string()));
    let deregister = || ObserverCommand::DeregisterBitcoinPredicate("a".to_string());
    let actions = command(&mut observer, deregister());
    assert_same(
        actions,
        vec![ObserverAction::Measure(Metric::BitcoinPredicateDeregistered), told()],
    );
    let actions = command(&mut observer, deregister());
    assert_same(actions, vec![told()]);
    let deregister = || ObserverCommand::DeregisterStacksPredicate("a".to_string());
    let actions = command(&mut observer, deregister());
    assert_same(
        actions,
        vec![ObserverAction::Measure(Metric::StacksPredicateDeregistered), told()],
    );
    let actions = command(&mut observer, deregister());
    assert_same(actions, vec![told()]);
}

#[test]
fn expired_predicate_is_not_evaluated() {
    let mut observer = observer_with(links(true, false), store(&["a", "b"], &["a"]));
    let expire = |hook_uuid: &str| HookExpirationData {
        hook_uuid: hook_uuid.to_string(),
        block_height: 9,
    };
    let actions = command(&mut observer, ObserverCommand::ExpireStacksPredicate(expire("b")));
    assert!(actions.is_empty());
    assert_eq!(active(&mut observer), vec!["a", "b"]);
    let actions = command(&mut observer, ObserverCommand::ExpireBitcoinPredicate(expire("a")));
    assert!(actions.is_empty());
    assert_eq!(active(&mut observer), vec!["b"]);
}

#[test]
fn notices_are_passed_on_to_the_listener() {
    let mempool = || StacksChainMempoolEvent::TransactionDropped("0xaa".to_string());
    for listener in [true, false] {
        let mut observer = observer(listener, false);
        let actions =
            command(&mut observer, ObserverCommand::PropagateStacksMempoolEvent(mempool()));
        let expected = if listener {
            vec![ObserverAction::Emit(ObserverEvent::StacksChainMempoolEvent(mempool()))]
        } else {
            vec![]
        };
        assert_same(actions, expected);
        let actions = command(&mut observer, ObserverCommand::NotifyBitcoinTransactionProxied);
        let expected = if listener {
            vec![ObserverAction::Emit(ObserverEvent::NotifyBitcoinTransactionProxied)]
        } else {
            vec![]
        };
        assert_same(actions, expected);
    }
}

#[test]
fn proofs_come_before_triggers_and_requests_come_last() {
    let mut observer = observer_with(links(true, false), store(&["a", "b", "c"], &[]));
    command(&mut observer, new_blocks(vec![header(3, "0x3")], vec![]));
    let target = |hash: &str| ProofTarget {
        transaction_identifier: TransactionIdentifier { hash: hash.to_string() },
        block_identifier: identifier(1, "0x1"),
    };
    let a = || trigger("a", None, true, &["0xaa", "0xbb", "0xaa"]);
    let b = || trigger("b", None, false, &["0xcc"]);
    let c = || trigger("c", None, true, &["0xaa", "0xdd"]);
    let actions = feed(&mut observer, ObserverInput::Evaluated(evaluation(vec![a(), b(), c()])));
    assert_same(
        actions,
        vec![ObserverAction::ConnectNode, ObserverAction::CollectProof(target("0xaa"))],
    );
    let actions = feed(&mut observer, ObserverInput::ProofCollected(Ok(vec![1, 2])));
    assert_same(actions, vec![ObserverAction::CollectProof(target("0xbb"))]);
    let actions = feed(&mut observer, ObserverInput::ProofCollected(Err("none".to_string())));
    assert_same(actions, vec![ObserverAction::CollectProof(target("0xdd"))]);
    let actions = feed(&mut observer, ObserverInput::ProofCollected(Ok(vec![255])));
    let proofs = || {
        vec![
            TransactionProof {
                transaction_identifier: TransactionIdentifier { hash: "0xaa".to_string() },
                proof: "0x0102".to_string(),
            },
            TransactionProof {
                transaction_identifier: TransactionIdentifier { hash: "0xdd".to_string() },
                proof: "0xff".to_string(),
            },
        ]
    };
    assert_same(
        actions,
        vec![
            ObserverAction::Emit(ObserverEvent::PredicatesTriggered(3)),
            ObserverAction::HandleBitcoinTrigger(a(), proofs()),
        ],
    );
    let actions = feed(&mut observer, http(11, "a"));
    assert_same(actions, vec![ObserverAction::HandleBitcoinTrigger(b(), proofs())]);
    let data = ObserverInput::TriggerHandled(Some(ChainhookOccurrence::Data(
        OccurrencePayload::Bitcoin(bitcoin_payload("b")),
    )));
    let actions = feed(&mut observer, data);
    assert_same(
        actions,
        vec![
            ObserverAction::Emit(ObserverEvent::BitcoinPredicateTriggered(bitcoin_payload("b"))),
            ObserverAction::HandleBitcoinTrigger(c(), proofs()),
        ],
    );
    let actions = feed(&mut observer, http(12, "c"));
    assert_same(actions, vec![send(11)]);
    let actions = feed(&mut observer, sent(Ok(())));
    assert_same(
        actions,
        vec![
            ObserverAction::Emit(ObserverEvent::BitcoinPredicateTriggered(bitcoin_payload("a"))),
            send(12),
        ],
    );
    let actions = feed(&mut observer, sent(Err("refused".to_string())));
    assert_same(
        actions,
        vec![
            ObserverAction::Emit(ObserverEvent::PredicateInterrupted(PredicateInterruptedData {
                predicate_key: "key".to_string(),
                error: "Unable to evaluate predicate on Bitcoin chainstate: refused".to_string(),
            })),
            ObserverAction::Measure(Metric::BitcoinBlockEvaluated(3)),
            ObserverAction::Emit(ObserverEvent::BitcoinChainEvent((
                blocks_event(vec![], vec![]),
                reported(&["a", "b", "c"]),
            ))),
        ],
    );
    assert_eq!(active(&mut observer), vec!["a", "b"]);
}

#[test]
fn failed_and_file_actions_lead_to_nothing() {
    let mut observer = observer_with(links(false, false), store(&["a", "b"], &[]));
    command(&mut observer, new_blocks(vec![header(3, "0x3")], vec![]));
    let a = || trigger("a", None, false, &[]);
    let b = || trigger("b", None, false, &[]);
    let actions = feed(&mut observer, ObserverInput::Evaluated(evaluation(vec![a(), b()])));
    assert_same(actions, vec![ObserverAction::HandleBitcoinTrigger(a(), vec![])]);
    let actions = feed(&mut observer, ObserverInput::TriggerHandled(None));
    assert_same(actions, vec![ObserverAction::HandleBitcoinTrigger(b(), vec![])]);
    let actions = feed(
        &mut observer,
        ObserverInput::TriggerHandled(Some(ChainhookOccurrence::File)),
    );
    assert_same(actions, vec![ObserverAction::Measure(Metric::BitcoinBlockEvaluated(3))]);
    assert!(observer.is_idle());
}

#[test]
fn exhausted_predicate_is_deregistered() {
    let mut observer = observer_with(links(true, false), store(&["a"], &[]));
    let a = || trigger("a", Some(1), false, &[]);
    command(&mut observer, new_blocks(vec![], vec![]));
    feed(&mut observer, ObserverInput::Evaluated(evaluation(vec![a()])));
    feed(&mut observer, ObserverInput::TriggerHandled(None));
    command(&mut observer, new_blocks(vec![], vec![]));
    let actions = feed(&mut observer, ObserverInput::Evaluated(evaluation(vec![a()])));
    assert_same(
        actions,
        vec![
            ObserverAction::Emit(ObserverEvent::PredicatesTriggered(0)),
            ObserverAction::Measure(Metric::BitcoinPredicateDeregistered),
            ObserverAction::Emit(ObserverEvent::PredicateDeregistered("a".to_string())),
            ObserverAction::Measure(Metric::BitcoinBlockEvaluated(0)),
            ObserverAction::Emit(ObserverEvent::BitcoinChainEvent((
                blocks_event(vec![], vec![]),
                reported(&["a"]),
            ))),
        ],
    );
    assert!(active(&mut observer).is_empty());
}

#[test]
fn stacks_events_go_the_same_way_without_proofs() {
    let mut observer = observer_with(links(true, false), store(&[], &["a"]));
    let update = |index, timestamp| StacksBlockUpdate {
        block: StacksBlockData {
            block_identifier: identifier(index, "0x"),
            timestamp,
            content: String::new(),
        },
        content: String::new(),
    };
    let event = || {
        StacksChainEvent::ChainUpdatedWithReorg(StacksChainUpdatedWithReorgData {
            blocks_to_rollback: vec![],
            blocks_to_apply: vec![update(6, 60)],
            confirmed_blocks: vec![],
        })
    };
    let actions = command(&mut observer, ObserverCommand::PropagateStacksChainEvent(event()));
    assert_same(
        actions,
        vec![
            ObserverAction::Measure(Metric::StacksReorg(Reorg {
                timestamp: 60,
                applied_blocks: 1,
                rolled_back_blocks: 0,
            })),
            ObserverAction::EvaluateStacks(event(), vec![stacks_hook("a", true)]),
        ],
    );
    let a = || trigger("a", None, true, &["0xaa"]);
    let actions = feed(&mut observer, ObserverInput::Evaluated(evaluation(vec![a()])));
    assert_same(
        actions,
        vec![
            ObserverAction::Emit(ObserverEvent::PredicatesTriggered(1)),
            ObserverAction::HandleStacksTrigger(a()),
        ],
    );
    assert!(!observer.accepts(&http(1, "a")));
    let payload = || StacksChainhookOccurrencePayload {
        chainhook: PayloadChainhook { uuid: "a".to_string() },
        content: String::new(),
    };
    let occurrence = ObserverInput::TriggerHandled(Some(ChainhookOccurrence::Http(
        5,
        OccurrencePayload::Stacks(payload()),
    )));
    let actions = feed(&mut observer, occurrence);
    assert_same(actions, vec![send(5)]);
    let actions = feed(&mut observer, sent(Ok(())));
    assert_same(
        actions,
        vec![
            ObserverAction::Emit(ObserverEvent::StacksPredicateTriggered(payload())),
            ObserverAction::Measure(Metric::StacksBlockEvaluated(6)),
            ObserverAction::Emit(ObserverEvent::StacksChainEvent((event(), reported(&["a"])))),
        ],
    );
}

#[test]
fn interrupted_stacks_predicate_is_removed_without_a_measure() {
    let mut observer = observer_with(links(false, false), store(&[], &["a"]));
    let event = || StacksChainEvent::ChainUpdatedWithMicroblocks(String::new());
    command(&mut observer, ObserverCommand::PropagateStacksChainEvent(event()));
    feed(&mut observer, ObserverInput::Evaluated(evaluation(vec![trigger("a", None, false, &[])])));
    let occurrence = ObserverInput::TriggerHandled(Some(ChainhookOccurrence::Http(
        5,
        OccurrencePayload::Stacks(StacksChainhookOccurrencePayload {
            chainhook: PayloadChainhook { uuid: "a".to_string() },
            content: String::new(),
        }),
    )));
    feed(&mut observer, occurrence);
    let actions = feed(&mut observer, sent(Err("refused".to_string())));
    assert_same(actions, vec![ObserverAction::Measure(Metric::StacksBlockEvaluated(0))]);
    let actions = command(&mut observer, ObserverCommand::PropagateStacksChainEvent(event()));
    assert_same(actions, vec![ObserverAction::EvaluateStacks(event(), vec![])]);
}

#[test]
fn monitoring_follows_the_store() {
    let mut observer = observer(true, false);
    let mut predicates: i64 = 0;
    let mut count = |actions: Vec<ObserverAction>| {
        for action in actions {
            match action {
                ObserverAction::Measure(Metric::BitcoinPredicateRegistered) => predicates += 1,
                ObserverAction::Measure(Metric::BitcoinPredicateDeregistered) => predicates -= 1,
                _ => {}
            }
        }
        predicates
    };
    assert_eq!(count(command(&mut observer, register("a"))), 1);
    assert_eq!(count(command(&mut observer, register("b"))), 2);
    assert_eq!(count(command(&mut observer, register("b"))), 3);
    let deregister =
        |uuid: &str| ObserverCommand::DeregisterBitcoinPredicate(uuid.to_string());
    assert_eq!(count(command(&mut observer, deregister("z"))), 3);
    assert_eq!(count(command(&mut observer, deregister("b"))), 2);
    assert_eq!(count(command(&mut observer, new_blocks(vec![], vec![]))), 2);
    let triggers = vec![trigger("a", Some(1), false, &[]), trigger("a", Some(1), false, &[])];
    assert_eq!(count(feed(&mut observer, ObserverInput::Evaluated(evaluation(triggers)))), 2);
    assert_eq!(count(feed(&mut observer, ObserverInput::TriggerHandled(None))), 1);
    assert!(observer.is_idle());
    assert_eq!(count(command(&mut observer, deregister("b"))), 0);
}

fn told(actions: &[ObserverAction], event: ObserverEvent) -> bool {
    let event = format!("{:?}", event);
    actions.iter().any(|action| match action {
        ObserverAction::Emit(emitted) => format!("{:?}", emitted) == event,
        _ => false,
    })
}

#[test]
fn stored_predicate_is_triggered_as_often_as_it_may_be() {
    let mut store = ChainhookStore::new();
    store.predicates.bitcoin_chainhooks.push(BitcoinChainhookSpecification {
        expire_after_occurrence: Some(2),
        ..hook("a", true)
    });
    store.predicates.bitcoin_chainhooks.push(hook("b", true));
    let mut observer = observer_with(links(true, false), store);
    for event in 1..=3 {
        let actions = command(&mut observer, new_blocks(vec![], vec![]));
        let triggers: Vec<TriggerChainhook> = match actions.last() {
            Some(ObserverAction::EvaluateBitcoin(_, hooks)) => hooks
                .iter()
                .map(|hook| trigger(&hook.uuid, hook.expire_after_occurrence, false, &[]))
                .collect(),
            _ => panic!("evaluation expected"),
        };
        assert_eq!(triggers.len(), 2);
        let mut actions = feed(&mut observer, ObserverInput::Evaluated(evaluation(triggers)));
        let mut handled = vec![];
        let mut all = vec![];
        while !observer.is_idle() {
            let uuid = match actions.last() {
                Some(ObserverAction::HandleBitcoinTrigger(trigger, _)) => {
                    trigger.chainhook.uuid.clone()
                }
                _ => panic!("trigger expected"),
            };
            let data = ChainhookOccurrence::Data(OccurrencePayload::Bitcoin(bitcoin_payload(&uuid)));
            handled.push(uuid);
            all.append(&mut actions);
            actions = feed(&mut observer, ObserverInput::TriggerHandled(Some(data)));
        }
        all.append(&mut actions);
        let triggered = |uuid| ObserverEvent::BitcoinPredicateTriggered(bitcoin_payload(uuid));
        let deregistered = ObserverEvent::PredicateDeregistered("a".to_string());
        assert!(told(&all, triggered("b")));
        if event <= 2 {
            assert_eq!(handled, vec!["a", "b"]);
            assert!(told(&all, triggered("a")));
            assert!(!told(&all, deregistered));
        } else {
            assert_eq!(handled, vec!["b"]);
            assert!(!told(&all, triggered("a")));
            assert!(told(&all, deregistered));
        }
    }
    assert_eq!(active(&mut observer), vec!["b"]);
}

#[test]
fn event_concerns_the_active_predicates_of_its_chain() {
    let mut store = store(&["a"], &["s"]);
    store.predicates.bitcoin_chainhooks.push(hook("disabled", false));
    store.predicates.bitcoin_chainhooks.push(BitcoinChainhookSpecification {
        expired_at: Some(1),
        ..hook("expired", true)
    });
    let mut observer = observer_with(links(true, false), store);
    let actions = command(&mut observer, new_blocks(vec![], vec![]));
    assert_same(
        actions,
        vec![ObserverAction::EvaluateBitcoin(blocks_event(vec![], vec![]), vec![hook("a", true)])],
    );
    let found = Evaluation {
        predicates_triggered: vec![],
        predicates_evaluated: vec![("a".to_string(), identifier(1, "0x1"))],
        predicates_expired: vec![("a".to_string(), identifier(2, "0x2"))],
    };
    let actions = feed(&mut observer, ObserverInput::Evaluated(found));
    match actions.last() {
        Some(ObserverAction::Emit(ObserverEvent::BitcoinChainEvent((_, report)))) => {
            assert_eq!(report.predicates_evaluated.entries().len(), 1);
            assert_eq!(report.predicates_evaluated.entries()[0].uuid(), "a");
            assert_eq!(report.predicates_expired.entries()[0].uuid(), "a");
            assert!(report.predicates_triggered.entries().is_empty());
        }
        _ => panic!("report expected"),
    }
}

#[test]
fn node_is_connected_before_the_triggers_are_told() {
    let mut observer = observer_with(links(true, false), store(&["a", "b"], &[]));
    command(&mut observer, new_blocks(vec![], vec![]));
    let a = || trigger("a", None, false, &["0xaa"]);
    let b = || trigger("b", None, true, &[]);
    let actions = feed(&mut observer, ObserverInput::Evaluated(evaluation(vec![a(), b()])));
    assert_same(
        actions,
        vec![
            ObserverAction::ConnectNode,
            ObserverAction::Emit(ObserverEvent::PredicatesTriggered(2)),
            ObserverAction::HandleBitcoinTrigger(a(), vec![]),
        ],
    );
}

#[test]
fn other_hooks_with_one_uuid_do_not_matter() {
    let mut observer = observer_with(links(true, false), store(&["b", "a", "b"], &[]));
    let deregister = ObserverCommand::DeregisterBitcoinPredicate("a".to_string());
    command(&mut observer, deregister);
    assert_eq!(active(&mut observer), vec!["b", "b"]);
}

#[test]
fn requests_are_tried_three_times_a_second_apart() {
    assert_eq!(REQUEST_ATTEMPTS, 3);
    assert_eq!(REQUEST_INTERVAL_SECONDS, 1);
}
