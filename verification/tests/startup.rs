use chainhook_observer::chain::{BlockIdentifier, StacksBlockData};
use chainhook_observer::commands::ObserverEvent;
use chainhook_observer::config::{EventObserverConfig, EventObserverConfigOverrides};
use chainhook_observer::hooks::{BitcoinChainhookSpecification, ChainhookConfig};
use chainhook_observer::network::{BitcoinNetwork, StacksNetwork};
use chainhook_observer::startup::{
    report_failure, start_event_observer, IngestionLogLevel, IngestionRoute, MonitoringBaseline,
    ObserverStartup, StacksObserverStartupContext,
};

fn hook(uuid: &str) -> BitcoinChainhookSpecification {
    BitcoinChainhookSpecification {
        uuid: uuid.to_string(),
        owner_uuid: None,
        name: "name".to_string(),
        version: 1,
        network: BitcoinNetwork::Regtest,
        expire_after_occurrence: None,
        enabled: true,
        expired_at: None,
        content: String::new(),
    }
}

fn config() -> EventObserverConfig {
    let mut config = EventObserverConfig::new_using_overrides(None).unwrap();
    config.chainhook_config = Some(ChainhookConfig {
        stacks_chainhooks: vec![],
        bitcoin_chainhooks: vec![hook("a"), hook("b")],
    });
    config
}

#[test]
fn zmq_observer_starts_without_a_server() {
    let overrides = EventObserverConfigOverrides {
        ingestion_port: None,
        bitcoind_rpc_username: None,
        bitcoind_rpc_password: None,
        bitcoind_rpc_url: None,
        bitcoind_zmq_url: Some("tcp://node".to_string()),
        stacks_node_rpc_url: None,
        display_logs: None,
        cache_path: None,
        bitcoin_network: None,
        stacks_network: None,
    };
    let mut config = EventObserverConfig::new_using_overrides(Some(&overrides)).unwrap();
    config.prometheus_monitoring_port = Some(9000);
    match start_event_observer(&config, None, false) {
        ObserverStartup::Bitcoin(startup) => {
            assert!(startup.chainhook_store.predicates.bitcoin_chainhooks.is_empty());
            assert_eq!(
                startup.monitoring,
                MonitoringBaseline {
                    stacks_predicates: 0,
                    bitcoin_predicates: 0,
                    last_block_height: None,
                }
            );
            assert_eq!(startup.monitoring_port, Some(9000));
        }
        ObserverStartup::Stacks(_) => panic!("unexpected startup"),
    }
}

#[test]
fn stacks_observer_starts_with_a_server() {
    let context = StacksObserverStartupContext {
        block_pool_seed: vec![StacksBlockData {
            block_identifier: BlockIdentifier { index: 7, hash: "0x07".to_string() },
            timestamp: 1,
            content: String::new(),
        }],
        last_block_height_appended: 7,
    };
    match start_event_observer(&config(), Some(context), false) {
        ObserverStartup::Stacks(startup) => {
            assert_eq!(startup.indexer.bitcoin_network, BitcoinNetwork::Regtest);
            assert_eq!(startup.indexer.stacks_network, StacksNetwork::Devnet);
            assert_eq!(startup.indexer.bitcoind_rpc_url, "http://localhost:18443");
            assert_eq!(startup.indexer.bitcoind_rpc_username, "devnet");
            assert_eq!(startup.block_pool_seed.len(), 1);
            assert_eq!(startup.block_pool_seed[0].block_identifier.index, 7);
            assert_eq!(startup.bitcoin_config.network, BitcoinNetwork::Regtest);
            assert_eq!(startup.chainhook_store.predicates.bitcoin_chainhooks.len(), 2);
            assert_eq!(
                startup.monitoring,
                MonitoringBaseline {
                    stacks_predicates: 0,
                    bitcoin_predicates: 2,
                    last_block_height: Some(7),
                }
            );
            assert_eq!(startup.monitoring_port, None);
            let ingestion = startup.ingestion;
            assert_eq!(ingestion.port, 20445);
            assert_eq!(ingestion.workers, 1);
            assert_eq!(ingestion.address, [0, 0, 0, 0]);
            assert_eq!(ingestion.keep_alive, 5);
            assert_eq!(ingestion.log_level, IngestionLogLevel::Off);
            assert!(!ingestion.cli_colors);
            assert_eq!(ingestion.json_limit_megabytes, 20);
            assert!(!ingestion.shutdown_on_ctrlc);
            assert_eq!(ingestion.shutdown_grace, 0);
            assert_eq!(ingestion.shutdown_mercy, 0);
            assert_eq!(
                ingestion.routes,
                vec![
                    IngestionRoute::Ping,
                    IngestionRoute::NewBitcoinBlock,
                    IngestionRoute::NewStacksBlock,
                    IngestionRoute::NewMicroblocks,
                    IngestionRoute::NewMempoolTx,
                    IngestionRoute::DropMempoolTx,
                    IngestionRoute::NewAttachment,
                    IngestionRoute::MinedBlock,
                    IngestionRoute::MinedMicroblock,
                ]
            );
        }
        ObserverStartup::Bitcoin(_) => panic!("unexpected startup"),
    }
}

#[test]
fn server_logs_and_proxies_as_configured() {
    let mut config = config();
    config.display_logs = true;
    config.bitcoin_rpc_proxy_enabled = true;
    for (cli, level) in [(true, IngestionLogLevel::Critical), (false, IngestionLogLevel::Debug)] {
        match start_event_observer(&config, None, cli) {
            ObserverStartup::Stacks(startup) => {
                assert_eq!(startup.ingestion.log_level, level);
                assert_eq!(startup.ingestion.routes.len(), 11);
                assert_eq!(startup.ingestion.routes[9], IngestionRoute::BitcoinRpcCall);
                assert_eq!(startup.ingestion.routes[10], IngestionRoute::BitcoinWalletRpcCall);
                assert_eq!(startup.monitoring.last_block_height, Some(0));
                assert!(startup.block_pool_seed.is_empty());
            }
            ObserverStartup::Bitcoin(_) => panic!("unexpected startup"),
        }
    }
}

#[test]
fn startup_context_defaults_to_nothing() {
    let context = StacksObserverStartupContext::default();
    assert!(context.block_pool_seed.is_empty());
    assert_eq!(context.last_block_height_appended, 0);
}

#[test]
fn failure_is_reported_to_listeners_only() {
    let events = report_failure(true);
    assert_eq!(events.len(), 1);
    assert!(matches!(events[0], ObserverEvent::Terminate));
    assert!(report_failure(false).is_empty());
}
