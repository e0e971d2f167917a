use chainhook_observer::config::{
    EventObserverConfig, EventObserverConfigOverrides, DEFAULT_INGESTION_PORT,
};
use chainhook_observer::hooks::{BitcoinChainhookSpecification, ChainhookConfig};
use chainhook_observer::network::{BitcoinBlockSignaling, BitcoinNetwork, StacksNetwork};

fn no_overrides() -> EventObserverConfigOverrides {
    EventObserverConfigOverrides {
        ingestion_port: None,
        bitcoind_rpc_username: None,
        bitcoind_rpc_password: None,
        bitcoind_rpc_url: None,
        bitcoind_zmq_url: None,
        stacks_node_rpc_url: None,
        display_logs: None,
        cache_path: None,
        bitcoin_network: None,
        stacks_network: None,
    }
}

fn hook(uuid: &str) -> BitcoinChainhookSpecification {
    BitcoinChainhookSpecification {
        uuid: uuid.to_string(),
        owner_uuid: None,
        name: "name".to_string(),
        version: 1,
        network: BitcoinNetwork::Regtest,
        expire_after_occurrence: None,
        enabled: true,
        expired_at: None,
        content: String::new(),
    }
}

#[test]
fn defaults_without_overrides() {
    let given = no_overrides();
    for overrides in [None, Some(&given)] {
        let config = EventObserverConfig::new_using_overrides(overrides).unwrap();
        assert!(!config.bitcoin_rpc_proxy_enabled);
        assert!(config.chainhook_config.is_none());
        assert_eq!(config.ingestion_port, 20445);
        assert_eq!(config.ingestion_port, DEFAULT_INGESTION_PORT);
        assert_eq!(config.bitcoind_rpc_username, "devnet");
        assert_eq!(config.bitcoind_rpc_password, "devnet");
        assert_eq!(config.bitcoind_rpc_url, "http://localhost:18443");
        match &config.bitcoin_block_signaling {
            BitcoinBlockSignaling::Stacks(node) => {
                assert_eq!(node.rpc_url, "http://localhost:20443");
                assert_eq!(node.ingestion_port, 20445);
            }
            BitcoinBlockSignaling::ZeroMQ(_) => panic!("unexpected signaling"),
        }
        assert!(!config.display_logs);
        assert_eq!(config.cache_path, "cache");
        assert_eq!(config.get_cache_path_buf(), "cache");
        assert_eq!(config.bitcoin_network, BitcoinNetwork::Regtest);
        assert_eq!(config.stacks_network, StacksNetwork::Devnet);
        assert!(config.data_handler_tx.is_none());
        assert_eq!(config.prometheus_monitoring_port, None);
    }
}

#[test]
fn overrides_take_the_place_of_defaults() {
    let overrides = EventObserverConfigOverrides {
        ingestion_port: Some(4000),
        bitcoind_rpc_username: Some("user".to_string()),
        bitcoind_rpc_password: Some("word".to_string()),
        bitcoind_rpc_url: Some("http://node:1".to_string()),
        bitcoind_zmq_url: None,
        stacks_node_rpc_url: Some("http://stacks:2".to_string()),
        display_logs: Some(true),
        cache_path: Some("elsewhere".to_string()),
        bitcoin_network: Some("mainnet".to_string()),
        stacks_network: Some("testnet".to_string()),
    };
    let config = EventObserverConfig::new_using_overrides(Some(&overrides)).unwrap();
    assert_eq!(config.ingestion_port, 4000);
    assert_eq!(config.bitcoind_rpc_username, "user");
    assert_eq!(config.bitcoind_rpc_password, "word");
    assert_eq!(config.bitcoind_rpc_url, "http://node:1");
    let node = config.get_stacks_node_config();
    assert_eq!(node.rpc_url, "http://stacks:2");
    assert_eq!(node.ingestion_port, 4000);
    assert!(config.display_logs);
    assert_eq!(config.cache_path, "elsewhere");
    assert_eq!(config.bitcoin_network, BitcoinNetwork::Mainnet);
    assert_eq!(config.stacks_network, StacksNetwork::Testnet);
}

#[test]
fn zmq_url_decides_the_signaling() {
    let mut overrides = no_overrides();
    overrides.bitcoind_zmq_url = Some("tcp://node:18543".to_string());
    overrides.stacks_node_rpc_url = Some("http://stacks:2".to_string());
    let config = EventObserverConfig::new_using_overrides(Some(&overrides)).unwrap();
    assert_eq!(
        config.bitcoin_block_signaling,
        BitcoinBlockSignaling::ZeroMQ("tcp://node:18543".to_string())
    );
}

#[test]
fn unknown_networks_are_refused() {
    let mut overrides = no_overrides();
    overrides.stacks_network = Some("nonet".to_string());
    assert_eq!(
        EventObserverConfig::new_using_overrides(Some(&overrides)).unwrap_err(),
        "network 'nonet' unsupported (mainnet, testnet, devnet, simnet)"
    );
    overrides.bitcoin_network = Some("Mainnet".to_string());
    assert_eq!(
        EventObserverConfig::new_using_overrides(Some(&overrides)).unwrap_err(),
        "network 'Mainnet' unsupported (mainnet, testnet, regtest, signet)"
    );
}

#[test]
fn networks_have_names() {
    assert_eq!(BitcoinNetwork::from_str("regtest"), Ok(BitcoinNetwork::Regtest));
    assert_eq!(BitcoinNetwork::from_str("testnet"), Ok(BitcoinNetwork::Testnet));
    assert_eq!(BitcoinNetwork::from_str("mainnet"), Ok(BitcoinNetwork::Mainnet));
    assert_eq!(BitcoinNetwork::from_str("signet"), Ok(BitcoinNetwork::Signet));
    assert_eq!(StacksNetwork::from_str("simnet"), Ok(StacksNetwork::Simnet));
    assert_eq!(StacksNetwork::from_str("devnet"), Ok(StacksNetwork::Devnet));
    assert_eq!(StacksNetwork::from_str("testnet"), Ok(StacksNetwork::Testnet));
    assert_eq!(StacksNetwork::from_str("mainnet"), Ok(StacksNetwork::Mainnet));
    assert!(BitcoinNetwork::from_str("").is_err());
    assert!(StacksNetwork::from_str("signet").is_err());
}

#[test]
fn bitcoin_config_repeats_the_settings() {
    let mut overrides = no_overrides();
    overrides.bitcoind_rpc_username = Some("user".to_string());
    overrides.bitcoin_network = Some("signet".to_string());
    let config = EventObserverConfig::new_using_overrides(Some(&overrides)).unwrap();
    let bitcoin_config = config.get_bitcoin_config();
    assert_eq!(bitcoin_config.username, "user");
    assert_eq!(bitcoin_config.password, "devnet");
    assert_eq!(bitcoin_config.rpc_url, "http://localhost:18443");
    assert_eq!(bitcoin_config.network, BitcoinNetwork::Signet);
    assert_eq!(bitcoin_config.bitcoin_block_signaling, config.bitcoin_block_signaling);
}

#[test]
fn store_starts_with_the_configured_predicates() {
    let mut config = EventObserverConfig::new_using_overrides(None).unwrap();
    let store = config.get_chainhook_store();
    assert!(store.predicates.bitcoin_chainhooks.is_empty());
    assert!(store.predicates.stacks_chainhooks.is_empty());
    config.chainhook_config = Some(ChainhookConfig {
        stacks_chainhooks: vec![],
        bitcoin_chainhooks: vec![hook("a"), hook("b")],
    });
    let store = config.get_chainhook_store();
    assert_eq!(store.predicates.bitcoin_chainhooks, vec![hook("a"), hook("b")]);
    assert!(store.predicates.stacks_chainhooks.is_empty());
}
