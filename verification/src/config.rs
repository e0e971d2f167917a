//! The observer's configuration.

use vstd::prelude::*;

use crate::commands::DataHandlerEvent;
use crate::hooks::{ChainhookConfig, ChainhookStore};
use crate::network::{BitcoinBlockSignaling, BitcoinNetwork, StacksNetwork, StacksNodeConfig};

verus! {

/// The port on which the observer listens unless told otherwise.
pub const DEFAULT_INGESTION_PORT: u16 = 20445;

/// The settings of an observer.
#[derive(Clone, Debug)]
pub struct EventObserverConfig {
    pub chainhook_config: Option<ChainhookConfig>,
    pub bitcoin_rpc_proxy_enabled: bool,
    pub ingestion_port: u16,
    pub bitcoind_rpc_username: String,
    pub bitcoind_rpc_password: String,
    pub bitcoind_rpc_url: String,
    pub bitcoin_block_signaling: BitcoinBlockSignaling,
    pub display_logs: bool,
    pub cache_path: String,
    pub bitcoin_network: BitcoinNetwork,
    pub stacks_network: StacksNetwork,
    pub data_handler_tx: Option<crossbeam_channel::Sender<DataHandlerEvent>>,
    pub prometheus_monitoring_port: Option<u16>,
}

/// Settings that take the place of the defaults.
#[derive(Clone, Debug)]
pub struct EventObserverConfigOverrides {
    pub ingestion_port: Option<u16>,
    pub bitcoind_rpc_username: Option<String>,
    pub bitcoind_rpc_password: Option<String>,
    pub bitcoind_rpc_url: Option<String>,
    pub bitcoind_zmq_url: Option<String>,
    pub stacks_node_rpc_url: Option<String>,
    pub display_logs: Option<bool>,
    pub cache_path: Option<String>,
    pub bitcoin_network: Option<String>,
    pub stacks_network: Option<String>,
}

/// What is needed to reach the Bitcoin node.
#[derive(Clone, Debug)]
pub struct BitcoinConfig {
    pub username: String,
    pub password: String,
    pub rpc_url: String,
    pub network: BitcoinNetwork,
    pub bitcoin_block_signaling: BitcoinBlockSignaling,
}

/// The overriding text, or the default where there is none.
pub open spec fn text_or(value: Option<String>, default: Seq<char>) -> Seq<char> {
    match value {
        Some(value) => value@,
        None => default,
    }
}

/// Copies the overriding text, or the default where there is none.
fn choose_text(value: &Option<String>, default: &str) -> (text: String)
    ensures
        text@ == text_or(*value, default@),
{
    match value {
        Some(value) => value.clone(),
        None => default.to_string(),
    }
}

/// The overrides that override nothing.
pub open spec fn overrides_nothing(overrides: EventObserverConfigOverrides) -> bool {
    &&& overrides.ingestion_port is None
    &&& overrides.bitcoind_rpc_username is None
    &&& overrides.bitcoind_rpc_password is None
    &&& overrides.bitcoind_rpc_url is None
    &&& overrides.bitcoind_zmq_url is None
    &&& overrides.stacks_node_rpc_url is None
    &&& overrides.display_logs is None
    &&& overrides.cache_path is None
    &&& overrides.bitcoin_network is None
    &&& overrides.stacks_network is None
}

/// Whether a store holds exactly the predicates of a configuration.
pub open spec fn holds_predicates(store: ChainhookStore, config: Option<ChainhookConfig>) -> bool {
    match config {
        Some(config) => {
            &&& store.predicates.stacks_chainhooks@ == config.stacks_chainhooks@
            &&& store.predicates.bitcoin_chainhooks@ == config.bitcoin_chainhooks@
        },
        None => {
            &&& store.predicates.stacks_chainhooks@.len() == 0
            &&& store.predicates.bitcoin_chainhooks@.len() == 0
        },
    }
}

impl EventObserverConfigOverrides {
    /// Overrides that override nothing.
    fn none() -> (overrides: EventObserverConfigOverrides)
        ensures
            overrides_nothing(overrides),
    {
        EventObserverConfigOverrides {
            ingestion_port: None,
            bitcoind_rpc_username: None,
            bitcoind_rpc_password: None,
            bitcoind_rpc_url: None,
            bitcoind_zmq_url: None,
            stacks_node_rpc_url: None,
            display_logs: None,
            cache_path: None,
            bitcoin_network: None,
            stacks_network: None,
        }
    }

    /// The Bitcoin network to follow; none where the name given is of no
    /// network.
    pub open spec fn spec_bitcoin_network(self) -> Option<BitcoinNetwork> {
        match self.bitcoin_network {
            Some(name) => BitcoinNetwork::named(name@),
            None => Some(BitcoinNetwork::Regtest),
        }
    }

    /// The Stacks network to follow; none where the name given is of no
    /// network.
    pub open spec fn spec_stacks_network(self) -> Option<StacksNetwork> {
        match self.stacks_network {
            Some(name) => StacksNetwork::named(name@),
            None => Some(StacksNetwork::Devnet),
        }
    }

    /// The port to listen on.
    pub open spec fn spec_ingestion_port(self) -> u16 {
        match self.ingestion_port {
            Some(port) => port,
            None => DEFAULT_INGESTION_PORT,
        }
    }

    /// Whether a configuration is that of the defaults with these overrides.
    pub open spec fn yield_config(self, config: EventObserverConfig) -> bool {
        &&& config.chainhook_config is None
        &&& !config.bitcoin_rpc_proxy_enabled
        &&& config.ingestion_port == self.spec_ingestion_port()
        &&& config.bitcoind_rpc_username@ == text_or(self.bitcoind_rpc_username, "devnet"@)
        &&& config.bitcoind_rpc_password@ == text_or(self.bitcoind_rpc_password, "devnet"@)
        &&& config.bitcoind_rpc_url@ == text_or(self.bitcoind_rpc_url, "http://localhost:18443"@)
        &&& match self.bitcoind_zmq_url {
            Some(url) => config.bitcoin_block_signaling == BitcoinBlockSignaling::ZeroMQ(url),
            None => config.bitcoin_block_signaling matches BitcoinBlockSignaling::Stacks(node)
                && node.rpc_url@ == text_or(self.stacks_node_rpc_url, "http://localhost:20443"@)
                && node.ingestion_port == self.spec_ingestion_port(),
        }
        &&& config.display_logs == match self.display_logs {
            Some(display) => display,
            None => false,
        }
        &&& config.cache_path@ == text_or(self.cache_path, "cache"@)
        &&& Some(config.bitcoin_network) == self.spec_bitcoin_network()
        &&& Some(config.stacks_network) == self.spec_stacks_network()
        &&& config.data_handler_tx is None
        &&& config.prometheus_monitoring_port is None
    }
}

impl EventObserverConfig {
    /// The path of the cache.
    pub fn get_cache_path_buf(&self) -> (path: String)
        ensures
            path == self.cache_path,
    {
        self.cache_path.clone()
    }

    /// What is needed to reach the Bitcoin node.
    pub fn get_bitcoin_config(&self) -> (bitcoin_config: BitcoinConfig)
        ensures
            bitcoin_config == (BitcoinConfig {
                username: self.bitcoind_rpc_username,
                password: self.bitcoind_rpc_password,
                rpc_url: self.bitcoind_rpc_url,
                network: self.bitcoin_network,
                bitcoin_block_signaling: self.bitcoin_block_signaling,
            }),
    {
        BitcoinConfig {
            username: self.bitcoind_rpc_username.clone(),
            password: self.bitcoind_rpc_password.clone(),
            rpc_url: self.bitcoind_rpc_url.clone(),
            network: self.bitcoin_network,
            bitcoin_block_signaling: self.bitcoin_block_signaling.clone(),
        }
    }

    /// The store that the observer starts with: the configured predicates, if
    /// there are any.
    pub fn get_chainhook_store(&self) -> (store: ChainhookStore)
        ensures
            holds_predicates(store, self.chainhook_config),
    {
        let mut chainhook_store = ChainhookStore::new();
        if let Some(chainhook_config) = &self.chainhook_config {
            let mut stacks_chainhooks = chainhook_config.stacks_chainhooks.clone();
            let mut bitcoin_chainhooks = chainhook_config.bitcoin_chainhooks.clone();
            assert(stacks_chainhooks@ =~= chainhook_config.stacks_chainhooks@);
            assert(bitcoin_chainhooks@ =~= chainhook_config.bitcoin_chainhooks@);
            chainhook_store.predicates.stacks_chainhooks.append(&mut stacks_chainhooks);
            chainhook_store.predicates.bitcoin_chainhooks.append(&mut bitcoin_chainhooks);
            assert(chainhook_store.predicates.stacks_chainhooks@
                =~= chainhook_config.stacks_chainhooks@);
            assert(chainhook_store.predicates.bitcoin_chainhooks@
                =~= chainhook_config.bitcoin_chainhooks@);
        }
        chainhook_store
    }

    /// The Stacks node to listen to, where the observer learns of Bitcoin blocks
    /// from one.
    pub fn get_stacks_node_config(&self) -> (config: &StacksNodeConfig)
        requires
            self.bitcoin_block_signaling is Stacks,
        ensures
            self.bitcoin_block_signaling == BitcoinBlockSignaling::Stacks(*config),
    {
        match &self.bitcoin_block_signaling {
            BitcoinBlockSignaling::Stacks(config) => config,
            BitcoinBlockSignaling::ZeroMQ(_) => vstd::pervasive::unreached(),
        }
    }

    /// The default configuration, with some of its settings overridden. Fails on
    /// the name of an unknown network; of two such names, the Bitcoin network's
    /// is reported.
    pub fn new_using_overrides(overrides: Option<&EventObserverConfigOverrides>) -> (result: Result<
        EventObserverConfig,
        String,
    >)
        ensures
            match overrides {
                Some(overrides) => match (
                    overrides.spec_bitcoin_network(),
                    overrides.spec_stacks_network(),
                ) {
                    (None, _) => result matches Err(message) && message@
                        == BitcoinNetwork::unsupported(overrides.bitcoin_network->0@),
                    (Some(_), None) => result matches Err(message) && message@
                        == StacksNetwork::unsupported(overrides.stacks_network->0@),
                    (Some(_), Some(_)) => result matches Ok(config) && overrides.yield_config(
                        config,
                    ),
                },
                None => result matches Ok(config) && forall|overrides: EventObserverConfigOverrides|
                    overrides_nothing(overrides) ==> #[trigger] overrides.yield_config(config),
            },
    {
        let defaults = EventObserverConfigOverrides::none();
        let overrides: &EventObserverConfigOverrides = match overrides {
            Some(overrides) => overrides,
            None => &defaults,
        };

        let bitcoin_network = match &overrides.bitcoin_network {
            Some(network) => match BitcoinNetwork::from_str(network.as_str()) {
                Ok(network) => network,
                Err(message) => {
                    return Err(message);
                },
            },
            None => BitcoinNetwork::Regtest,
        };
        let stacks_network = match &overrides.stacks_network {
            Some(network) => match StacksNetwork::from_str(network.as_str()) {
                Ok(network) => network,
                Err(message) => {
                    return Err(message);
                },
            },
            None => StacksNetwork::Devnet,
        };

        let ingestion_port: u16 = overrides.ingestion_port.unwrap_or(DEFAULT_INGESTION_PORT);
        let bitcoin_block_signaling = match &overrides.bitcoind_zmq_url {
            Some(url) => BitcoinBlockSignaling::ZeroMQ(url.clone()),
            None => BitcoinBlockSignaling::Stacks(
                StacksNodeConfig::new(
                    choose_text(&overrides.stacks_node_rpc_url, "http://localhost:20443"),
                    ingestion_port,
                ),
            ),
        };
        Ok(
            EventObserverConfig {
                bitcoin_rpc_proxy_enabled: false,
                chainhook_config: None,
                ingestion_port,
                bitcoind_rpc_username: choose_text(&overrides.bitcoind_rpc_username, "devnet"),
                bitcoind_rpc_password: choose_text(&overrides.bitcoind_rpc_password, "devnet"),
                bitcoind_rpc_url: choose_text(
                    &overrides.bitcoind_rpc_url,
                    "http://localhost:18443",
                ),
                bitcoin_block_signaling,
                display_logs: overrides.display_logs.unwrap_or(false),
                cache_path: choose_text(&overrides.cache_path, "cache"),
                bitcoin_network,
                stacks_network,
                data_handler_tx: None,
                prometheus_monitoring_port: None,
            },
        )
    }
}

} // verus!
