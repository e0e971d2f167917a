//! How an observer starts: what is set up before the first command is handled.

use vstd::prelude::*;

use crate::chain::StacksBlockData;
use crate::commands::ObserverEvent;
use crate::config::{holds_predicates, BitcoinConfig, EventObserverConfig};
use crate::hooks::ChainhookStore;
use crate::network::{BitcoinBlockSignaling, BitcoinNetwork, StacksNetwork};

verus! {

/// The size, in megabytes, that a JSON document sent to the ingestion server
/// may have.
pub const JSON_LIMIT_MEGABYTES: u64 = 20;

/// How long, in seconds, the ingestion server keeps a connection.
pub const KEEP_ALIVE_SECONDS: u32 = 5;

/// What an observer of the Stacks chain starts from.
#[derive(Debug)]
pub struct StacksObserverStartupContext {
    pub block_pool_seed: Vec<StacksBlockData>,
    pub last_block_height_appended: u64,
}

impl Clone for StacksObserverStartupContext {
    fn clone(&self) -> (copy: Self)
        ensures
            copy.block_pool_seed@ == self.block_pool_seed@,
            copy.last_block_height_appended == self.last_block_height_appended,
    {
        let block_pool_seed = self.block_pool_seed.clone();
        assert(block_pool_seed@ =~= self.block_pool_seed@);
        StacksObserverStartupContext {
            block_pool_seed,
            last_block_height_appended: self.last_block_height_appended,
        }
    }
}

impl Default for StacksObserverStartupContext {
    /// The start from nothing.
    fn default() -> (context: Self)
        ensures
            context.block_pool_seed@.len() == 0,
            context.last_block_height_appended == 0,
    {
        StacksObserverStartupContext { block_pool_seed: Vec::new(), last_block_height_appended: 0 }
    }
}

/// The settings of the indexer, which puts the blocks of the Stacks chain in
/// order.
#[derive(Clone, Debug)]
pub struct IndexerConfig {
    pub bitcoin_network: BitcoinNetwork,
    pub stacks_network: StacksNetwork,
    pub bitcoind_rpc_url: String,
    pub bitcoind_rpc_username: String,
    pub bitcoind_rpc_password: String,
    pub bitcoin_block_signaling: BitcoinBlockSignaling,
}

/// How much the ingestion server logs.
#[derive(Clone, Copy, Debug, PartialEq, Eq, Structural)]
pub enum IngestionLogLevel {
    Critical,
    Debug,
    Off,
}

/// What the ingestion server can be asked.
#[derive(Clone, Copy, Debug, PartialEq, Eq, Structural)]
pub enum IngestionRoute {
    Ping,
    NewBitcoinBlock,
    NewStacksBlock,
    NewMicroblocks,
    NewMempoolTx,
    DropMempoolTx,
    NewAttachment,
    MinedBlock,
    MinedMicroblock,
    BitcoinRpcCall,
    BitcoinWalletRpcCall,
}

/// The settings of the server that takes in chain data.
#[derive(Clone, Debug)]
pub struct IngestionConfig {
    pub port: u16,
    pub workers: usize,
    /// The address to listen on.
    pub address: [u8; 4],
    pub keep_alive: u32,
    pub log_level: IngestionLogLevel,
    pub cli_colors: bool,
    pub json_limit_megabytes: u64,
    /// Whether an interrupt from the keyboard shuts the server down.
    pub shutdown_on_ctrlc: bool,
    /// How long, in seconds, pending requests may take after a shutdown, and
    /// connections after that.
    pub shutdown_grace: u32,
    pub shutdown_mercy: u32,
    pub routes: Vec<IngestionRoute>,
}

/// What the monitoring starts with.
#[derive(Clone, Copy, Debug, PartialEq, Eq, Structural)]
pub struct MonitoringBaseline {
    pub stacks_predicates: u64,
    pub bitcoin_predicates: u64,
    pub last_block_height: Option<u64>,
}

/// How an observer that learns of Bitcoin blocks from the Bitcoin node starts.
#[derive(Debug)]
pub struct BitcoinObserverStartup {
    pub chainhook_store: ChainhookStore,
    pub monitoring: MonitoringBaseline,
    /// The port on which the metrics are served, if they are.
    pub monitoring_port: Option<u16>,
}

/// How an observer that learns of Bitcoin blocks from a Stacks node starts.
#[derive(Debug)]
pub struct StacksObserverStartup {
    pub indexer: IndexerConfig,
    pub block_pool_seed: Vec<StacksBlockData>,
    pub bitcoin_config: BitcoinConfig,
    pub chainhook_store: ChainhookStore,
    pub monitoring: MonitoringBaseline,
    /// The port on which the metrics are served, if they are.
    pub monitoring_port: Option<u16>,
    pub ingestion: IngestionConfig,
}

/// How an observer starts.
#[derive(Debug)]
pub enum ObserverStartup {
    Bitcoin(BitcoinObserverStartup),
    Stacks(StacksObserverStartup),
}

/// What the monitoring starts with for a store: how many predicates of each
/// chain there are.
pub open spec fn baseline(
    store: ChainhookStore,
    last_block_height: Option<u64>,
) -> MonitoringBaseline {
    MonitoringBaseline {
        stacks_predicates: store.predicates.stacks_chainhooks@.len() as u64,
        bitcoin_predicates: store.predicates.bitcoin_chainhooks@.len() as u64,
        last_block_height,
    }
}

/// How much the ingestion server logs: nothing unless logs are displayed, and
/// only what is critical on a command line.
pub open spec fn log_level(display_logs: bool, cli: bool) -> IngestionLogLevel {
    if !display_logs {
        IngestionLogLevel::Off
    } else if cli {
        IngestionLogLevel::Critical
    } else {
        IngestionLogLevel::Debug
    }
}

/// What every ingestion server can be asked.
pub open spec fn ingestion_routes() -> Seq<IngestionRoute> {
    seq![
        IngestionRoute::Ping,
        IngestionRoute::NewBitcoinBlock,
        IngestionRoute::NewStacksBlock,
        IngestionRoute::NewMicroblocks,
        IngestionRoute::NewMempoolTx,
        IngestionRoute::DropMempoolTx,
        IngestionRoute::NewAttachment,
        IngestionRoute::MinedBlock,
        IngestionRoute::MinedMicroblock,
    ]
}

/// What an ingestion server can be asked that passes calls on to the Bitcoin
/// node.
pub open spec fn proxy_routes() -> Seq<IngestionRoute> {
    seq![IngestionRoute::BitcoinRpcCall, IngestionRoute::BitcoinWalletRpcCall]
}

impl BitcoinObserverStartup {
    /// Whether this is how an observer with the given configuration starts.
    pub open spec fn starts(self, config: EventObserverConfig) -> bool {
        &&& holds_predicates(self.chainhook_store, config.chainhook_config)
        &&& self.monitoring == baseline(self.chainhook_store, None)
        &&& self.monitoring_port == config.prometheus_monitoring_port
    }
}

impl IngestionConfig {
    /// Whether these are the ingestion server's settings for an observer with
    /// the given configuration.
    pub open spec fn serves(self, config: EventObserverConfig, cli: bool) -> bool {
        &&& config.bitcoin_block_signaling matches BitcoinBlockSignaling::Stacks(node)
        &&& self.port == node.ingestion_port
        &&& self.workers == 1
        &&& self.address@ == seq![0u8, 0u8, 0u8, 0u8]
        &&& self.keep_alive == KEEP_ALIVE_SECONDS
        &&& self.log_level == log_level(config.display_logs, cli)
        &&& !self.cli_colors
        &&& self.json_limit_megabytes == JSON_LIMIT_MEGABYTES
        &&& !self.shutdown_on_ctrlc
        &&& self.shutdown_grace == 0
        &&& self.shutdown_mercy == 0
        &&& self.routes@ == if config.bitcoin_rpc_proxy_enabled {
            ingestion_routes() + proxy_routes()
        } else {
            ingestion_routes()
        }
    }
}

impl StacksObserverStartup {
    /// Whether this is how an observer with the given configuration starts. The
    /// indexer always follows the networks of a developer's machine.
    pub open spec fn starts(
        self,
        config: EventObserverConfig,
        block_pool_seed: Seq<StacksBlockData>,
        last_block_height_appended: u64,
        cli: bool,
    ) -> bool {
        &&& self.indexer == (IndexerConfig {
            bitcoin_network: BitcoinNetwork::Regtest,
            stacks_network: StacksNetwork::Devnet,
            bitcoind_rpc_url: config.bitcoind_rpc_url,
            bitcoind_rpc_username: config.bitcoind_rpc_username,
            bitcoind_rpc_password: config.bitcoind_rpc_password,
            bitcoin_block_signaling: config.bitcoin_block_signaling,
        })
        &&& self.block_pool_seed@ == block_pool_seed
        &&& self.bitcoin_config == (BitcoinConfig {
            username: config.bitcoind_rpc_username,
            password: config.bitcoind_rpc_password,
            rpc_url: config.bitcoind_rpc_url,
            network: config.bitcoin_network,
            bitcoin_block_signaling: config.bitcoin_block_signaling,
        })
        &&& holds_predicates(self.chainhook_store, config.chainhook_config)
        &&& self.monitoring == baseline(self.chainhook_store, Some(last_block_height_appended))
        &&& self.monitoring_port == config.prometheus_monitoring_port
        &&& self.ingestion.serves(config, cli)
    }
}

/// What the monitoring starts with for a store.
fn measure_baseline(store: &ChainhookStore, last_block_height: Option<u64>) -> (monitoring:
    MonitoringBaseline)
    ensures
        monitoring == baseline(*store, last_block_height),
{
    MonitoringBaseline {
        stacks_predicates: store.predicates.stacks_chainhooks.len() as u64,
        bitcoin_predicates: store.predicates.bitcoin_chainhooks.len() as u64,
        last_block_height,
    }
}

/// Sets up an observer that learns of Bitcoin blocks from the Bitcoin node.
pub fn start_bitcoin_event_observer(config: &EventObserverConfig) -> (startup:
    BitcoinObserverStartup)
    ensures
        startup.starts(*config),
{
    let chainhook_store = config.get_chainhook_store();
    let monitoring = measure_baseline(&chainhook_store, None);
    BitcoinObserverStartup {
        chainhook_store,
        monitoring,
        monitoring_port: config.prometheus_monitoring_port,
    }
}

/// Sets up the server that takes in chain data.
fn configure_ingestion(config: &EventObserverConfig, cli: bool) -> (ingestion: IngestionConfig)
    requires
        config.bitcoin_block_signaling is Stacks,
    ensures
        ingestion.serves(*config, cli),
{
    let log_level = if config.display_logs {
        if cli {
            IngestionLogLevel::Critical
        } else {
            IngestionLogLevel::Debug
        }
    } else {
        IngestionLogLevel::Off
    };
    let mut routes = vec![
        IngestionRoute::Ping,
        IngestionRoute::NewBitcoinBlock,
        IngestionRoute::NewStacksBlock,
        IngestionRoute::NewMicroblocks,
        IngestionRoute::NewMempoolTx,
        IngestionRoute::DropMempoolTx,
        IngestionRoute::NewAttachment,
        IngestionRoute::MinedBlock,
        IngestionRoute::MinedMicroblock,
    ];
    assert(routes@ =~= ingestion_routes());
    if config.bitcoin_rpc_proxy_enabled {
        routes.push(IngestionRoute::BitcoinRpcCall);
        routes.push(IngestionRoute::BitcoinWalletRpcCall);
        assert(routes@ =~= ingestion_routes() + proxy_routes());
    }
    let ingestion = IngestionConfig {
        port: config.get_stacks_node_config().ingestion_port,
        workers: 1,
        address: [0, 0, 0, 0],
        keep_alive: KEEP_ALIVE_SECONDS,
        log_level,
        cli_colors: false,
        json_limit_megabytes: JSON_LIMIT_MEGABYTES,
        shutdown_on_ctrlc: false,
        shutdown_grace: 0,
        shutdown_mercy: 0,
        routes,
    };
    assert(ingestion.address@ =~= seq![0u8, 0u8, 0u8, 0u8]);
    ingestion
}

/// Sets up an observer that learns of Bitcoin blocks from a Stacks node.
pub fn start_stacks_event_observer(
    config: &EventObserverConfig,
    stacks_startup_context: StacksObserverStartupContext,
    cli: bool,
) -> (startup: StacksObserverStartup)
    requires
        config.bitcoin_block_signaling is Stacks,
    ensures
        startup.starts(
            *config,
            stacks_startup_context.block_pool_seed@,
            stacks_startup_context.last_block_height_appended,
            cli,
        ),
{
    let indexer = IndexerConfig {
        bitcoind_rpc_url: config.bitcoind_rpc_url.clone(),
        bitcoind_rpc_username: config.bitcoind_rpc_username.clone(),
        bitcoind_rpc_password: config.bitcoind_rpc_password.clone(),
        stacks_network: StacksNetwork::Devnet,
        bitcoin_network: BitcoinNetwork::Regtest,
        bitcoin_block_signaling: config.bitcoin_block_signaling.clone(),
    };
    let chainhook_store = config.get_chainhook_store();
    let monitoring = measure_baseline(
        &chainhook_store,
        Some(stacks_startup_context.last_block_height_appended),
    );
    StacksObserverStartup {
        indexer,
        block_pool_seed: stacks_startup_context.block_pool_seed,
        bitcoin_config: config.get_bitcoin_config(),
        chainhook_store,
        monitoring,
        monitoring_port: config.prometheus_monitoring_port,
        ingestion: configure_ingestion(config, cli),
    }
}

/// Sets up an observer, by where it learns of Bitcoin blocks. One of the Stacks
/// chain that is told of no start starts from nothing.
pub fn start_event_observer(
    config: &EventObserverConfig,
    stacks_startup_context: Option<StacksObserverStartupContext>,
    cli: bool,
) -> (startup: ObserverStartup)
    ensures
        match (config.bitcoin_block_signaling, stacks_startup_context) {
            (BitcoinBlockSignaling::ZeroMQ(_), _) => {
                startup matches ObserverStartup::Bitcoin(startup) && startup.starts(*config)
            },
            (BitcoinBlockSignaling::Stacks(_), Some(context)) => {
                startup matches ObserverStartup::Stacks(startup) && startup.starts(
                    *config,
                    context.block_pool_seed@,
                    context.last_block_height_appended,
                    cli,
                )
            },
            (BitcoinBlockSignaling::Stacks(_), None) => {
                startup matches ObserverStartup::Stacks(startup) && startup.starts(
                    *config,
                    Seq::empty(),
                    0,
                    cli,
                )
            },
        },
{
    match &config.bitcoin_block_signaling {
        BitcoinBlockSignaling::ZeroMQ(_) => {
            ObserverStartup::Bitcoin(start_bitcoin_event_observer(config))
        },
        BitcoinBlockSignaling::Stacks(_) => {
            let context = match stacks_startup_context {
                Some(context) => context,
                None => {
                    let context = StacksObserverStartupContext::default();
                    assert(context.block_pool_seed@ =~= Seq::empty());
                    context
                },
            };
            ObserverStartup::Stacks(start_stacks_event_observer(config, context, cli))
        },
    }
}

/// The events to emit once an observer failed: whoever listens is told of its
/// end.
pub fn report_failure(listener: bool) -> (events: Vec<ObserverEvent>)
    ensures
        events@ == if listener {
            seq![ObserverEvent::Terminate]
        } else {
            Seq::empty()
        },
{
    let mut events: Vec<ObserverEvent> = Vec::new();
    if listener {
        events.push(ObserverEvent::Terminate);
    }
    assert(events@ =~= if listener {
        seq![ObserverEvent::Terminate]
    } else {
        Seq::empty()
    });
    events
}

} // verus!
