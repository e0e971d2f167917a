//! Laws on settings: how networks are named, what overrides come to, and how an
//! observer starts.

use vstd::prelude::*;

use crate::chain::StacksBlockData;
use crate::config::{
    holds_predicates, overrides_nothing, EventObserverConfig, EventObserverConfigOverrides,
};
use crate::hooks::{ChainhookConfig, ChainhookStore};
use crate::network::{BitcoinBlockSignaling, BitcoinNetwork, StacksNetwork};
use crate::startup::{
    BitcoinObserverStartup, IngestionConfig, IngestionRoute, StacksObserverStartup,
};

verus! {

/// The name of a Bitcoin network.
pub open spec fn bitcoin_name(network: BitcoinNetwork) -> Seq<char> {
    match network {
        BitcoinNetwork::Regtest => "regtest"@,
        BitcoinNetwork::Testnet => "testnet"@,
        BitcoinNetwork::Signet => "signet"@,
        BitcoinNetwork::Mainnet => "mainnet"@,
    }
}

/// The name of a Stacks network.
pub open spec fn stacks_name(network: StacksNetwork) -> Seq<char> {
    match network {
        StacksNetwork::Simnet => "simnet"@,
        StacksNetwork::Devnet => "devnet"@,
        StacksNetwork::Testnet => "testnet"@,
        StacksNetwork::Mainnet => "mainnet"@,
    }
}

/// A text stands for a Bitcoin network exactly if it is the network's name; the message
/// about any other text quotes it.
pub proof fn bitcoin_network_goes_by_its_name(name: Seq<char>, network: BitcoinNetwork)
    ensures
        BitcoinNetwork::named(name) == Some(network) <==> name == bitcoin_name(network),
        BitcoinNetwork::unsupported(name) == "network '"@ + name
            + "' unsupported (mainnet, testnet, regtest, signet)"@,
{
    reveal_strlit("regtest");
    reveal_strlit("testnet");
    reveal_strlit("signet");
    reveal_strlit("mainnet");
    assert("regtest"@[0] != "testnet"@[0]);
    assert("mainnet"@[0] != "testnet"@[0]);
}

/// A text stands for a Stacks network exactly if it is the network's name; the message
/// about any other text quotes it.
pub proof fn stacks_network_goes_by_its_name(name: Seq<char>, network: StacksNetwork)
    ensures
        StacksNetwork::named(name) == Some(network) <==> name == stacks_name(network),
        StacksNetwork::unsupported(name) == "network '"@ + name
            + "' unsupported (mainnet, testnet, devnet, simnet)"@,
{
    reveal_strlit("simnet");
    reveal_strlit("devnet");
    reveal_strlit("testnet");
    reveal_strlit("mainnet");
    assert("simnet"@[0] != "devnet"@[0]);
    assert("mainnet"@[0] != "testnet"@[0]);
}

/// A setting is the override, where there is one, and the default otherwise.
pub open spec fn is_text(setting: String, override_text: Option<String>, default: Seq<char>) -> bool {
    &&& override_text matches Some(text) ==> setting@ == text@
    &&& override_text is None ==> setting@ == default
}

/// Every setting that can be overridden is the override, or the default where there is
/// none. The others are fixed.
pub proof fn settings_are_overrides_or_defaults(
    overrides: EventObserverConfigOverrides,
    config: EventObserverConfig,
)
    requires
        overrides.yield_config(config),
    ensures
        config.ingestion_port == overrides.ingestion_port.unwrap_or(20445),
        is_text(config.bitcoind_rpc_username, overrides.bitcoind_rpc_username, "devnet"@),
        is_text(config.bitcoind_rpc_password, overrides.bitcoind_rpc_password, "devnet"@),
        is_text(config.bitcoind_rpc_url, overrides.bitcoind_rpc_url, "http://localhost:18443"@),
        is_text(config.cache_path, overrides.cache_path, "cache"@),
        config.display_logs == overrides.display_logs.unwrap_or(false),
        overrides.bitcoind_zmq_url matches Some(url) ==> config.bitcoin_block_signaling
            == BitcoinBlockSignaling::ZeroMQ(url),
        overrides.bitcoind_zmq_url is None ==> (config.bitcoin_block_signaling matches
            BitcoinBlockSignaling::Stacks(node) && is_text(
            node.rpc_url,
            overrides.stacks_node_rpc_url,
            "http://localhost:20443"@,
        ) && node.ingestion_port == config.ingestion_port),
        overrides.bitcoin_network matches Some(name) ==> name@ == bitcoin_name(
            config.bitcoin_network,
        ),
        overrides.bitcoin_network is None ==> config.bitcoin_network is Regtest,
        overrides.stacks_network matches Some(name) ==> name@ == stacks_name(config.stacks_network),
        overrides.stacks_network is None ==> config.stacks_network is Devnet,
        config.chainhook_config is None,
        !config.bitcoin_rpc_proxy_enabled,
        config.data_handler_tx is None,
        config.prometheus_monitoring_port is None,
{
    if let Some(name) = overrides.bitcoin_network {
        bitcoin_network_goes_by_its_name(name@, config.bitcoin_network);
    }
    if let Some(name) = overrides.stacks_network {
        stacks_network_goes_by_its_name(name@, config.stacks_network);
    }
}

/// Without overrides, every setting is the default.
pub proof fn settings_without_overrides_are_the_defaults(config: EventObserverConfig)
    requires
        forall|overrides: EventObserverConfigOverrides|
            overrides_nothing(overrides) ==> #[trigger] overrides.yield_config(config),
    ensures
        config.ingestion_port == 20445,
        config.bitcoind_rpc_username@ == "devnet"@,
        config.bitcoind_rpc_password@ == "devnet"@,
        config.bitcoind_rpc_url@ == "http://localhost:18443"@,
        config.cache_path@ == "cache"@,
        !config.display_logs,
        config.bitcoin_block_signaling matches BitcoinBlockSignaling::Stacks(node)
            && node.rpc_url@ == "http://localhost:20443"@ && node.ingestion_port == 20445,
        config.bitcoin_network is Regtest,
        config.stacks_network is Devnet,
        config.chainhook_config is None,
        !config.bitcoin_rpc_proxy_enabled,
        config.data_handler_tx is None,
        config.prometheus_monitoring_port is None,
{
    let overrides = EventObserverConfigOverrides {
        ingestion_port: None,
        bitcoind_rpc_username: None,
        bitcoind_rpc_password: None,
        bitcoind_rpc_url: None,
        bitcoind_zmq_url: None,
        stacks_node_rpc_url: None,
        display_logs: None,
        cache_path: None,
        bitcoin_network: None,
        stacks_network: None,
    };
    assert(overrides_nothing(overrides));
    assert(overrides.yield_config(config));
    settings_are_overrides_or_defaults(overrides, config);
}

/// Overrides are refused exactly where they name an unknown network.
pub proof fn only_unknown_networks_are_refused(overrides: EventObserverConfigOverrides)
    ensures
        overrides.spec_bitcoin_network() is None <==> (overrides.bitcoin_network matches Some(name)
            && forall|network: BitcoinNetwork| name@ != #[trigger] bitcoin_name(network)),
        overrides.spec_stacks_network() is None <==> (overrides.stacks_network matches Some(name)
            && forall|network: StacksNetwork| name@ != #[trigger] stacks_name(network)),
{
    if let Some(name) = overrides.bitcoin_network {
        assert forall|network: BitcoinNetwork| BitcoinNetwork::named(name@) == Some(network)
            <==> name@ == #[trigger] bitcoin_name(network) by {
            bitcoin_network_goes_by_its_name(name@, network);
        }
        if let Some(network) = BitcoinNetwork::named(name@) {
            assert(name@ == bitcoin_name(network));
        }
    }
    if let Some(name) = overrides.stacks_network {
        assert forall|network: StacksNetwork| StacksNetwork::named(name@) == Some(network)
            <==> name@ == #[trigger] stacks_name(network) by {
            stacks_network_goes_by_its_name(name@, network);
        }
        if let Some(network) = StacksNetwork::named(name@) {
            assert(name@ == stacks_name(network));
        }
    }
}

/// The store holds the configured predicates, one by one and in order; without any, it
/// is empty.
pub open spec fn is_store_of(store: ChainhookStore, config: Option<ChainhookConfig>) -> bool {
    let stacks = store.predicates.stacks_chainhooks@;
    let bitcoin = store.predicates.bitcoin_chainhooks@;
    match config {
        Some(config) => {
            &&& stacks.len() == config.stacks_chainhooks@.len()
            &&& bitcoin.len() == config.bitcoin_chainhooks@.len()
            &&& forall|i: int|
                0 <= i < stacks.len() ==> #[trigger] stacks[i] == config.stacks_chainhooks@[i]
            &&& forall|i: int|
                0 <= i < bitcoin.len() ==> #[trigger] bitcoin[i] == config.bitcoin_chainhooks@[i]
        },
        None => stacks.len() == 0 && bitcoin.len() == 0,
    }
}

/// An observer starts with the configured predicates.
pub proof fn store_holds_what_is_configured(
    store: ChainhookStore,
    config: Option<ChainhookConfig>,
)
    requires
        holds_predicates(store, config),
    ensures
        is_store_of(store, config),
{
}

/// An observer that learns of Bitcoin blocks from the Bitcoin node starts with the
/// configured predicates, and the monitoring with their numbers.
pub proof fn bitcoin_observer_starts_as_configured(
    startup: BitcoinObserverStartup,
    config: EventObserverConfig,
)
    requires
        startup.starts(config),
    ensures
        is_store_of(startup.chainhook_store, config.chainhook_config),
        startup.monitoring.stacks_predicates
            == startup.chainhook_store.predicates.stacks_chainhooks@.len() as u64,
        startup.monitoring.bitcoin_predicates
            == startup.chainhook_store.predicates.bitcoin_chainhooks@.len() as u64,
        startup.monitoring.last_block_height is None,
        startup.monitoring_port == config.prometheus_monitoring_port,
{
}

/// What the ingestion server can be asked, in order.
pub open spec fn is_asked(routes: Seq<IngestionRoute>, proxied: bool) -> bool {
    &&& routes.len() == if proxied {
        11int
    } else {
        9
    }
    &&& routes[0] is Ping
    &&& routes[1] is NewBitcoinBlock
    &&& routes[2] is NewStacksBlock
    &&& routes[3] is NewMicroblocks
    &&& routes[4] is NewMempoolTx
    &&& routes[5] is DropMempoolTx
    &&& routes[6] is NewAttachment
    &&& routes[7] is MinedBlock
    &&& routes[8] is MinedMicroblock
    &&& proxied ==> routes[9] is BitcoinRpcCall && routes[10] is BitcoinWalletRpcCall
}

/// The ingestion server listens on the configured port, on every address, with one
/// worker. It passes calls on to the Bitcoin node only where it is to be a proxy, logs
/// only where logs are displayed, and does not wait when it is shut down.
pub proof fn ingestion_server_is_set_up_as_configured(
    ingestion: IngestionConfig,
    config: EventObserverConfig,
    cli: bool,
)
    requires
        ingestion.serves(config, cli),
    ensures
        config.bitcoin_block_signaling matches BitcoinBlockSignaling::Stacks(node)
            && ingestion.port == node.ingestion_port,
        ingestion.workers == 1,
        forall|i: int| 0 <= i < 4 ==> #[trigger] ingestion.address@[i] == 0,
        ingestion.keep_alive == 5,
        ingestion.log_level is Off <==> !config.display_logs,
        ingestion.log_level is Critical <==> config.display_logs && cli,
        ingestion.log_level is Debug <==> config.display_logs && !cli,
        !ingestion.cli_colors,
        ingestion.json_limit_megabytes == 20,
        !ingestion.shutdown_on_ctrlc,
        ingestion.shutdown_grace == 0,
        ingestion.shutdown_mercy == 0,
        is_asked(ingestion.routes@, config.bitcoin_rpc_proxy_enabled),
{
}

/// An observer that learns of Bitcoin blocks from a Stacks node starts with the
/// configured predicates, from the given blocks and height. Its indexer reaches the
/// Bitcoin node as configured, and follows the networks of a developer's machine.
pub proof fn stacks_observer_starts_as_configured(
    startup: StacksObserverStartup,
    config: EventObserverConfig,
    block_pool_seed: Seq<StacksBlockData>,
    last_block_height_appended: u64,
    cli: bool,
)
    requires
        startup.starts(config, block_pool_seed, last_block_height_appended, cli),
    ensures
        is_store_of(startup.chainhook_store, config.chainhook_config),
        startup.block_pool_seed@ == block_pool_seed,
        startup.monitoring.stacks_predicates
            == startup.chainhook_store.predicates.stacks_chainhooks@.len() as u64,
        startup.monitoring.bitcoin_predicates
            == startup.chainhook_store.predicates.bitcoin_chainhooks@.len() as u64,
        startup.monitoring.last_block_height == Some(last_block_height_appended),
        startup.monitoring_port == config.prometheus_monitoring_port,
        startup.indexer.bitcoin_network is Regtest,
        startup.indexer.stacks_network is Devnet,
        startup.indexer.bitcoind_rpc_url == config.bitcoind_rpc_url,
        startup.indexer.bitcoind_rpc_username == config.bitcoind_rpc_username,
        startup.indexer.bitcoind_rpc_password == config.bitcoind_rpc_password,
        startup.indexer.bitcoin_block_signaling == config.bitcoin_block_signaling,
        startup.bitcoin_config.username == config.bitcoind_rpc_username,
        startup.bitcoin_config.password == config.bitcoind_rpc_password,
        startup.bitcoin_config.rpc_url == config.bitcoind_rpc_url,
        startup.bitcoin_config.network == config.bitcoin_network,
        startup.bitcoin_config.bitcoin_block_signaling == config.bitcoin_block_signaling,
        startup.ingestion.serves(config, cli),
{
}

} // verus!
