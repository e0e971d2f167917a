//! The networks that the observer can follow, and the ways in which it learns
//! of Bitcoin blocks.

use vstd::prelude::*;

use crate::text::{same_text, wrap_text};

verus! {

/// A network of the Bitcoin chain.
#[derive(Clone, Copy, Debug, PartialEq, Eq, Structural)]
pub enum BitcoinNetwork {
    Regtest,
    Testnet,
    Signet,
    Mainnet,
}

impl BitcoinNetwork {
    /// The network that a name stands for.
    pub open spec fn named(name: Seq<char>) -> Option<BitcoinNetwork> {
        if name == "regtest"@ {
            Some(BitcoinNetwork::Regtest)
        } else if name == "testnet"@ {
            Some(BitcoinNetwork::Testnet)
        } else if name == "mainnet"@ {
            Some(BitcoinNetwork::Mainnet)
        } else if name == "signet"@ {
            Some(BitcoinNetwork::Signet)
        } else {
            None
        }
    }

    /// The message about a name that stands for no network.
    pub open spec fn unsupported(name: Seq<char>) -> Seq<char> {
        "network '"@ + name + "' unsupported (mainnet, testnet, regtest, signet)"@
    }

    /// Reads a network's name.
    pub fn from_str(network: &str) -> (result: Result<BitcoinNetwork, String>)
        ensures
            match BitcoinNetwork::named(network@) {
                Some(value) => result == Ok::<BitcoinNetwork, String>(value),
                None => result matches Err(message) && message@ == BitcoinNetwork::unsupported(
                    network@,
                ),
            },
    {
        if same_text(network, "regtest") {
            Ok(BitcoinNetwork::Regtest)
        } else if same_text(network, "testnet") {
            Ok(BitcoinNetwork::Testnet)
        } else if same_text(network, "mainnet") {
            Ok(BitcoinNetwork::Mainnet)
        } else if same_text(network, "signet") {
            Ok(BitcoinNetwork::Signet)
        } else {
            Err(
                wrap_text(
                    "network '",
                    network,
                    "' unsupported (mainnet, testnet, regtest, signet)",
                ),
            )
        }
    }
}

/// A network of the Stacks chain.
#[derive(Clone, Copy, Debug, PartialEq, Eq, Structural)]
pub enum StacksNetwork {
    Simnet,
    Devnet,
    Testnet,
    Mainnet,
}

impl StacksNetwork {
    /// The network that a name stands for.
    pub open spec fn named(name: Seq<char>) -> Option<StacksNetwork> {
        if name == "simnet"@ {
            Some(StacksNetwork::Simnet)
        } else if name == "devnet"@ {
            Some(StacksNetwork::Devnet)
        } else if name == "testnet"@ {
            Some(StacksNetwork::Testnet)
        } else if name == "mainnet"@ {
            Some(StacksNetwork::Mainnet)
        } else {
            None
        }
    }

    /// The message about a name that stands for no network.
    pub open spec fn unsupported(name: Seq<char>) -> Seq<char> {
        "network '"@ + name + "' unsupported (mainnet, testnet, devnet, simnet)"@
    }

    /// Reads a network's name.
    pub fn from_str(network: &str) -> (result: Result<StacksNetwork, String>)
        ensures
            match StacksNetwork::named(network@) {
                Some(value) => result == Ok::<StacksNetwork, String>(value),
                None => result matches Err(message) && message@ == StacksNetwork::unsupported(
                    network@,
                ),
            },
    {
        if same_text(network, "simnet") {
            Ok(StacksNetwork::Simnet)
        } else if same_text(network, "devnet") {
            Ok(StacksNetwork::Devnet)
        } else if same_text(network, "testnet") {
            Ok(StacksNetwork::Testnet)
        } else if same_text(network, "mainnet") {
            Ok(StacksNetwork::Mainnet)
        } else {
            Err(
                wrap_text("network '", network, "' unsupported (mainnet, testnet, devnet, simnet)"),
            )
        }
    }
}

/// Where a Stacks node answers, and the port on which the observer listens to
/// it.
#[derive(Debug, PartialEq)]
pub struct StacksNodeConfig {
    pub rpc_url: String,
    pub ingestion_port: u16,
}

impl StacksNodeConfig {
    /// The settings for a node.
    pub fn new(rpc_url: String, ingestion_port: u16) -> (config: StacksNodeConfig)
        ensures
            config.rpc_url == rpc_url,
            config.ingestion_port == ingestion_port,
    {
        StacksNodeConfig { rpc_url, ingestion_port }
    }
}

impl Clone for StacksNodeConfig {
    fn clone(&self) -> (copy: Self)
        ensures
            copy == *self,
    {
        StacksNodeConfig { rpc_url: self.rpc_url.clone(), ingestion_port: self.ingestion_port }
    }
}

/// How the observer learns of Bitcoin blocks: from a Stacks node, or from a
/// Bitcoin node's ZeroMQ endpoint.
#[derive(Debug, PartialEq)]
pub enum BitcoinBlockSignaling {
    Stacks(StacksNodeConfig),
    ZeroMQ(String),
}

impl Clone for BitcoinBlockSignaling {
    fn clone(&self) -> (copy: Self)
        ensures
            copy == *self,
    {
        match self {
            BitcoinBlockSignaling::Stacks(config) => BitcoinBlockSignaling::Stacks(config.clone()),
            BitcoinBlockSignaling::ZeroMQ(url) => BitcoinBlockSignaling::ZeroMQ(url.clone()),
        }
    }
}

} // verus!
