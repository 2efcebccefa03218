//! The settings of the sequencer.
use crate::abi::Address20;
use vstd::prelude::*;

verus! {

/// All settings.
#[derive(Debug, Clone)]
pub struct AppConfig {
    pub server: ServerConfig,
    pub l1: L1Config,
    pub database: DbConfig,
}

/// Where requests are taken.
#[derive(Debug, Clone)]
pub struct ServerConfig {
    pub port: u16,
    pub host: String,
}

/// The base layer.
#[derive(Debug, Clone)]
pub struct L1Config {
    pub enabled: bool,
    pub rpc_url: String,
    pub bridge_address: Address20,
    pub private_key: String,
}

/// Where the databases lie.
#[derive(Debug, Clone)]
pub struct DbConfig {
    pub state_tree_path: String,
    pub queues_path: String,
}

} // verus!
