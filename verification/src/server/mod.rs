//! The boot server.

pub mod boothost;
pub mod claims;
pub mod components;
pub mod config;
pub mod digest;
pub mod hosts;
pub mod http;
pub mod ipxe;
pub mod kube_store;
pub mod mac;
pub mod mac_map;
pub mod metrics;
pub mod pallet;
pub mod refresh;
pub mod state;
pub mod stormsig;
