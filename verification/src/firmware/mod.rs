//! The firmware extension: boots a machine from a remote NVMe/TCP namespace.

pub mod attach;
pub mod blockio;
pub mod boot;
pub mod config;
pub mod ipv4;
pub mod nvme;
pub mod registry;
pub mod smbios;
pub mod tcp4;
pub mod wire;
