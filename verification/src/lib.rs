//! Network boot for bare metal: the decisions behind the boot server, the
//! initramfs, the node agent and the firmware extension.

pub mod agent;
pub mod bytes;
pub mod firmware;
pub mod handover;
pub mod http1;
pub mod init;
pub mod server;
pub mod strings;
pub mod text;
