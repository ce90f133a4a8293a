//! The initramfs: turns a kernel command line into a running system on its root.

pub mod cmdline;
pub mod engine;
pub mod media;
pub mod mounts;
pub mod report;
pub mod steps;
