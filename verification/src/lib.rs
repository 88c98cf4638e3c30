//! Verified core of a minimal virtual-machine init: a quote-aware kernel
//! command-line parser, a virtiofs/overlay mount plan builder, helpers for
//! best-effort kernel module loading, and the boot stage sequencer that
//! guarantees every run ends in shutdown.

pub mod strutil;
pub mod cmdline;
pub mod boot;
pub mod mounts;
pub mod modules;
