//! Core logic of a toolchain version manager.
//!
//! The library models toolchain identities and their total order, the
//! resolution of the effective default toolchain, the install/update state
//! machine, proxy dispatch into an installed toolchain's binaries, and the
//! self-update/relink protocol.  Everything here is pure computation over
//! plain values; the filesystem, network and process work around it lives in
//! the accompanying application code.

pub mod cli;
pub mod config;
pub mod error;
pub mod install;
pub mod num;
pub mod proxy;
pub mod release;
pub mod req;
pub mod resolve;
pub mod selfupdate;
pub mod text;
pub mod toolchain;
pub mod version;

pub use error::Error;
