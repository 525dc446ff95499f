//! A declarative package-management reconciliation core.
//!
//! A desired-state specification names packages, package groups, runtime
//! pins and toolchains per backend; each backend parses its part of the
//! specification, compares it against the installed state its native tool
//! reports, and plans the minimal install and remove operations, together
//! with the hooks to run after they succeed. The embedding driver executes
//! the planned commands (or prints them in a dry run) and feeds the
//! backends the raw listings they ask about.

pub mod arch;
pub mod cargo;
pub mod commands;
pub mod config;
pub mod error;
pub mod flatpak;
pub mod rustup;
pub mod strutil;
pub mod values;

use vstd::prelude::*;

verus! {

/// The backends the reconciler knows, in the order they are attempted.
#[derive(Debug)]
pub enum Backends {
    Arch(crate::arch::Arch),
    Flatpak(crate::flatpak::Flatpak),
    Cargo(crate::cargo::Cargo),
    Rustup(crate::rustup::Rustup),
}

} // verus!
