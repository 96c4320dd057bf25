use vstd::prelude::*;

use crate::text::str_eq;
use crate::toolchain::ToolChain;

verus! {

/// How the executable was invoked: under its own name it manages
/// toolchains; under any other name it proxies into the resolved
/// toolchain's binary of that name.
#[derive(Clone, Copy, Debug, PartialEq, Eq, Structural)]
pub enum Mode {
    /// Invoked as the manager itself.
    Manager,
    /// Invoked under a tool's name: dispatch into that tool.
    Proxy,
}

/// Decide the invocation mode from the executable's invoked name (the
/// file stem of its first argument).
pub fn invocation_mode(stem: &str) -> (r: Mode)
    ensures
        r is Manager <==> stem@ == "verylup"@,
{
    if str_eq(stem, "verylup") {
        Mode::Manager
    } else {
        Mode::Proxy
    }
}

/// Show installed toolchains.
pub struct OptShow {}

/// Update the installed toolchains and the manager itself.
pub struct OptUpdate {
    /// Toolchain package path for offline installation.
    pub pkg: Option<String>,
}

/// Install or update a given toolchain.
pub struct OptInstall {
    /// The toolchain to install, by canonical name.
    pub target: String,
    /// Toolchain package path for offline installation.
    pub pkg: Option<String>,
    /// Debug build for a local install.
    pub debug: bool,
}

/// Uninstall a given toolchain.
pub struct OptUninstall {
    /// The toolchain to uninstall, by canonical name.
    pub target: String,
}

/// Set a given toolchain as the default.
pub struct OptDefault {
    /// The toolchain to make the default, by canonical name.
    pub target: String,
}

/// Modify toolchain overrides for directories.
pub struct OptOverride {
    pub command: OverrideCommand,
}

/// The override subcommands.
pub enum OverrideCommand {
    List(OptOverrideList),
    Assign(OptOverrideSet),
    Clear(OptOverrideUnset),
}

/// List directory toolchain overrides.
pub struct OptOverrideList {}

/// Set the override toolchain for the current project's directory.
pub struct OptOverrideSet {
    /// The toolchain to pin, by canonical name.
    pub target: String,
}

/// Remove the override toolchain for the current project's directory.
pub struct OptOverrideUnset {}

/// Set up the toolchain and the manager's entry points.
pub struct OptSetup {
    /// Offline mode.
    pub offline: bool,
    /// Toolchain package path for offline installation.
    pub pkg: Option<String>,
    /// Disable self-update.
    pub no_self_update: bool,
}

/// Generate tab-completion scripts for a shell.
pub struct OptCompletion {
    pub shell: CompletionShell,
    pub command: CompletionCommand,
}

/// The shells completion can be generated for.
#[derive(Clone, Copy, Debug, PartialEq, Eq, Structural)]
pub enum CompletionShell {
    Bash,
    Elvish,
    Fish,
    PowerShell,
    Zsh,
}

impl CompletionShell {
    /// The shell's lowercase name, as the completion generator expects it.
    pub fn name(&self) -> (r: &'static str)
        ensures
            *self is Bash ==> r@ == "bash"@,
            *self is Elvish ==> r@ == "elvish"@,
            *self is Fish ==> r@ == "fish"@,
            *self is PowerShell ==> r@ == "powershell"@,
            *self is Zsh ==> r@ == "zsh"@,
    {
        match self {
            CompletionShell::Bash => "bash",
            CompletionShell::Elvish => "elvish",
            CompletionShell::Fish => "fish",
            CompletionShell::PowerShell => "powershell",
            CompletionShell::Zsh => "zsh",
        }
    }
}

/// Whose completion to generate: the manager's own, or the underlying
/// tool's.
#[derive(Clone, Copy, Debug, PartialEq, Eq, Structural)]
pub enum CompletionCommand {
    Verylup,
    Veryl,
}

/// Modify the manager's configuration.
pub struct OptConfig {
    pub command: ConfigCommand,
}

/// The configuration subcommands.
pub enum ConfigCommand {
    Show(OptConfigShow),
    Assign(OptConfigSet),
    Clear(OptConfigUnset),
}

/// Show the current configuration.
pub struct OptConfigShow {}

/// Set one entry of the configuration.
pub struct OptConfigSet {
    pub key: String,
    pub value: String,
}

/// Reset one entry of the configuration.
pub struct OptConfigUnset {
    pub key: String,
}

/// The update command refreshes the nightly toolchain exactly when one is
/// installed and the manager is online: nightly has no offline package.
pub fn update_includes_nightly(installed: &Vec<ToolChain>, offline: bool) -> (r: bool)
    ensures
        r == (installed@.contains(ToolChain::Nightly) && !offline),
{
    if offline {
        return false;
    }
    crate::resolve::contains_toolchain(installed, &ToolChain::Nightly)
}

} // verus!
