//! The user's shell, and when a command has to be run through it.
use vstd::prelude::*;

verus! {

/// A snapshot of a shell's environment, kept in a file.
#[derive(Debug, Clone, Default, PartialEq, Eq)]
pub struct ShellSnapshot {
    pub path: String,
}

/// A POSIX shell (bash, zsh, ...).
#[derive(Debug, Clone, Default, PartialEq, Eq)]
pub struct PosixShell {
    pub shell_path: String,
    pub rc_path: String,
    pub shell_snapshot: Option<ShellSnapshot>,
}

/// PowerShell.
#[derive(Debug, Clone, Default, PartialEq, Eq)]
pub struct PowerShellShell {
    pub profile_path: Option<String>,
}

/// The user's shell.
#[derive(Debug, Clone, PartialEq, Eq)]
pub enum Shell {
    Posix(PosixShell),
    PowerShell(PowerShellShell),
    Unknown,
}

/// How the environment of a spawned command is set up.
#[derive(Debug, Clone, Default, PartialEq, Eq)]
pub struct ShellEnvironmentPolicy {
    /// Whether commands run through the user's shell profile.
    pub use_profile: bool,
}

/// Whether a command must be translated to run through the user's shell:
/// always for PowerShell, when the policy asks for the profile, and for a
/// POSIX shell that has an environment snapshot.
pub open spec fn spec_should_translate(shell: Shell, policy: ShellEnvironmentPolicy) -> bool {
    ||| shell is PowerShell
    ||| policy.use_profile
    ||| (shell matches Shell::Posix(p) && p.shell_snapshot is Some)
}

/// Whether a command must be translated to run through the user's shell.
pub fn should_translate_shell_command(shell: &Shell, shell_policy: &ShellEnvironmentPolicy) -> (r:
    bool)
    ensures
        r == spec_should_translate(*shell, *shell_policy),
        *shell is PowerShell ==> r,
        shell_policy.use_profile ==> r,
        (*shell matches Shell::Posix(p) && p.shell_snapshot is Some) ==> r,
        !shell_policy.use_profile && (*shell is Unknown || (*shell matches Shell::Posix(p)
            && p.shell_snapshot is None)) ==> !r,
{
    matches!(shell, Shell::PowerShell(_)) || shell_policy.use_profile || match shell {
        Shell::Posix(posix) => posix.shell_snapshot.is_some(),
        _ => false,
    }
}

} // verus!
