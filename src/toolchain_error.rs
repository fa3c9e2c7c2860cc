//! Failures of the ARM toolchain, each with its message.
use vstd::prelude::*;

use crate::text::{concat_str, copy_string, decimal_text, join_strings, joined, number_text, views};

verus! {

/// The platform the application runs on; installation advice depends on it.
#[derive(Debug, Clone, Copy, PartialEq, Eq, Structural)]
pub enum HostOs {
    MacOs,
    Linux,
    Windows,
    Other,
}

/// How to install the ARM toolchain on `os`.
pub open spec fn installation_suggestion_spec(os: HostOs) -> Seq<char> {
    match os {
        HostOs::MacOs => "Install via Homebrew: brew install --cask gcc-arm-embedded\nOr download from: https://developer.arm.com/downloads/-/gnu-rm"@,
        HostOs::Linux => "Install via package manager:\n- Ubuntu/Debian: sudo apt-get install gcc-arm-none-eabi\n- Fedora/RHEL: sudo dnf install arm-none-eabi-gcc-cs\nOr download from: https://developer.arm.com/downloads/-/gnu-rm"@,
        HostOs::Windows => "Download and install from ARM Developer:\nhttps://developer.arm.com/downloads/-/gnu-rm\nOr install via Chocolatey: choco install gcc-arm-embedded"@,
        HostOs::Other => "Download from: https://developer.arm.com/downloads/-/gnu-rm"@,
    }
}

/// How to install the ARM toolchain on `os`.
pub fn installation_suggestion(os: HostOs) -> (r: String)
    ensures
        r@ == installation_suggestion_spec(os),
{
    match os {
        HostOs::MacOs => String::from_str("Install via Homebrew: brew install --cask gcc-arm-embedded\nOr download from: https://developer.arm.com/downloads/-/gnu-rm"),
        HostOs::Linux => String::from_str("Install via package manager:\n- Ubuntu/Debian: sudo apt-get install gcc-arm-none-eabi\n- Fedora/RHEL: sudo dnf install arm-none-eabi-gcc-cs\nOr download from: https://developer.arm.com/downloads/-/gnu-rm"),
        HostOs::Windows => String::from_str("Download and install from ARM Developer:\nhttps://developer.arm.com/downloads/-/gnu-rm\nOr install via Chocolatey: choco install gcc-arm-embedded"),
        HostOs::Other => String::from_str("Download from: https://developer.arm.com/downloads/-/gnu-rm"),
    }
}

/// Failures of the ARM toolchain.
#[derive(Debug)]
pub enum ArmToolchainError {
    NotFound { suggestion: String },
    Incomplete { missing: Vec<String> },
    VersionTooOld { found: String, required: String },
    LinkerScriptNotFound { path: String },
    MemoryOverflow { region: String, details: String },
    CompilationFailed { error_count: usize, diagnostics: Vec<String> },
    Io(String),
    Other(String),
}

impl ArmToolchainError {
    /// The message of this error.
    pub open spec fn message_spec(&self) -> Seq<char> {
        match self {
            ArmToolchainError::NotFound { suggestion } => "ARM toolchain not found. "@ + suggestion@,
            ArmToolchainError::Incomplete { missing } => "ARM toolchain is incomplete. Missing tools: "@
                + joined(views(missing@), ", "@),
            ArmToolchainError::VersionTooOld { found, required } => "ARM toolchain version "@ + found@
                + " is too old. Minimum required version: "@ + required@,
            ArmToolchainError::LinkerScriptNotFound { path } => "Linker script not found: "@ + path@,
            ArmToolchainError::MemoryOverflow { region, details } => "Memory overflow in region '"@
                + region@ + "': "@ + details@,
            ArmToolchainError::CompilationFailed { error_count, .. } => "Compilation failed with "@
                + decimal_text(*error_count as nat) + " error(s)"@,
            ArmToolchainError::Io(m) => "I/O error: "@ + m@,
            ArmToolchainError::Other(m) => m@,
        }
    }

    /// No toolchain was found; the error carries installation advice for `os`.
    pub fn not_found(os: HostOs) -> (r: Self)
        ensures
            r matches ArmToolchainError::NotFound { suggestion } && suggestion@
                == installation_suggestion_spec(os),
    {
        ArmToolchainError::NotFound { suggestion: installation_suggestion(os) }
    }

    pub fn incomplete(missing: Vec<String>) -> (r: Self)
        ensures
            r == (ArmToolchainError::Incomplete { missing }),
    {
        ArmToolchainError::Incomplete { missing }
    }

    pub fn version_too_old(found: String, required: String) -> (r: Self)
        ensures
            r == (ArmToolchainError::VersionTooOld { found, required }),
    {
        ArmToolchainError::VersionTooOld { found, required }
    }

    pub fn linker_script_not_found(path: String) -> (r: Self)
        ensures
            r == (ArmToolchainError::LinkerScriptNotFound { path }),
    {
        ArmToolchainError::LinkerScriptNotFound { path }
    }

    pub fn memory_overflow(region: String, details: String) -> (r: Self)
        ensures
            r == (ArmToolchainError::MemoryOverflow { region, details }),
    {
        ArmToolchainError::MemoryOverflow { region, details }
    }

    pub fn compilation_failed(error_count: usize, diagnostics: Vec<String>) -> (r: Self)
        ensures
            r == (ArmToolchainError::CompilationFailed { error_count, diagnostics }),
    {
        ArmToolchainError::CompilationFailed { error_count, diagnostics }
    }

    /// The message of this error.
    pub fn message(&self) -> (r: String)
        ensures
            r@ == self.message_spec(),
    {
        match self {
            ArmToolchainError::NotFound { suggestion } => concat_str("ARM toolchain not found. ", suggestion.as_str()),
            ArmToolchainError::Incomplete { missing } => {
                let j = join_strings(missing, ", ");
                concat_str("ARM toolchain is incomplete. Missing tools: ", j.as_str())
            },
            ArmToolchainError::VersionTooOld { found, required } => {
                let mut s = concat_str("ARM toolchain version ", found.as_str());
                s.append(" is too old. Minimum required version: ");
                s.append(required.as_str());
                s
            },
            ArmToolchainError::LinkerScriptNotFound { path } => concat_str("Linker script not found: ", path.as_str()),
            ArmToolchainError::MemoryOverflow { region, details } => {
                let mut s = concat_str("Memory overflow in region '", region.as_str());
                s.append("': ");
                s.append(details.as_str());
                s
            },
            ArmToolchainError::CompilationFailed { error_count, .. } => {
                let n = number_text(*error_count as u64);
                let mut s = concat_str("Compilation failed with ", n.as_str());
                s.append(" error(s)");
                s
            },
            ArmToolchainError::Io(m) => concat_str("I/O error: ", m.as_str()),
            ArmToolchainError::Other(m) => copy_string(m),
        }
    }
}

} // verus!
