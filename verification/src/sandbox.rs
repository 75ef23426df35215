//! Sandbox levels of Lua command scripts and the errors a script run reports.
use vstd::prelude::*;
use crate::text::{concat2, lowercase, owned, str_eq, to_lower};

verus! {

/// Sandbox level controlling which script APIs are available.
#[derive(Debug, Clone, Copy, PartialEq, Eq, Structural)]
pub enum SandboxLevel {
    /// Only core APIs (log, speak, audio, context).
    Minimal,
    /// Adds http, state and file access inside the command folder.
    Standard,
    /// Adds system exec and file access outside the command folder.
    Full,
}

impl Default for SandboxLevel {
    fn default() -> (r: SandboxLevel)
        ensures
            r == SandboxLevel::Standard,
    {
        SandboxLevel::Standard
    }
}

/// The level a sandbox name selects: case-insensitively "minimal" or "full";
/// every other name selects the standard level.
pub open spec fn sandbox_from_name(name: Seq<char>) -> SandboxLevel {
    let l = lowercase(name);
    if l == "minimal"@ {
        SandboxLevel::Minimal
    } else if l == "full"@ {
        SandboxLevel::Full
    } else {
        SandboxLevel::Standard
    }
}

impl SandboxLevel {
    /// Parses a sandbox name; unknown names give the standard level.
    pub fn parse(s: &str) -> (r: SandboxLevel)
        ensures
            r == sandbox_from_name(s@),
    {
        let l = to_lower(s);
        let minimal = "minimal";
        let full = "full";
        if str_eq(l.as_str(), minimal) {
            SandboxLevel::Minimal
        } else if str_eq(l.as_str(), full) {
            SandboxLevel::Full
        } else {
            SandboxLevel::Standard
        }
    }

    /// Can use the HTTP API.
    pub fn allows_http(&self) -> (r: bool)
        ensures
            r == (*self != SandboxLevel::Minimal),
    {
        matches!(self, SandboxLevel::Standard | SandboxLevel::Full)
    }

    /// Can use the persistent state API.
    pub fn allows_state(&self) -> (r: bool)
        ensures
            r == (*self != SandboxLevel::Minimal),
    {
        matches!(self, SandboxLevel::Standard | SandboxLevel::Full)
    }

    /// Can use the file system API.
    pub fn allows_fs(&self) -> (r: bool)
        ensures
            r == (*self != SandboxLevel::Minimal),
    {
        matches!(self, SandboxLevel::Standard | SandboxLevel::Full)
    }

    /// Can write files.
    pub fn allows_fs_write(&self) -> (r: bool)
        ensures
            r == (*self != SandboxLevel::Minimal),
    {
        matches!(self, SandboxLevel::Standard | SandboxLevel::Full)
    }

    /// Can execute system commands.
    pub fn allows_exec(&self) -> (r: bool)
        ensures
            r == (*self == SandboxLevel::Full),
    {
        matches!(self, SandboxLevel::Full)
    }

    /// Can write to the clipboard.
    pub fn allows_clipboard_write(&self) -> (r: bool)
        ensures
            r == (*self == SandboxLevel::Full),
    {
        matches!(self, SandboxLevel::Full)
    }

    /// Can access paths outside the command folder.
    pub fn allows_expanded_paths(&self) -> (r: bool)
        ensures
            r == (*self == SandboxLevel::Full),
    {
        matches!(self, SandboxLevel::Full)
    }
}

/// Errors of a Lua script run.
#[derive(Debug, Clone, PartialEq)]
pub enum LuaError {
    /// Failed to create the Lua VM.
    InitError(String),
    /// Failed to load the script file.
    LoadError(String),
    /// Script execution error.
    RuntimeError(String),
    /// The script exceeded its timeout.
    Timeout,
    /// Sandbox violation.
    SandboxViolation(String),
    /// I/O error, by its message.
    IoError(String),
}

/// The text shown for an error.
pub open spec fn lua_error_text(e: LuaError) -> Seq<char> {
    match e {
        LuaError::InitError(m) => "Lua init error: "@ + m@,
        LuaError::LoadError(m) => "Script load error: "@ + m@,
        LuaError::RuntimeError(m) => "Runtime error: "@ + m@,
        LuaError::Timeout => "Script timeout"@,
        LuaError::SandboxViolation(m) => "Sandbox violation: "@ + m@,
        LuaError::IoError(m) => "IO error: "@ + m@,
    }
}

impl LuaError {
    /// The text shown for the error.
    pub fn message(&self) -> (r: String)
        ensures
            r@ == lua_error_text(*self),
    {
        match self {
            LuaError::InitError(m) => concat2("Lua init error: ", m.as_str()),
            LuaError::LoadError(m) => concat2("Script load error: ", m.as_str()),
            LuaError::RuntimeError(m) => concat2("Runtime error: ", m.as_str()),
            LuaError::Timeout => owned("Script timeout"),
            LuaError::SandboxViolation(m) => concat2("Sandbox violation: ", m.as_str()),
            LuaError::IoError(m) => concat2("IO error: ", m.as_str()),
        }
    }
}

} // verus!
