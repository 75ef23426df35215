use jarvis_core::config::EventTypes;
use jarvis_core::commands::complete_lua;
use jarvis_core::sandbox::{LuaError, SandboxLevel};

#[test]
fn event_names() {
    assert_eq!(EventTypes::AudioPlay.as_str(), "audio-play");
    assert_eq!(EventTypes::CommandEnd.as_str(), "command-end");
}

#[test]
fn sandbox_levels() {
    assert_eq!(SandboxLevel::parse("FULL"), SandboxLevel::Full);
    assert_eq!(SandboxLevel::parse("minimal"), SandboxLevel::Minimal);
    assert_eq!(SandboxLevel::parse("whatever"), SandboxLevel::Standard);
    assert!(SandboxLevel::Full.allows_exec());
    assert!(!SandboxLevel::Standard.allows_exec());
    assert!(!SandboxLevel::Minimal.allows_http());
    assert_eq!(LuaError::Timeout.message(), "Script timeout");
    assert_eq!(LuaError::InitError("vm".into()).message(), "Lua init error: vm");
    assert_eq!(LuaError::LoadError("x.lua".into()).message(), "Script load error: x.lua");
    assert_eq!(LuaError::RuntimeError("nil".into()).message(), "Runtime error: nil");
    assert_eq!(LuaError::SandboxViolation("fs".into()).message(), "Sandbox violation: fs");
    assert_eq!(LuaError::IoError("denied".into()).message(), "IO error: denied");
    assert_eq!(complete_lua(Err(LuaError::Timeout)), Err("Script timeout".to_string()));
    assert_eq!(complete_lua(Ok(true)), Ok(true));
}
