//! Verified core of a voice assistant: the command and agent registries,
//! command and script matching and dispatch decisions, model catalog
//! queries, plugin manifest validation, slot-extraction helpers and the
//! voice-loop state machines.
pub mod text;
pub mod agent_registry;
pub mod sandbox;
pub mod commands;
pub mod command_registry;
pub mod commands_hash;
pub mod scripts;
pub mod matching;
pub mod catalog;
pub mod model_registry;
pub mod plugin;
pub mod config;
pub mod editor;
pub mod pipeline;
pub mod intent;
pub mod slots;
pub mod voices;
pub mod audio;
pub mod gui;
