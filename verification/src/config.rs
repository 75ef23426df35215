//! Configuration enums, the assistant's high-level state, the internal
//! events, and the names of the events shown to the user interface.
use vstd::prelude::*;

verus! {

#[derive(Debug, Clone, Copy, PartialEq, Eq, Structural)]
pub enum WakeWordEngine {
    Rustpotter,
    Vosk,
    Porcupine,
}

#[derive(Debug, Clone, Copy, PartialEq, Eq, Structural)]
pub enum NoiseSuppressionBackend {
    /// No noise suppression.
    Off,
    Nnnoiseless,
}

#[derive(Debug, Clone, Copy, PartialEq, Eq, Structural)]
pub enum SpeechToTextEngine {
    Vosk,
}

#[derive(Debug, Clone, Copy, PartialEq, Eq, Structural)]
pub enum RecorderType {
    Cpal,
    PvRecorder,
    PortAudio,
}

#[derive(Debug, Clone, Copy, PartialEq, Eq, Structural)]
pub enum AudioType {
    Rodio,
    Kira,
}

/// High-level assistant state for the user interface.
#[derive(Debug, Clone, Copy, PartialEq, Eq, Structural)]
pub enum AssistantState {
    /// Waiting for the wake word.
    Idle,
    /// Wake word heard; about to record a command.
    Activated,
    /// Recording and transcribing the spoken command.
    Listening,
    /// Running intent recognition and dispatch.
    Processing,
    /// Command dispatched; feedback playing.
    Responding,
}

/// Internal events passed between modules.
#[derive(Debug, Clone, PartialEq)]
pub enum JarvisEvent {
    WakeWordDetected,
    Listening,
    SpeechRecognized { text: String },
    CommandRecognized { id: String, utterance: String },
    CommandExecuted { id: String, success: bool },
    StateChanged { state: AssistantState },
    Error { message: String },
}

/// Events sent to the user interface.
#[derive(Debug, Clone, Copy, PartialEq, Eq, Structural)]
pub enum EventTypes {
    AudioPlay,
    AssistantWaiting,
    AssistantGreet,
    CommandStart,
    CommandInProcess,
    CommandEnd,
}

/// The name of a user-interface event.
pub open spec fn event_name(e: EventTypes) -> Seq<char> {
    match e {
        EventTypes::AudioPlay => "audio-play"@,
        EventTypes::AssistantWaiting => "assistant-waiting"@,
        EventTypes::AssistantGreet => "assistant-greet"@,
        EventTypes::CommandStart => "command-start"@,
        EventTypes::CommandInProcess => "command-in-process"@,
        EventTypes::CommandEnd => "command-end"@,
    }
}

impl EventTypes {
    /// The name of the event.
    pub fn as_str(&self) -> (r: &'static str)
        ensures
            r@ == event_name(*self),
    {
        match self {
            EventTypes::AudioPlay => "audio-play",
            EventTypes::AssistantWaiting => "assistant-waiting",
            EventTypes::AssistantGreet => "assistant-greet",
            EventTypes::CommandStart => "command-start",
            EventTypes::CommandInProcess => "command-in-process",
            EventTypes::CommandEnd => "command-end",
        }
    }
}

} // verus!
