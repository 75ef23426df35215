//! The voice loop's decisions: cleaning a recognised utterance, the
//! wake-word and command-listening state machines (voice activity, silence
//! timeouts, chaining), and what follows the dispatch of a command.
//!
//! The caller performs the actions (reading the microphone, feeding the
//! recogniser, playing sounds, sending events) and hands back the events.
use vstd::prelude::*;
use crate::commands::{cmd_at, first_with_id, has_cmd_id, JCommand, JCommandsList};
use crate::intent::get_command_by_intent;
use crate::matching::{fetch_command, fetch_command_regex, first_regex_hit, normalize_phrase, some_regex_hit};
use crate::config::AssistantState;
use crate::text::{
    contains_seq, contains_str, copy_string, lowercase, replace_all, replace_str, to_lower, trim,
    trim_str, utf8_len,
};

verus! {

// ---------------------------------------------------------------------------
// Cleaning an utterance
// ---------------------------------------------------------------------------

/// Some wake phrase occurs in the text.
pub open spec fn has_wake_phrase(text: Seq<char>, wake: Seq<Seq<char>>) -> bool {
    exists|k: int| 0 <= k < wake.len() && contains_seq(text, #[trigger] wake[k])
}

/// The text with each phrase of the list removed, one phrase after another.
pub open spec fn remove_all(text: Seq<char>, phrases: Seq<Seq<char>>) -> Seq<char>
    decreases phrases.len(),
{
    if phrases.len() == 0 {
        text
    } else {
        replace_all(remove_all(text, phrases.drop_last()), phrases.last(), Seq::empty())
    }
}

/// The views of a list of strings.
pub open spec fn strs(v: Seq<String>) -> Seq<Seq<char>> {
    v.map_values(|s: String| s@)
}

fn remove_phrases(text: &str, phrases: &Vec<String>) -> (r: String)
    ensures
        r@ == remove_all(text@, strs(phrases@)),
{
    let mut out = crate::text::owned(text);
    let mut k: usize = 0;
    while k < phrases.len()
        invariant
            0 <= k <= phrases@.len(),
            out@ == remove_all(text@, strs(phrases@.subrange(0, k as int))),
        decreases phrases@.len() - k,
    {
        proof {
            let sub = strs(phrases@.subrange(0, k + 1));
            assert(sub.drop_last() =~= strs(phrases@.subrange(0, k as int)));
            assert(sub.last() == phrases@[k as int]@);
        }
        let empty = "";
        proof {
            reveal_strlit("");
        }
        assert(empty@ =~= Seq::<char>::empty());
        out = replace_str(out.as_str(), phrases[k].as_str(), empty);
        k = k + 1;
    }
    assert(phrases@.subrange(0, phrases@.len() as int) =~= phrases@);
    out
}

fn contains_any(text: &str, phrases: &Vec<String>) -> (r: bool)
    ensures
        r == has_wake_phrase(text@, strs(phrases@)),
{
    let mut k: usize = 0;
    while k < phrases.len()
        invariant
            0 <= k <= phrases@.len(),
            forall|j: int| 0 <= j < k ==> !contains_seq(text@, #[trigger] strs(phrases@)[j]),
        decreases phrases@.len() - k,
    {
        if contains_str(text, phrases[k].as_str()) {
            assert(contains_seq(text@, strs(phrases@)[k as int]));
            return true;
        }
        k = k + 1;
    }
    false
}

/// What a recognised utterance amounts to while listening for a command.
#[derive(Debug, Clone, PartialEq)]
pub enum Utterance {
    /// Only the wake word was said.
    OnlyWakeWord,
    /// What is left is shorter than five bytes and is ignored.
    TooShort,
    /// A command text to execute.
    Command(String),
}

/// The command text of an utterance, before the length check: the
/// lower-cased utterance, or when it holds a wake phrase what is left once
/// every wake phrase is removed and the rest is trimmed; then with the
/// filler phrases removed, trimmed.
pub open spec fn utterance_text(
    recognized: Seq<char>,
    wake: Seq<Seq<char>>,
    fillers: Seq<Seq<char>>,
) -> Seq<char> {
    let lower = lowercase(recognized);
    let base = if has_wake_phrase(lower, wake) {
        trim(remove_all(lower, wake))
    } else {
        lower
    };
    trim(remove_all(base, fillers))
}

/// What an utterance recognised while listening amounts to.
pub open spec fn classify_utterance_spec(
    recognized: Seq<char>,
    wake: Seq<Seq<char>>,
    fillers: Seq<Seq<char>>,
) -> Option<Seq<char>> {
    let lower = lowercase(recognized);
    if has_wake_phrase(lower, wake) && trim(remove_all(lower, wake)).len() == 0 {
        None
    } else {
        Some(utterance_text(recognized, wake, fillers))
    }
}

/// Classifies an utterance recognised while listening for a command.
pub fn classify_utterance(
    recognized: &str,
    wake_phrases: &Vec<String>,
    phrases_to_remove: &Vec<String>,
) -> (r: Utterance)
    ensures
        classify_utterance_spec(recognized@, strs(wake_phrases@), strs(phrases_to_remove@)) is None
            ==> r == Utterance::OnlyWakeWord,
        classify_utterance_spec(recognized@, strs(wake_phrases@), strs(phrases_to_remove@)) matches Some(t)
            ==> (if utf8_len(t) < 5 {
            r == Utterance::TooShort
        } else {
            r matches Utterance::Command(c) && c@ == t
        }),
{
    let lower = to_lower(recognized);
    let base = if contains_any(lower.as_str(), wake_phrases) {
        let stripped = remove_phrases(lower.as_str(), wake_phrases);
        let remaining = trim_str(stripped.as_str());
        if remaining.as_str().is_empty() {
            return Utterance::OnlyWakeWord;
        }
        remaining
    } else {
        lower
    };
    let cleaned = remove_phrases(base.as_str(), phrases_to_remove);
    let text = trim_str(cleaned.as_str());
    if crate::text::utf8_len_below(text.as_str(), 5) {
        Utterance::TooShort
    } else {
        Utterance::Command(text)
    }
}

/// The command of a typed text: lower-cased, filler phrases removed,
/// trimmed; `None` when nothing is left.
pub fn process_text_command(text: &str, phrases_to_remove: &Vec<String>) -> (r: Option<String>)
    ensures
        trim(remove_all(lowercase(text@), strs(phrases_to_remove@))).len() == 0 ==> r is None,
        trim(remove_all(lowercase(text@), strs(phrases_to_remove@))).len() > 0 ==> (r matches Some(
            c,
        ) && c@ == trim(remove_all(lowercase(text@), strs(phrases_to_remove@)))),
{
    let lower = to_lower(text);
    let cleaned = remove_phrases(lower.as_str(), phrases_to_remove);
    let t = trim_str(cleaned.as_str());
    if t.as_str().is_empty() {
        None
    } else {
        Some(t)
    }
}

// ---------------------------------------------------------------------------
// Voice activity
// ---------------------------------------------------------------------------

/// Voice activity state of a listening loop.
#[derive(Debug, Clone, Copy, PartialEq, Eq, Structural)]
pub enum VadState {
    WaitingForVoice,
    VoiceActive,
}

// ---------------------------------------------------------------------------
// The wake-word loop
// ---------------------------------------------------------------------------

/// The wake-word loop's state.
#[derive(Debug, Clone, Copy, PartialEq, Eq, Structural)]
pub struct WakeLoop {
    pub vad_state: VadState,
    pub silence_frames: u32,
    /// Frames of silence after which speech counts as ended.
    pub silence_threshold: u32,
}

/// What the wake-word loop does with a frame.
#[derive(Debug, Clone, Copy, PartialEq, Eq, Structural)]
pub enum WakeAction {
    /// Keep the frame in the pre-roll buffer.
    Buffer,
    /// Keep the frame, then feed the whole buffer to the wake-word detector:
    /// voice has started.
    BufferAndFlush,
    /// Feed the frame to the recogniser and the wake-word detector, then
    /// report whether the wake word was heard (`after_detection`).
    FeedAndDetect,
}

impl WakeLoop {
    /// The silence counter has not passed the threshold.
    pub open spec fn silence_bounded(self) -> bool {
        self.silence_frames <= self.silence_threshold
    }

    /// The state before the first frame.
    pub fn new(silence_threshold: u32) -> (r: WakeLoop)
        ensures
            r == (WakeLoop {
                vad_state: VadState::WaitingForVoice,
                silence_frames: 0,
                silence_threshold,
            }),
    {
        WakeLoop { vad_state: VadState::WaitingForVoice, silence_frames: 0, silence_threshold }
    }

    /// Handles a frame by its voice flag.
    pub fn on_frame(&mut self, is_voice: bool) -> (a: WakeAction)
        ensures
            final(self).silence_threshold == old(self).silence_threshold,
            old(self).silence_bounded() ==> final(self).silence_bounded(),
            old(self).vad_state == VadState::WaitingForVoice && !is_voice ==> a == WakeAction::Buffer
                && *final(self) == *old(self),
            old(self).vad_state == VadState::WaitingForVoice && is_voice ==> a
                == WakeAction::BufferAndFlush && *final(self) == (WakeLoop {
                vad_state: VadState::VoiceActive,
                silence_frames: 0,
                silence_threshold: old(self).silence_threshold,
            }),
            old(self).vad_state == VadState::VoiceActive ==> a == WakeAction::FeedAndDetect
                && *final(self) == *old(self),
    {
        match self.vad_state {
            VadState::WaitingForVoice => {
                if is_voice {
                    self.vad_state = VadState::VoiceActive;
                    self.silence_frames = 0;
                    WakeAction::BufferAndFlush
                } else {
                    WakeAction::Buffer
                }
            },
            VadState::VoiceActive => WakeAction::FeedAndDetect,
        }
    }

    /// After feeding a frame while voice is active: when the wake word was
    /// heard, a command is to be recognised and the loop starts over;
    /// otherwise silence is counted, and too long a silence ends the speech
    /// (the recognisers are to be reset). Returns whether the wake word was
    /// heard or the speech ended, in that order.
    pub fn after_detection(&mut self, is_voice: bool, wake_word: bool) -> (r: (bool, bool))
        requires
            old(self).vad_state == VadState::VoiceActive,
        ensures
            final(self).silence_threshold == old(self).silence_threshold,
            old(self).silence_bounded() ==> final(self).silence_bounded(),
            wake_word ==> r == (true, false) && *final(self) == (WakeLoop {
                vad_state: VadState::WaitingForVoice,
                silence_frames: 0,
                silence_threshold: old(self).silence_threshold,
            }),
            !wake_word && is_voice ==> r == (false, false) && *final(self) == (WakeLoop {
                silence_frames: 0,
                ..*old(self)
            }),
            !wake_word && !is_voice && old(self).silence_frames + 1 > old(self).silence_threshold
                ==> r == (false, true) && *final(self) == (WakeLoop {
                vad_state: VadState::WaitingForVoice,
                silence_frames: 0,
                silence_threshold: old(self).silence_threshold,
            }),
            !wake_word && !is_voice && old(self).silence_frames + 1 <= old(self).silence_threshold
                ==> r == (false, false) && *final(self) == (WakeLoop {
                silence_frames: (old(self).silence_frames + 1) as u32,
                ..*old(self)
            }),
    {
        if wake_word {
            self.vad_state = VadState::WaitingForVoice;
            self.silence_frames = 0;
            return (true, false);
        }
        if is_voice {
            self.silence_frames = 0;
            (false, false)
        } else if self.silence_frames >= self.silence_threshold {
            self.vad_state = VadState::WaitingForVoice;
            self.silence_frames = 0;
            (false, true)
        } else {
            self.silence_frames = self.silence_frames + 1;
            (false, false)
        }
    }
}

// ---------------------------------------------------------------------------
// Listening for a command after the wake word
// ---------------------------------------------------------------------------

/// The command-listening loop's state.
#[derive(Debug, Clone, Copy, PartialEq, Eq, Structural)]
pub struct CommandLoop {
    pub vad_state: VadState,
    pub silence_frames: u32,
    /// The first recognition may still hold the wake word fed before.
    pub first_recognition: bool,
    /// Frames of silence after which the loop gives up.
    pub silence_threshold: u32,
}

/// What the command-listening loop does next.
#[derive(Debug, Clone, PartialEq)]
pub enum ListenAction {
    /// Keep the frame in the pre-roll buffer.
    Buffer,
    /// Keep the frame, then feed the whole buffer to the recogniser.
    BufferAndFlush,
    /// Feed the frame to the recogniser and report what it recognised.
    Recognize,
    /// Keep listening (after checking the overall timeout).
    Continue,
    /// Keep listening at once: the utterance was too short.
    Ignore,
    /// The wake word left over from the audio fed before: reset the
    /// recogniser, play the reply sound and listen again.
    DiscardWakeWord,
    /// The wake word was said again: play the reply sound, reset the
    /// recogniser, announce listening and listen again.
    Reactivate,
    /// Execute the command text and report whether to chain.
    Execute(String),
    /// Chain: drain the echo, reset, and listen for the next command.
    ChainNext,
    /// Return to wake-word mode.
    Exit,
}

impl CommandLoop {
    /// The silence counter has not passed the threshold.
    pub open spec fn silence_bounded(self) -> bool {
        self.silence_frames <= self.silence_threshold
    }

    /// The state when listening starts; with pre-fed audio the voice is
    /// already active and the first recognition may hold the wake word.
    pub fn new(prefed_audio: bool, silence_threshold: u32) -> (r: CommandLoop)
        ensures
            r == (CommandLoop {
                vad_state: if prefed_audio {
                    VadState::VoiceActive
                } else {
                    VadState::WaitingForVoice
                },
                silence_frames: 0,
                first_recognition: prefed_audio,
                silence_threshold,
            }),
    {
        CommandLoop {
            vad_state: if prefed_audio {
                VadState::VoiceActive
            } else {
                VadState::WaitingForVoice
            },
            silence_frames: 0,
            first_recognition: prefed_audio,
            silence_threshold,
        }
    }

    /// Handles a frame by its voice flag. While waiting for voice, too long
    /// a silence ends listening.
    pub fn on_frame(&mut self, is_voice: bool) -> (a: ListenAction)
        ensures
            final(self).silence_threshold == old(self).silence_threshold,
            old(self).silence_bounded() ==> final(self).silence_bounded(),
            old(self).vad_state == VadState::VoiceActive ==> a == ListenAction::Recognize
                && *final(self) == *old(self),
            old(self).vad_state == VadState::WaitingForVoice && is_voice ==> a
                == ListenAction::BufferAndFlush && *final(self) == (CommandLoop {
                vad_state: VadState::VoiceActive,
                silence_frames: 0,
                ..*old(self)
            }),
            old(self).vad_state == VadState::WaitingForVoice && !is_voice
                && old(self).silence_frames + 1 > old(self).silence_threshold ==> a
                == ListenAction::Exit && *final(self) == *old(self),
            old(self).vad_state == VadState::WaitingForVoice && !is_voice
                && old(self).silence_frames + 1 <= old(self).silence_threshold ==> a
                == ListenAction::Buffer && *final(self) == (CommandLoop {
                silence_frames: (old(self).silence_frames + 1) as u32,
                ..*old(self)
            }),
    {
        match self.vad_state {
            VadState::VoiceActive => ListenAction::Recognize,
            VadState::WaitingForVoice => {
                if is_voice {
                    self.vad_state = VadState::VoiceActive;
                    self.silence_frames = 0;
                    ListenAction::BufferAndFlush
                } else if self.silence_frames >= self.silence_threshold {
                    ListenAction::Exit
                } else {
                    self.silence_frames = self.silence_frames + 1;
                    ListenAction::Buffer
                }
            },
        }
    }

    /// After a frame was fed while voice is active: `recognized` is the
    /// utterance the recogniser completed, if any.
    pub fn after_recognition(
        &mut self,
        is_voice: bool,
        recognized: Option<&str>,
        wake_phrases: &Vec<String>,
        phrases_to_remove: &Vec<String>,
    ) -> (a: ListenAction)
        requires
            old(self).vad_state == VadState::VoiceActive,
        ensures
            final(self).silence_threshold == old(self).silence_threshold,
            old(self).silence_bounded() ==> final(self).silence_bounded(),
            recognized matches Some(t) ==> match classify_utterance_spec(
                t@,
                strs(wake_phrases@),
                strs(phrases_to_remove@),
            ) {
                None => a == (if old(self).first_recognition {
                    ListenAction::DiscardWakeWord
                } else {
                    ListenAction::Reactivate
                }) && *final(self) == (CommandLoop {
                    vad_state: VadState::WaitingForVoice,
                    silence_frames: 0,
                    first_recognition: false,
                    silence_threshold: old(self).silence_threshold,
                }),
                Some(c) => if utf8_len(c) < 5 {
                    a == ListenAction::Ignore && *final(self) == (CommandLoop {
                        first_recognition: false,
                        ..*old(self)
                    })
                } else {
                    (a matches ListenAction::Execute(e) && e@ == c) && *final(self) == (CommandLoop {
                        first_recognition: false,
                        ..*old(self)
                    })
                },
            },
            recognized is None && is_voice ==> a == ListenAction::Continue && *final(self) == (
            CommandLoop { silence_frames: 0, ..*old(self) }),
            recognized is None && !is_voice && old(self).silence_frames + 1
                > old(self).silence_threshold ==> a == ListenAction::Exit && *final(self) == *old(
                self),
            recognized is None && !is_voice && old(self).silence_frames + 1
                <= old(self).silence_threshold ==> a == ListenAction::Continue && *final(self) == (
            CommandLoop { silence_frames: (old(self).silence_frames + 1) as u32, ..*old(self) }),
    {
        match recognized {
            Some(text) => {
                match classify_utterance(text, wake_phrases, phrases_to_remove) {
                    Utterance::OnlyWakeWord => {
                        let leftover = self.first_recognition;
                        self.first_recognition = false;
                        self.vad_state = VadState::WaitingForVoice;
                        self.silence_frames = 0;
                        if leftover {
                            ListenAction::DiscardWakeWord
                        } else {
                            ListenAction::Reactivate
                        }
                    },
                    Utterance::TooShort => {
                        self.first_recognition = false;
                        ListenAction::Ignore
                    },
                    Utterance::Command(c) => {
                        self.first_recognition = false;
                        ListenAction::Execute(c)
                    },
                }
            },
            None => {
                if is_voice {
                    self.silence_frames = 0;
                    ListenAction::Continue
                } else if self.silence_frames >= self.silence_threshold {
                    ListenAction::Exit
                } else {
                    self.silence_frames = self.silence_frames + 1;
                    ListenAction::Continue
                }
            },
        }
    }

    /// After a command ran: chaining keeps listening from a fresh start,
    /// otherwise listening ends.
    pub fn after_execution(&mut self, chain: bool) -> (a: ListenAction)
        ensures
            final(self).silence_threshold == old(self).silence_threshold,
            old(self).silence_bounded() ==> final(self).silence_bounded(),
            chain ==> a == ListenAction::ChainNext && *final(self) == (CommandLoop {
                vad_state: VadState::WaitingForVoice,
                silence_frames: 0,
                ..*old(self)
            }),
            !chain ==> a == ListenAction::Exit && *final(self) == *old(self),
    {
        if chain {
            self.vad_state = VadState::WaitingForVoice;
            self.silence_frames = 0;
            ListenAction::ChainNext
        } else {
            ListenAction::Exit
        }
    }
}

// ---------------------------------------------------------------------------
// After dispatch
// ---------------------------------------------------------------------------

/// Events sent to the user interface.
#[derive(Debug, Clone, PartialEq)]
pub enum UiEvent {
    Idle,
    StateChanged(AssistantState),
    CommandExecuted { id: String, success: bool },
    Error { message: String },
    /// A text was recognised (spoken or typed).
    SpeechRecognized { text: String },
    /// The assistant listens for a command.
    Listening,
    WakeWordDetected,
    Stopping,
}

/// What happened to a recognised text.
#[derive(Debug, PartialEq)]
pub enum DispatchOutcome {
    /// A command ran with this result (whether to chain, or the error).
    CommandRan { id: String, result: Result<bool, String> },
    /// A script ran with this result.
    ScriptRan { id: String, result: Result<(), String>, via_intent: bool },
    /// The intent named a script that is no longer on disk.
    ScriptMissing { id: String },
    /// Nothing matched the text.
    NotFound { text: String },
}

/// Sounds and resets that accompany the events.
#[derive(Debug, Clone, Copy, PartialEq, Eq, Structural)]
pub enum Feedback {
    Quiet,
    PlayError,
    PlayNotFound,
    PlayNotFoundAndResetRecognizer,
}

/// The answer to a dispatched text: the feedback, the user-interface events
/// in order, and whether to keep listening for a chained command.
pub struct DispatchReport {
    pub feedback: Feedback,
    pub events: Vec<UiEvent>,
    pub chain: bool,
}

/// Whether a dispatch keeps listening: only a command that ran and asked
/// to chain does.
pub open spec fn dispatch_chains(o: DispatchOutcome) -> bool {
    match o {
        DispatchOutcome::CommandRan { result: Ok(c), .. } => c,
        _ => false,
    }
}

/// The message sent when the intent named a script that is gone.
pub open spec fn script_missing_message(id: Seq<char>) -> Seq<char> {
    "Script '"@ + id + "' was deleted \u{2014} restart Jarvis to update voice triggers"@
}

/// The feedback that accompanies a dispatch outcome.
pub open spec fn dispatch_feedback(o: DispatchOutcome) -> Feedback {
    match o {
        DispatchOutcome::CommandRan { result: Ok(_), .. } => Feedback::Quiet,
        DispatchOutcome::CommandRan { result: Err(_), .. } => Feedback::PlayError,
        DispatchOutcome::ScriptRan { result: Ok(_), .. } => Feedback::Quiet,
        DispatchOutcome::ScriptRan { result: Err(_), .. } => Feedback::PlayError,
        DispatchOutcome::ScriptMissing { .. } => Feedback::PlayNotFound,
        DispatchOutcome::NotFound { .. } => Feedback::PlayNotFoundAndResetRecognizer,
    }
}

/// The events that follow the `Responding` state for a dispatch outcome.
pub open spec fn dispatch_tail(o: DispatchOutcome) -> Seq<UiEvent> {
    match o {
        DispatchOutcome::CommandRan { id, result: Ok(_) } => seq![
            UiEvent::CommandExecuted { id, success: true },
            UiEvent::Idle,
        ],
        DispatchOutcome::CommandRan { id, result: Err(m) } => seq![
            UiEvent::CommandExecuted { id, success: false },
            UiEvent::Error { message: m },
            UiEvent::Idle,
        ],
        DispatchOutcome::ScriptRan { id, result: Ok(_), .. } => seq![
            UiEvent::CommandExecuted { id, success: true },
            UiEvent::Idle,
        ],
        DispatchOutcome::ScriptRan { id, result: Err(m), via_intent } => if via_intent {
            seq![
                UiEvent::CommandExecuted { id, success: false },
                UiEvent::Error { message: m },
                UiEvent::Idle,
            ]
        } else {
            seq![UiEvent::Error { message: m }, UiEvent::Idle]
        },
        DispatchOutcome::ScriptMissing { .. } => seq![UiEvent::Idle, UiEvent::Idle],
        DispatchOutcome::NotFound { .. } => seq![UiEvent::Idle],
    }
}

/// Reports a dispatch: after the `Responding` state, a success sends the
/// executed event then `Idle`; a failure plays the error sound and sends the
/// failed event (not for a script matched by phrase) and the error, then
/// `Idle`; a missing script plays the not-found sound and sends the error
/// and `Idle` twice; no match plays the not-found sound, resets the
/// recogniser and sends the error, then `Idle`.
pub fn finish_dispatch(outcome: DispatchOutcome) -> (r: DispatchReport)
    ensures
        r.chain == dispatch_chains(outcome),
        r.feedback == dispatch_feedback(outcome),
        r.events@[0] == UiEvent::StateChanged(AssistantState::Responding),
        !(outcome is ScriptMissing || outcome is NotFound) ==> r.events@ == seq![
            UiEvent::StateChanged(AssistantState::Responding),
        ] + dispatch_tail(outcome),
        outcome matches DispatchOutcome::ScriptMissing { id } ==> r.events@.len() == 4
            && r.events@.subrange(2, 4) == dispatch_tail(outcome) && (r.events@[1] matches UiEvent::Error { message }
            && message@ == script_missing_message(id@)),
        outcome matches DispatchOutcome::NotFound { text } ==> r.events@.len() == 3
            && r.events@.subrange(2, 3) == dispatch_tail(outcome) && (r.events@[1] matches UiEvent::Error { message }
            && message@ == "Command not found: "@ + text@),
{
    let mut events: Vec<UiEvent> = Vec::new();
    events.push(UiEvent::StateChanged(AssistantState::Responding));
    match outcome {
        DispatchOutcome::CommandRan { id, result } => {
            match result {
                Ok(chain) => {
                    events.push(UiEvent::CommandExecuted { id, success: true });
                    events.push(UiEvent::Idle);
                    DispatchReport { feedback: Feedback::Quiet, events, chain }
                },
                Err(m) => {
                    events.push(UiEvent::CommandExecuted { id, success: false });
                    events.push(UiEvent::Error { message: m });
                    events.push(UiEvent::Idle);
                    DispatchReport { feedback: Feedback::PlayError, events, chain: false }
                },
            }
        },
        DispatchOutcome::ScriptRan { id, result, via_intent } => {
            match result {
                Ok(()) => {
                    events.push(UiEvent::CommandExecuted { id, success: true });
                    events.push(UiEvent::Idle);
                    DispatchReport { feedback: Feedback::Quiet, events, chain: false }
                },
                Err(m) => {
                    if via_intent {
                        events.push(UiEvent::CommandExecuted { id, success: false });
                    }
                    events.push(UiEvent::Error { message: m });
                    events.push(UiEvent::Idle);
                    DispatchReport { feedback: Feedback::PlayError, events, chain: false }
                },
            }
        },
        DispatchOutcome::ScriptMissing { id } => {
            let mut m = crate::text::owned("Script '");
            m.append(id.as_str());
            m.append("' was deleted \u{2014} restart Jarvis to update voice triggers");
            events.push(UiEvent::Error { message: m });
            events.push(UiEvent::Idle);
            events.push(UiEvent::Idle);
            DispatchReport { feedback: Feedback::PlayNotFound, events, chain: false }
        },
        DispatchOutcome::NotFound { text } => {
            let m = crate::text::concat2("Command not found: ", text.as_str());
            events.push(UiEvent::Error { message: m });
            events.push(UiEvent::Idle);
            DispatchReport {
                feedback: Feedback::PlayNotFoundAndResetRecognizer,
                events,
                chain: false,
            }
        },
    }
}

/// Where a recognised text goes once its command was looked up.
#[derive(Debug)]
pub enum Route<'a> {
    /// The command stands for a script: load the script with this id from
    /// disk and run it.
    ScriptRef(&'a String),
    /// Run the command from its pack folder; extract slot values first when
    /// it has slots.
    Command { path: &'a String, cmd: &'a JCommand, extract_slots: bool },
    /// No command: try the scripts, read from disk.
    TryScripts,
}

/// Routes a looked-up command: script references go to the scripts, other
/// commands run, and without a command the scripts are tried.
pub fn route_command<'a>(found: Option<(&'a String, &'a JCommand)>) -> (r: Route<'a>)
    ensures
        found is None ==> r is TryScripts,
        found matches Some((p, c)) ==> if c.cmd_type@ == "script_ref"@ {
            r matches Route::ScriptRef(id) && id == c.id
        } else {
            r matches Route::Command { path, cmd, extract_slots } && path == p && cmd == c
                && extract_slots == (c.slots@.len() > 0)
        },
{
    match found {
        None => Route::TryScripts,
        Some((p, c)) => {
            if crate::text::str_eq(c.cmd_type.as_str(), "script_ref") {
                Route::ScriptRef(&c.id)
            } else {
                Route::Command { path: p, cmd: c, extract_slots: c.slots.len() > 0 }
            }
        },
    }
}

/// The sound that answers a command or script: its own response sound when
/// set, else a random one of its sounds.
#[derive(Debug, Clone, PartialEq)]
pub enum ResponseSound {
    File(String),
    RandomOf(Vec<String>),
}

/// The response sound of a command for the language.
pub fn command_response(cmd: &JCommand, lang: &str) -> (r: ResponseSound)
    ensures
        cmd.response_sound@.len() > 0 ==> (r matches ResponseSound::File(f) && f@
            == cmd.response_sound@),
        cmd.response_sound@.len() == 0 ==> (r matches ResponseSound::RandomOf(v) && v@
            == crate::commands::lang_entry(cmd.sounds@, lang@)),
{
    if !cmd.response_sound.as_str().is_empty() {
        ResponseSound::File(copy_string(&cmd.response_sound))
    } else {
        ResponseSound::RandomOf(cmd.get_sounds(lang))
    }
}

/// The response sound of a script: its own response sound when set, else a
/// random one of its sounds (the default `ok` sounds when it has none).
pub fn script_response(script: &crate::scripts::Script, lang: &str) -> (r: ResponseSound)
    ensures
        script.response_sound@.len() > 0 ==> (r matches ResponseSound::File(f) && f@
            == script.response_sound@),
        script.response_sound@.len() == 0 && script.sounds_ru@.len() > 0 ==> (
        r matches ResponseSound::RandomOf(v) && v@ == script.sounds_ru@),
        script.response_sound@.len() == 0 && script.sounds_ru@.len() == 0 ==> (
        r matches ResponseSound::RandomOf(v) && crate::text::views(v@) == seq![
            "ok1"@,
            "ok2"@,
            "ok3"@,
        ]),
{
    if script.response_sound.unicode_len() > 0 {
        ResponseSound::File(copy_string(&script.response_sound))
    } else {
        ResponseSound::RandomOf(script.get_sounds(lang))
    }
}

/// The command that answers a recognised text, in the order voice matching
/// goes, on the text trimmed and lower-cased: first a command whose pattern
/// matches (the first in pack order); else, when the intent classifier
/// answered with an id, the first command with that id (nothing while
/// recognition is recorded as `"none"`); else the caller's fuzzy pick, by
/// pack and command index (nothing for an empty text).
pub fn lookup_command<'a>(
    text: &str,
    commands: &'a [JCommandsList],
    intent: Option<&str>,
    backend: Option<&str>,
    fuzzy_pick: Option<(usize, usize)>,
) -> (r: Option<(&'a String, &'a JCommand)>)
    ensures
        ({
            let p = lowercase(trim(text@));
            let regex_hit = p.len() > 0 && some_regex_hit(commands@, p);
            &&& regex_hit ==> (r matches Some((path, c)) && exists|i: int, j: int|
                first_regex_hit(commands@, p, i, j) && *path == commands@[i].path && *c
                    == commands@[i].commands@[j])
            &&& !regex_hit ==> match intent {
                Some(id) => if backend matches Some(b) && b@ == "none"@ {
                    r is None
                } else {
                    &&& (r is None <==> !has_cmd_id(commands@, id@))
                    &&& (r matches Some((path, c)) ==> exists|i: int, j: int|
                        first_with_id(commands@, id@, i, j) && *path == commands@[i].path && *c
                            == commands@[i].commands@[j])
                },
                None => match fuzzy_pick {
                    Some((i, j)) => if p.len() > 0 && cmd_at(commands@, i as int, j as int) {
                        r matches Some((path, c)) && *path == commands@[i as int].path && *c
                            == commands@[i as int].commands@[j as int]
                    } else {
                        r is None
                    },
                    None => r is None,
                },
            }
        }),
{
    let p = normalize_phrase(text);
    if p.unicode_len() > 0 {
        match fetch_command_regex(p.as_str(), commands) {
            Some(hit) => {
                return Some(hit);
            },
            None => {},
        }
    }
    match intent {
        Some(id) => get_command_by_intent(commands, id, backend),
        None => fetch_command(text, commands, fuzzy_pick),
    }
}

/// What running a looked-up text gave, as the caller reports it.
#[derive(Debug, PartialEq)]
pub enum RunReport {
    /// The command ran with this result (whether to chain, or the error).
    Command(Result<bool, String>),
    /// The script the command stands for ran with this result, or it is no
    /// longer on disk.
    Script(Option<Result<(), String>>),
    /// There was no command: a script matched by phrase ran (its id and
    /// result), or nothing matched.
    PhraseScript(Option<(String, Result<(), String>)>),
}

/// The report is of the kind the looked-up command calls for: a script
/// report for a script reference, a command report for another command, a
/// phrase report when nothing was found.
pub open spec fn report_fits(found: Option<(&String, &JCommand)>, run: RunReport) -> bool {
    match found {
        None => run is PhraseScript,
        Some((_, c)) => if c.cmd_type@ == "script_ref"@ {
            run is Script
        } else {
            run is Command
        },
    }
}

/// Whether the report is of the kind the looked-up command calls for.
pub fn report_fits_exec(found: Option<(&String, &JCommand)>, run: &RunReport) -> (r: bool)
    ensures
        r == report_fits(found, *run),
{
    match found {
        None => matches!(run, RunReport::PhraseScript(_)),
        Some((_, c)) => {
            if crate::text::str_eq(c.cmd_type.as_str(), "script_ref") {
                matches!(run, RunReport::Script(_))
            } else {
                matches!(run, RunReport::Command(_))
            }
        },
    }
}

/// The outcome of a recognised text, from the command looked up for it and
/// what running it gave: a command's run, a script reference's run (or the
/// script gone), a script matched by phrase, or nothing found. The text
/// keeps listening only when a command other than a script reference ran
/// and asked to chain.
pub fn outcome_for(found: Option<(&String, &JCommand)>, text: &str, run: RunReport) -> (o:
    DispatchOutcome)
    requires
        report_fits(found, run),
    ensures
        dispatch_chains(o) == (found matches Some((_, c)) && c.cmd_type@ != "script_ref"@
            && run matches RunReport::Command(Ok(true))),
        found matches Some((_, c)) ==> (run matches RunReport::Command(res) ==> (
        o matches DispatchOutcome::CommandRan { id, result } && id@ == c.id@ && result == res)),
        found matches Some((_, c)) ==> (run matches RunReport::Script(Some(res)) ==> (
        o matches DispatchOutcome::ScriptRan { id, result, via_intent } && id@ == c.id@ && result
            == res && via_intent)),
        found matches Some((_, c)) ==> (run matches RunReport::Script(None) ==> (
        o matches DispatchOutcome::ScriptMissing { id } && id@ == c.id@)),
        run matches RunReport::PhraseScript(Some((sid, res))) ==> o == (DispatchOutcome::ScriptRan {
            id: sid,
            result: res,
            via_intent: false,
        }),
        run matches RunReport::PhraseScript(None) ==> (o matches DispatchOutcome::NotFound { text: t }
            && t@ == text@),
{
    match found {
        Some((_, c)) => match run {
            RunReport::Command(res) => DispatchOutcome::CommandRan { id: copy_string(&c.id), result: res },
            RunReport::Script(Some(res)) => DispatchOutcome::ScriptRan {
                id: copy_string(&c.id),
                result: res,
                via_intent: true,
            },
            RunReport::Script(None) => DispatchOutcome::ScriptMissing { id: copy_string(&c.id) },
            RunReport::PhraseScript(_) => {
                proof {
                    assert(false);
                }
                DispatchOutcome::NotFound { text: crate::text::owned(text) }
            },
        },
        None => match run {
            RunReport::PhraseScript(Some((sid, res))) => DispatchOutcome::ScriptRan {
                id: sid,
                result: res,
                via_intent: false,
            },
            _ => DispatchOutcome::NotFound { text: crate::text::owned(text) },
        },
    }
}

/// A dispatched text never keeps the assistant listening unless a command
/// ran and asked to chain: in particular a text that matched nothing, or a
/// script, always returns to wake-word mode.
pub proof fn law_only_chaining_commands_chain(o: DispatchOutcome)
    ensures
        dispatch_chains(o) ==> (o matches DispatchOutcome::CommandRan { result: Ok(true), .. }),
        o is NotFound ==> !dispatch_chains(o),
        o is ScriptRan ==> !dispatch_chains(o),
        o is ScriptMissing ==> !dispatch_chains(o),
{
}


/// An utterance that holds no wake phrase is cleaned exactly as a typed
/// command is: lower-cased, every filler phrase removed, trimmed.
pub proof fn law_no_wake_phrase_cleans_like_text(
    recognized: Seq<char>,
    wake: Seq<Seq<char>>,
    fillers: Seq<Seq<char>>,
)
    requires
        forall|k: int| 0 <= k < wake.len() ==> !contains_seq(lowercase(recognized), #[trigger] wake[k]),
    ensures
        classify_utterance_spec(recognized, wake, fillers) == Some(
            trim(remove_all(lowercase(recognized), fillers)),
        ),
{
    assert(!has_wake_phrase(lowercase(recognized), wake));
}

} // verus!
