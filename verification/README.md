# jarvis_core

The verified core of a voice assistant, written in Verus.

`src/` holds the library: the command and agent registries, command and
script matching, the dispatch decisions and the listening state machines,
the slot-extraction arithmetic of the span model, voice packs, the model
catalog and model registry, plugin manifest validation and the command
editor. Every executable function carries a contract that Verus proves; the few calls into other crates
(regular expressions, SHA-256, the clock, the random pick, Unicode case
mapping and character classes, `Debug` quoting) stand behind small trusted
wrappers whose contracts say what those crates document.

`app/` is the ordinary Rust around it: reading packs, scripts, voices,
models and manifests from disk, the floating-point arithmetic (fuzzy phrase
scores, audio levels, embedding similarity, span probabilities), spawning
processes, and the voice loop that performs what the state machines decide;
the loop reaches the microphone, the speech and wake-word recognisers and the
intent classifier through a trait whose implementation lives with those
engines, which this repository does not include.

`tests/` runs the library on concrete inputs.
