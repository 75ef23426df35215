//! Intent recognition set-up: which backend to start from the settings, which
//! embedding model to prefer for a language, when cached training data is
//! stale, and how a recognised intent id is turned into a command.
//!
//! The classifiers themselves (embedding similarity, confidence thresholds)
//! work on floating point and are run by the caller.
use vstd::prelude::*;
use crate::commands::{first_with_id, get_command_by_id, has_cmd_id, JCommand, JCommandsList};
use crate::text::{owned, str_eq, trim, trim_str};

verus! {

/// The embedding model used when the preferred one cannot be loaded; it is
/// always present as a real binary.
pub const FALLBACK_EMBEDDING_MODEL: &'static str = "all-MiniLM-L6-v2";

/// The preferred embedding model of a language: the English-only model for
/// English, the multilingual one for any other language.
pub open spec fn preferred_model(lang: Seq<char>) -> Seq<char> {
    if lang == "en"@ {
        "all-MiniLM-L6-v2"@
    } else {
        "paraphrase-multilingual-MiniLM-L12-v2"@
    }
}

/// Selects the preferred embedding model id for the language.
pub fn select_embedding_model_id(lang: &str) -> (r: &'static str)
    ensures
        r@ == preferred_model(lang@),
{
    if str_eq(lang, "en") {
        "all-MiniLM-L6-v2"
    } else {
        "paraphrase-multilingual-MiniLM-L12-v2"
    }
}

/// What starting intent recognition has to do.
#[derive(Debug, PartialEq)]
pub enum IntentInit {
    /// A backend is already set: nothing to do.
    AlreadyInitialized,
    /// Recognition is off: record the backend as it is.
    Disabled,
    /// Start the trained intent classifier, then record the backend.
    IntentClassifier,
    /// Load the embedding model `preferred`; when that fails and `fallback`
    /// is given, load `fallback` instead. On success record the backend,
    /// else record `"none"`.
    Embedding { preferred: String, fallback: Option<String> },
}

/// The plan for starting intent recognition from the configured backend.
pub open spec fn init_plan_spec(configured: Seq<char>, lang: Seq<char>) -> IntentInitView {
    if configured == "none"@ {
        IntentInitView::Disabled
    } else if configured == "intent-classifier"@ || configured == "IntentClassifier"@ {
        IntentInitView::IntentClassifier
    } else if configured == "EmbeddingClassifier"@ {
        let p = preferred_model(lang);
        IntentInitView::Embedding {
            preferred: p,
            fallback: if p != "all-MiniLM-L6-v2"@ {
                Some("all-MiniLM-L6-v2"@)
            } else {
                None
            },
        }
    } else {
        IntentInitView::Embedding { preferred: configured, fallback: None }
    }
}

/// The plan with its strings taken by their views.
pub enum IntentInitView {
    AlreadyInitialized,
    Disabled,
    IntentClassifier,
    Embedding { preferred: Seq<char>, fallback: Option<Seq<char>> },
}

impl IntentInit {
    pub open spec fn view_of(self) -> IntentInitView {
        match self {
            IntentInit::AlreadyInitialized => IntentInitView::AlreadyInitialized,
            IntentInit::Disabled => IntentInitView::Disabled,
            IntentInit::IntentClassifier => IntentInitView::IntentClassifier,
            IntentInit::Embedding { preferred, fallback } => IntentInitView::Embedding {
                preferred: preferred@,
                fallback: match fallback {
                    Some(f) => Some(f@),
                    None => None,
                },
            },
        }
    }
}

/// Decides how to start intent recognition. `current` is the backend already
/// recorded, if any; `configured` the backend of the settings: `"none"`, the
/// intent classifier, `"EmbeddingClassifier"` (the model is chosen by the
/// language, with the English model as fallback), or else a model id.
pub fn init_plan(current: Option<&str>, configured: &str, lang: &str) -> (r: IntentInit)
    ensures
        current is Some ==> r == IntentInit::AlreadyInitialized,
        current is None ==> r.view_of() == init_plan_spec(configured@, lang@),
{
    if current.is_some() {
        return IntentInit::AlreadyInitialized;
    }
    if str_eq(configured, "none") {
        IntentInit::Disabled
    } else if str_eq(configured, "intent-classifier") || str_eq(configured, "IntentClassifier") {
        IntentInit::IntentClassifier
    } else if str_eq(configured, "EmbeddingClassifier") {
        let preferred = select_embedding_model_id(lang);
        let fallback = if !str_eq(preferred, FALLBACK_EMBEDDING_MODEL) {
            Some(owned(FALLBACK_EMBEDDING_MODEL))
        } else {
            None
        };
        proof {
            reveal_strlit("all-MiniLM-L6-v2");
        }
        IntentInit::Embedding { preferred: owned(preferred), fallback }
    } else {
        IntentInit::Embedding { preferred: owned(configured), fallback: None }
    }
}

/// The backend recorded once an embedding model was tried: the configured
/// one when a model loaded, else `"none"` so that only pattern and fuzzy
/// matching route commands.
pub fn backend_after_load(configured: &str, loaded: bool) -> (r: String)
    ensures
        loaded ==> r@ == configured@,
        !loaded ==> r@ == "none"@,
{
    if loaded {
        owned(configured)
    } else {
        owned("none")
    }
}

/// What retraining after a change of the commands does.
#[derive(Debug, Clone, Copy, PartialEq, Eq, Structural)]
pub enum IntentReinit {
    /// Retrain the intent classifier.
    RetrainClassifier,
    /// Recognition is off or not started: nothing to do.
    Skip,
    /// Rebuild the intent vectors of the embedding classifier.
    RebuildVectors,
}

/// Decides what retraining does for the recorded backend.
pub fn reinit_plan(backend: Option<&str>) -> (r: IntentReinit)
    ensures
        backend is None ==> r == IntentReinit::Skip,
        backend matches Some(b) ==> r == (if b@ == "intent-classifier"@ {
            IntentReinit::RetrainClassifier
        } else if b@ == "none"@ {
            IntentReinit::Skip
        } else {
            IntentReinit::RebuildVectors
        }),
{
    match backend {
        None => IntentReinit::Skip,
        Some(b) => {
            if str_eq(b, "intent-classifier") {
                IntentReinit::RetrainClassifier
            } else if str_eq(b, "none") {
                IntentReinit::Skip
            } else {
                IntentReinit::RebuildVectors
            }
        },
    }
}

/// Which classifier answers a text.
#[derive(Debug, Clone, Copy, PartialEq, Eq, Structural)]
pub enum ClassifierKind {
    /// Recognition is off or not started: no intent.
    NoIntent,
    IntentClassifier,
    Embedding,
}

/// Decides which classifier answers for the recorded backend.
pub fn classifier_kind(backend: Option<&str>) -> (r: ClassifierKind)
    ensures
        backend is None ==> r == ClassifierKind::NoIntent,
        backend matches Some(b) ==> r == (if b@ == "none"@ {
            ClassifierKind::NoIntent
        } else if b@ == "intent-classifier"@ {
            ClassifierKind::IntentClassifier
        } else {
            ClassifierKind::Embedding
        }),
{
    match backend {
        None => ClassifierKind::NoIntent,
        Some(b) => {
            if str_eq(b, "none") {
                ClassifierKind::NoIntent
            } else if str_eq(b, "intent-classifier") {
                ClassifierKind::IntentClassifier
            } else {
                ClassifierKind::Embedding
            }
        },
    }
}

/// Whether cached training data has to be rebuilt: when the cache or the
/// stored hash is missing, or the stored hash (trimmed) differs from the
/// hash of the current commands.
pub fn training_cache_stale(files_present: bool, stored_hash: &str, current_hash: &str) -> (r:
    bool)
    ensures
        r == (!files_present || trim(stored_hash@) != current_hash@),
{
    if !files_present {
        return true;
    }
    let t = trim_str(stored_hash);
    !str_eq(t.as_str(), current_hash)
}

/// Looks a recognised intent up among the commands: nothing while
/// recognition is off (`"none"` recorded), else the first command with that
/// id, with its pack's path.
pub fn get_command_by_intent<'a>(
    commands: &'a [JCommandsList],
    intent_id: &str,
    backend: Option<&str>,
) -> (r: Option<(&'a String, &'a JCommand)>)
    ensures
        (backend matches Some(b) && b@ == "none"@) ==> r is None,
        !(backend matches Some(b) && b@ == "none"@) ==> {
            &&& (r is None <==> !has_cmd_id(commands@, intent_id@))
            &&& (r matches Some((p, c)) ==> exists|i: int, j: int|
                first_with_id(commands@, intent_id@, i, j) && *p == commands@[i].path && *c
                    == commands@[i].commands@[j])
        },
{
    match backend {
        Some(b) => {
            if str_eq(b, "none") {
                return None;
            }
        },
        None => {},
    }
    get_command_by_id(commands, intent_id)
}

} // verus!
