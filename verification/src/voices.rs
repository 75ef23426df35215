//! Voice packs: which voice to use, which sounds answer a reaction (greeting
//! by time of day), the sounds of a preview, where a sound file is looked
//! for, and the random pick among sounds.
use vstd::prelude::*;
use chrono::Timelike;
use rand::seq::SliceRandom;
use crate::text::{concat2, copy_string, copy_strings, owned, str_eq, views};

verus! {

// ---------------------------------------------------------------------------
// Time of day
// ---------------------------------------------------------------------------

/// The part of the day, by local hour.
#[derive(Debug, Clone, Copy, PartialEq, Eq, Structural)]
pub enum TimeOfDay {
    /// 5:00 to 11:59.
    Morning,
    /// 12:00 to 16:59.
    Day,
    /// 17:00 to 21:59.
    Evening,
    /// 22:00 to 4:59.
    Night,
}

/// The part of the day an hour falls in.
pub open spec fn time_of_day_at(hour: u32) -> TimeOfDay {
    if 5 <= hour <= 11 {
        TimeOfDay::Morning
    } else if 12 <= hour <= 16 {
        TimeOfDay::Day
    } else if 17 <= hour <= 21 {
        TimeOfDay::Evening
    } else {
        TimeOfDay::Night
    }
}

/// Calls `chrono::Local::now()` and its `Timelike::hour`: the local hour,
/// which chrono documents as 0 to 23. It depends on the clock and the time
/// zone, so nothing more is stated.
#[verifier::external_body]
fn local_hour() -> (h: u32)
    ensures
        h < 24,
{
    chrono::Local::now().hour()
}

impl TimeOfDay {
    /// The part of the day of an hour.
    pub fn from_hour(hour: u32) -> (r: TimeOfDay)
        ensures
            r == time_of_day_at(hour),
    {
        if 5 <= hour && hour <= 11 {
            TimeOfDay::Morning
        } else if 12 <= hour && hour <= 16 {
            TimeOfDay::Day
        } else if 17 <= hour && hour <= 21 {
            TimeOfDay::Evening
        } else {
            TimeOfDay::Night
        }
    }

    /// The part of the day now, by the local clock.
    pub fn now() -> (r: TimeOfDay)
        ensures
            exists|h: u32| h < 24 && r == time_of_day_at(h),
    {
        let h = local_hour();
        TimeOfDay::from_hour(h)
    }
}

// ---------------------------------------------------------------------------
// Voice packs
// ---------------------------------------------------------------------------

/// What a voice says about itself.
#[derive(Debug)]
pub struct VoiceMeta {
    pub id: String,
    pub name: String,
    pub author: String,
    pub languages: Vec<String>,
}

/// The sound names of a voice for each reaction, in one language.
#[derive(Debug)]
pub struct VoiceReactions {
    /// App start-up, when no time-specific greeting is given.
    pub greet: Vec<String>,
    pub greet_morning: Vec<String>,
    pub greet_day: Vec<String>,
    pub greet_evening: Vec<String>,
    pub greet_night: Vec<String>,
    /// The wake word was heard.
    pub reply: Vec<String>,
    /// A command ran.
    pub ok: Vec<String>,
    /// No command was found.
    pub not_found: Vec<String>,
    pub thanks: Vec<String>,
    pub error: Vec<String>,
    /// Shutting down.
    pub goodbye: Vec<String>,
}

impl Default for VoiceReactions {
    fn default() -> (r: VoiceReactions)
        ensures
            r.greet@.len() == 0 && r.greet_morning@.len() == 0 && r.greet_day@.len() == 0
                && r.greet_evening@.len() == 0 && r.greet_night@.len() == 0 && r.reply@.len() == 0
                && r.ok@.len() == 0 && r.not_found@.len() == 0 && r.thanks@.len() == 0
                && r.error@.len() == 0 && r.goodbye@.len() == 0,
    {
        VoiceReactions {
            greet: Vec::new(),
            greet_morning: Vec::new(),
            greet_day: Vec::new(),
            greet_evening: Vec::new(),
            greet_night: Vec::new(),
            reply: Vec::new(),
            ok: Vec::new(),
            not_found: Vec::new(),
            thanks: Vec::new(),
            error: Vec::new(),
            goodbye: Vec::new(),
        }
    }
}

/// A voice pack: its folder, what it says about itself, and its reactions
/// by language code.
#[derive(Debug)]
pub struct VoiceConfig {
    pub path: String,
    pub voice: VoiceMeta,
    pub reactions: Vec<(String, VoiceReactions)>,
}

/// The occasions a voice answers.
#[derive(Debug, Clone, Copy, PartialEq, Eq, Structural)]
pub enum Reaction {
    /// App start-up.
    Greet,
    /// The wake word was heard.
    Reply,
    /// A command ran.
    Success,
    NotFound,
    Thanks,
    Error,
    Goodbye,
}

// ---------------------------------------------------------------------------
// Choosing the voice
// ---------------------------------------------------------------------------

/// Some voice has the id.
pub open spec fn has_voice(voices: Seq<VoiceConfig>, id: Seq<char>) -> bool {
    exists|k: int| 0 <= k < voices.len() && (#[trigger] voices[k]).voice.id@ == id
}

/// `k` is the first voice that lists the language.
pub open spec fn first_speaking(voices: Seq<VoiceConfig>, lang: Seq<char>, k: int) -> bool {
    &&& 0 <= k < voices.len()
    &&& views(voices[k].voice.languages@).contains(lang)
    &&& forall|j: int|
        0 <= j < k ==> !views((#[trigger] voices[j]).voice.languages@).contains(lang)
}

/// Some voice lists the language.
pub open spec fn some_speaking(voices: Seq<VoiceConfig>, lang: Seq<char>) -> bool {
    exists|k: int|
        0 <= k < voices.len() && views((#[trigger] voices[k]).voice.languages@).contains(lang)
}

fn speaks(v: &VoiceConfig, lang: &str) -> (r: bool)
    ensures
        r == views(v.voice.languages@).contains(lang@),
{
    let langs = &v.voice.languages;
    let mut k: usize = 0;
    while k < langs.len()
        invariant
            0 <= k <= langs@.len(),
            *langs == v.voice.languages,
            forall|j: int| 0 <= j < k ==> (#[trigger] langs@[j])@ != lang@,
        decreases langs@.len() - k,
    {
        if str_eq(langs[k].as_str(), lang) {
            assert(views(langs@)[k as int] == lang@);
            assert(views(langs@).contains(lang@));
            return true;
        }
        k = k + 1;
    }
    assert forall|j: int| 0 <= j < views(langs@).len() implies views(langs@)[j] != lang@ by {
        assert(views(langs@)[j] == langs@[j]@);
    }
    false
}

/// Looks a voice up by id: the first with that id.
pub fn get_voice<'a>(voices: &'a Vec<VoiceConfig>, voice_id: &str) -> (r: Option<&'a VoiceConfig>)
    ensures
        r is None <==> !has_voice(voices@, voice_id@),
        r matches Some(v) ==> exists|k: int|
            0 <= k < voices@.len() && *v == voices@[k] && v.voice.id@ == voice_id@ && forall|
                j: int,
            | 0 <= j < k ==> (#[trigger] voices@[j]).voice.id@ != voice_id@,
{
    let mut k: usize = 0;
    while k < voices.len()
        invariant
            0 <= k <= voices@.len(),
            forall|j: int| 0 <= j < k ==> (#[trigger] voices@[j]).voice.id@ != voice_id@,
        decreases voices@.len() - k,
    {
        if str_eq(voices[k].voice.id.as_str(), voice_id) {
            return Some(&voices[k]);
        }
        k = k + 1;
    }
    None
}

/// The voice to use: the configured one when it is set and present; else
/// the first voice that speaks the language; else the first voice. No
/// voice at all is an error.
pub open spec fn chosen_voice(voices: Seq<VoiceConfig>, default_voice: Seq<char>, lang: Seq<char>) -> Result<
    Seq<char>,
    Seq<char>,
> {
    if voices.len() == 0 {
        Err("No voices found"@)
    } else if default_voice.len() > 0 && has_voice(voices, default_voice) {
        Ok(default_voice)
    } else if some_speaking(voices, lang) {
        Ok(voices[choose|k: int| first_speaking(voices, lang, k)].voice.id@)
    } else {
        Ok(voices[0].voice.id@)
    }
}

/// Chooses the voice id at start-up (see `chosen_voice`).
pub fn select_voice(voices: &Vec<VoiceConfig>, default_voice: &str, language: &str) -> (r: Result<
    String,
    String,
>)
    ensures
        match (r, chosen_voice(voices@, default_voice@, language@)) {
            (Ok(a), Ok(b)) => a@ == b,
            (Err(a), Err(b)) => a@ == b,
            _ => false,
        },
{
    if voices.len() == 0 {
        return Err(owned("No voices found"));
    }
    if default_voice.unicode_len() > 0 {
        match get_voice(voices, default_voice) {
            Some(_) => {
                return Ok(owned(default_voice));
            },
            None => {},
        }
    }
    let mut k: usize = 0;
    while k < voices.len()
        invariant
            0 <= k <= voices@.len(),
            voices@.len() > 0,
            !(default_voice@.len() > 0 && has_voice(voices@, default_voice@)),
            forall|j: int| 0 <= j < k ==> !views((#[trigger] voices@[j]).voice.languages@).contains(
                language@,
            ),
        decreases voices@.len() - k,
    {
        if speaks(&voices[k], language) {
            proof {
                assert(first_speaking(voices@, language@, k as int));
                assert(some_speaking(voices@, language@));
                let c = choose|c: int| first_speaking(voices@, language@, c);
                if c < k {
                    assert(!views(voices@[c].voice.languages@).contains(language@));
                } else if c > k {
                    assert(!views(voices@[k as int].voice.languages@).contains(language@));
                }
            }
            return Ok(copy_string(&voices[k].voice.id));
        }
        k = k + 1;
    }
    Ok(copy_string(&voices[0].voice.id))
}

/// The voice chosen at start-up is always one of the voices.
pub proof fn law_chosen_voice_exists(voices: Seq<VoiceConfig>, default_voice: Seq<char>, lang: Seq<char>)
    ensures
        chosen_voice(voices, default_voice, lang) matches Ok(id) ==> has_voice(voices, id),
        chosen_voice(voices, default_voice, lang) is Err <==> voices.len() == 0,
{
    if voices.len() > 0 && !(default_voice.len() > 0 && has_voice(voices, default_voice)) {
        if some_speaking(voices, lang) {
            let w = choose|k: int|
                0 <= k < voices.len() && views((#[trigger] voices[k]).voice.languages@).contains(
                    lang,
                );
            let f = first_speaker(voices, lang, w);
            assert(first_speaking(voices, lang, f));
            let k = choose|k: int| first_speaking(voices, lang, k);
            assert(has_voice(voices, voices[k].voice.id@)) by {
                assert(0 <= k < voices.len());
            }
        } else {
            assert(has_voice(voices, voices[0].voice.id@)) by {
                assert(voices[0].voice.id@ == voices[0].voice.id@);
            }
        }
    }
}

/// The first voice, at or before `w`, that speaks the language.
proof fn first_speaker(voices: Seq<VoiceConfig>, lang: Seq<char>, w: int) -> (k: int)
    requires
        0 <= w < voices.len(),
        views(voices[w].voice.languages@).contains(lang),
    ensures
        first_speaking(voices, lang, k),
    decreases w,
{
    if exists|j: int| 0 <= j < w && views((#[trigger] voices[j]).voice.languages@).contains(lang) {
        let j = choose|j: int|
            0 <= j < w && views((#[trigger] voices[j]).voice.languages@).contains(lang);
        first_speaker(voices, lang, j)
    } else {
        w
    }
}

// ---------------------------------------------------------------------------
// Reactions
// ---------------------------------------------------------------------------

/// The reactions of the voice for the language: the first entry with that
/// language code.
pub open spec fn reactions_in(voice: VoiceConfig, lang: Seq<char>, k: int) -> bool {
    &&& 0 <= k < voice.reactions@.len()
    &&& voice.reactions@[k].0@ == lang
    &&& forall|j: int| 0 <= j < k ==> (#[trigger] voice.reactions@[j]).0@ != lang
}

/// Looks up the voice's reactions for the language.
pub fn reactions_for<'a>(voice: &'a VoiceConfig, lang: &str) -> (r: Option<&'a VoiceReactions>)
    ensures
        r is None <==> forall|k: int|
            0 <= k < voice.reactions@.len() ==> (#[trigger] voice.reactions@[k]).0@ != lang@,
        r matches Some(x) ==> exists|k: int|
            reactions_in(*voice, lang@, k) && *x == voice.reactions@[k].1,
{
    let mut k: usize = 0;
    while k < voice.reactions.len()
        invariant
            0 <= k <= voice.reactions@.len(),
            forall|j: int| 0 <= j < k ==> (#[trigger] voice.reactions@[j]).0@ != lang@,
        decreases voice.reactions@.len() - k,
    {
        if str_eq(voice.reactions[k].0.as_str(), lang) {
            assert(reactions_in(*voice, lang@, k as int));
            return Some(&voice.reactions[k].1);
        }
        k = k + 1;
    }
    None
}

/// The sounds that answer a reaction. A greeting takes the list of the part
/// of the day, or the plain greeting list when that one is empty.
pub open spec fn reaction_list(r: VoiceReactions, reaction: Reaction, tod: TimeOfDay) -> Seq<String> {
    match reaction {
        Reaction::Greet => {
            let specific = match tod {
                TimeOfDay::Morning => r.greet_morning@,
                TimeOfDay::Day => r.greet_day@,
                TimeOfDay::Evening => r.greet_evening@,
                TimeOfDay::Night => r.greet_night@,
            };
            if specific.len() == 0 {
                r.greet@
            } else {
                specific
            }
        },
        Reaction::Reply => r.reply@,
        Reaction::Success => r.ok@,
        Reaction::NotFound => r.not_found@,
        Reaction::Thanks => r.thanks@,
        Reaction::Error => r.error@,
        Reaction::Goodbye => r.goodbye@,
    }
}

/// The sound list that answers a reaction at the given part of the day.
pub fn reaction_sounds<'a>(r: &'a VoiceReactions, reaction: Reaction, tod: TimeOfDay) -> (s: &'a Vec<
    String,
>)
    ensures
        s@ == reaction_list(*r, reaction, tod),
{
    match reaction {
        Reaction::Greet => {
            let specific = match tod {
                TimeOfDay::Morning => &r.greet_morning,
                TimeOfDay::Day => &r.greet_day,
                TimeOfDay::Evening => &r.greet_evening,
                TimeOfDay::Night => &r.greet_night,
            };
            if specific.len() == 0 {
                &r.greet
            } else {
                specific
            }
        },
        Reaction::Reply => &r.reply,
        Reaction::Success => &r.ok,
        Reaction::NotFound => &r.not_found,
        Reaction::Thanks => &r.thanks,
        Reaction::Error => &r.error,
        Reaction::Goodbye => &r.goodbye,
    }
}

/// The sounds a reaction plays with the current voice: none without a voice
/// or without reactions for the language.
pub fn sounds_for<'a>(
    voice: Option<&'a VoiceConfig>,
    lang: &str,
    reaction: Reaction,
    tod: TimeOfDay,
) -> (r: Option<&'a Vec<String>>)
    ensures
        voice is None ==> r is None,
        voice matches Some(v) ==> (r is None <==> forall|k: int|
            0 <= k < v.reactions@.len() ==> (#[trigger] v.reactions@[k]).0@ != lang@),
        voice matches Some(v) ==> (r matches Some(s) ==> exists|k: int|
            reactions_in(*v, lang@, k) && s@ == reaction_list(v.reactions@[k].1, reaction, tod)),
{
    match voice {
        None => None,
        Some(v) => match reactions_for(v, lang) {
            None => None,
            Some(rs) => Some(reaction_sounds(rs, reaction, tod)),
        },
    }
}

fn append_all(out: &mut Vec<String>, v: &Vec<String>)
    ensures
        final(out)@.len() == old(out)@.len() + v@.len(),
        views(final(out)@) == views(old(out)@) + views(v@),
{
    let ghost start = views(out@);
    let mut k: usize = 0;
    while k < v.len()
        invariant
            0 <= k <= v@.len(),
            out@.len() == old(out)@.len() + k,
            start == views(old(out)@),
            views(out@) == start + views(v@).take(k as int),
        decreases v@.len() - k,
    {
        let ghost before = out@;
        out.push(copy_string(&v[k]));
        proof {
            assert(views(out@) =~= views(before).push(v@[k as int]@));
            assert(views(v@).take(k + 1) =~= views(v@).take(k as int).push(v@[k as int]@));
        }
        k = k + 1;
    }
    assert(views(v@).take(v@.len() as int) =~= views(v@));
}

/// The sounds a preview picks from: the reply, ok and greeting sounds, in
/// that order.
pub fn preview_sounds(r: &VoiceReactions) -> (s: Vec<String>)
    ensures
        views(s@) == views(r.reply@) + views(r.ok@) + views(r.greet@),
{
    let mut out: Vec<String> = Vec::new();
    append_all(&mut out, &r.reply);
    append_all(&mut out, &r.ok);
    append_all(&mut out, &r.greet);
    assert(views(Seq::<String>::empty()) =~= Seq::<Seq<char>>::empty());
    out
}

// ---------------------------------------------------------------------------
// Sound files
// ---------------------------------------------------------------------------

/// A place a sound file may be: in the voice's language folder or in the
/// voice folder itself, and the file name.
#[derive(Debug, PartialEq)]
pub struct SoundCandidate {
    pub in_language_folder: bool,
    pub file_name: String,
}

/// The file names tried for a sound, in order: each extension in the
/// language folder, then each in the voice folder.
pub open spec fn sound_candidates(name: Seq<char>) -> Seq<(bool, Seq<char>)> {
    seq![
        (true, name + ".mp3"@),
        (true, name + ".wav"@),
        (true, name + ".ogg"@),
        (false, name + ".mp3"@),
        (false, name + ".wav"@),
        (false, name + ".ogg"@),
    ]
}

/// Where a sound file is looked for, in order (`mp3`, `wav`, `ogg`; the
/// language folder first). The first that exists is played.
pub fn sound_file_candidates(sound_name: &str) -> (r: Vec<SoundCandidate>)
    ensures
        r@.map_values(|c: SoundCandidate| (c.in_language_folder, c.file_name@)) == sound_candidates(
            sound_name@,
        ),
{
    let mut out: Vec<SoundCandidate> = Vec::new();
    out.push(SoundCandidate { in_language_folder: true, file_name: concat2(sound_name, ".mp3") });
    out.push(SoundCandidate { in_language_folder: true, file_name: concat2(sound_name, ".wav") });
    out.push(SoundCandidate { in_language_folder: true, file_name: concat2(sound_name, ".ogg") });
    out.push(SoundCandidate { in_language_folder: false, file_name: concat2(sound_name, ".mp3") });
    out.push(SoundCandidate { in_language_folder: false, file_name: concat2(sound_name, ".wav") });
    out.push(SoundCandidate { in_language_folder: false, file_name: concat2(sound_name, ".ogg") });
    assert(out@.map_values(|c: SoundCandidate| (c.in_language_folder, c.file_name@)) =~= sound_candidates(
        sound_name@,
    ));
    out
}

/// Calls `rand::seq::SliceRandom::choose` with the thread's generator: one
/// of the items, at random. The pick depends on chance, so only that it is
/// one of the items is stated.
#[verifier::external_body]
fn choose_random<'a>(items: &'a Vec<String>) -> (r: &'a String)
    requires
        items@.len() > 0,
    ensures
        items@.contains(*r),
{
    items.choose(&mut rand::thread_rng()).unwrap()
}

/// Picks a sound at random; none from an empty list.
pub fn pick_sound<'a>(sounds: &'a Vec<String>) -> (r: Option<&'a String>)
    ensures
        r is None <==> sounds@.len() == 0,
        r matches Some(s) ==> exists|k: int| 0 <= k < sounds@.len() && *s == sounds@[k],
{
    if sounds.len() == 0 {
        None
    } else {
        let s = choose_random(sounds);
        Some(s)
    }
}


/// When the configured voice is not there (unset, or no voice has that id)
/// and some voice lists the language, the voice chosen lists the language
/// and is the first voice that does.
pub proof fn law_absent_voice_falls_back_to_language(
    voices: Seq<VoiceConfig>,
    default_voice: Seq<char>,
    lang: Seq<char>,
    w: int,
)
    requires
        !(default_voice.len() > 0 && has_voice(voices, default_voice)),
        0 <= w < voices.len(),
        views(voices[w].voice.languages@).contains(lang),
    ensures
        exists|k: int|
            0 <= k < voices.len() && chosen_voice(voices, default_voice, lang) == Ok::<
                Seq<char>,
                Seq<char>,
            >((#[trigger] voices[k]).voice.id@) && views(voices[k].voice.languages@).contains(lang)
                && forall|j: int|
                0 <= j < k ==> !views((#[trigger] voices[j]).voice.languages@).contains(lang),
{
    assert(some_speaking(voices, lang));
    let f = first_speaker(voices, lang, w);
    assert(first_speaking(voices, lang, f));
    let k = choose|k: int| first_speaking(voices, lang, k);
    assert(first_speaking(voices, lang, k));
}

} // verus!
