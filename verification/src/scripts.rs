//! Scripts: named sequences of steps (command references, delays, shell
//! commands, Spotify controls) run one after another or all at once.
use vstd::prelude::*;
use crate::commands::{JCommand, JCommandsList, LangLists};
use crate::text::{concat2, copy_string, copy_strings, owned, str_eq, views};

verus! {

/// One step of a script.
#[derive(Debug, Clone, PartialEq)]
pub struct ScriptStep {
    /// "command_ref" | "delay" | "custom" | "spotify".
    pub step_type: String,
    pub label: String,
    pub pack: String,
    pub command_id: String,
    pub delay_ms: u64,
    pub cli_cmd: String,
    pub cli_args: Vec<String>,
    pub spotify_action: String,
    pub spotify_track_id: String,
}

/// A script with its voice triggers.
#[derive(Debug, Clone, PartialEq)]
pub struct Script {
    pub id: String,
    pub name: String,
    pub description: String,
    /// "sequential" | "parallel".
    pub mode: String,
    pub steps: Vec<ScriptStep>,
    pub phrases_ru: Vec<String>,
    pub phrases_en: Vec<String>,
    pub patterns: Vec<String>,
    pub sounds_ru: Vec<String>,
    pub response_sound: String,
}

/// The phrases of a script for a language: the list of that language when it
/// is "ru" or "en" and not empty, else the Russian list.
pub open spec fn script_phrases(s: Script, lang: Seq<char>) -> Seq<String> {
    let specific = if lang == "ru"@ {
        s.phrases_ru@
    } else if lang == "en"@ {
        s.phrases_en@
    } else {
        Seq::empty()
    };
    if specific.len() == 0 {
        s.phrases_ru@
    } else {
        specific
    }
}

impl Script {
    /// Combined phrase list for the given language (falls back to Russian).
    pub fn get_phrases(&self, lang: &str) -> (r: Vec<String>)
        ensures
            r@ == script_phrases(*self, lang@),
    {
        let specific = if str_eq(lang, "ru") {
            copy_strings(&self.phrases_ru)
        } else if str_eq(lang, "en") {
            copy_strings(&self.phrases_en)
        } else {
            Vec::new()
        };
        if specific.len() == 0 {
            copy_strings(&self.phrases_ru)
        } else {
            specific
        }
    }

    /// The response sounds: the Russian list, or the three default
    /// confirmations when it is empty.
    pub fn get_sounds(&self, _lang: &str) -> (r: Vec<String>)
        ensures
            self.sounds_ru@.len() > 0 ==> r@ == self.sounds_ru@,
            self.sounds_ru@.len() == 0 ==> views(r@) == seq!["ok1"@, "ok2"@, "ok3"@],
    {
        if self.sounds_ru.len() == 0 {
            let r = vec![owned("ok1"), owned("ok2"), owned("ok3")];
            assert(views(r@) =~= seq!["ok1"@, "ok2"@, "ok3"@]);
            r
        } else {
            copy_strings(&self.sounds_ru)
        }
    }

    /// Count of voice triggers across all languages.
    pub fn trigger_count(&self) -> (r: usize)
        requires
            self.phrases_ru@.len() + self.phrases_en@.len() + self.patterns@.len() <= usize::MAX,
        ensures
            r == self.phrases_ru@.len() + self.phrases_en@.len() + self.patterns@.len(),
    {
        self.phrases_ru.len() + self.phrases_en.len() + self.patterns.len()
    }
}

// ---------------------------------------------------------------------------
// Running a script
// ---------------------------------------------------------------------------

/// How a script's steps are run.
#[derive(Debug, Clone, Copy, PartialEq, Eq, Structural)]
pub enum RunMode {
    /// One after another, stopping at the first failure.
    Sequential,
    /// All at once in the background; the run reports success at once.
    Parallel,
}

/// The mode a script runs in: "parallel", or sequential for anything else.
pub fn execute_script(script: &Script) -> (r: RunMode)
    ensures
        r == (if script.mode@ == "parallel"@ {
            RunMode::Parallel
        } else {
            RunMode::Sequential
        }),
{
    if str_eq(script.mode.as_str(), "parallel") {
        RunMode::Parallel
    } else {
        RunMode::Sequential
    }
}

/// Where a sequential run stands: the index of the step to run next, or the
/// run's result.
#[derive(Debug, PartialEq)]
pub enum RunState {
    Next(usize),
    Finished(Result<(), String>),
}

/// The state before the first step.
pub fn run_sequential(steps: &[ScriptStep]) -> (r: RunState)
    ensures
        steps@.len() == 0 ==> r == RunState::Finished(Ok(())),
        steps@.len() > 0 ==> r == RunState::Next(0),
{
    if steps.len() == 0 {
        RunState::Finished(Ok(()))
    } else {
        RunState::Next(0)
    }
}

/// The state after step `index` finished with `outcome`: a failure ends the
/// run with that error; a success moves to the next step, or ends the run
/// successfully after the last one.
pub fn after_step(steps: &[ScriptStep], index: usize, outcome: Result<(), String>) -> (r: RunState)
    requires
        index < steps@.len(),
    ensures
        outcome is Err ==> r == RunState::Finished(outcome),
        outcome is Ok && index + 1 < steps@.len() ==> r == RunState::Next((index + 1) as usize),
        outcome is Ok && index + 1 == steps@.len() ==> r == RunState::Finished(Ok(())),
{
    match outcome {
        Err(e) => RunState::Finished(Err(e)),
        Ok(()) => if index < steps.len() - 1 {
            RunState::Next(index + 1)
        } else {
            RunState::Finished(Ok(()))
        },
    }
}

/// What one step amounts to.
#[derive(Debug, PartialEq)]
pub enum StepAction {
    /// Run the command `command_id` of the pack named `pack`.
    CommandRef { pack: String, command_id: String },
    /// Wait this many milliseconds.
    Delay { ms: u64 },
    /// Run a shell command.
    Custom { cmd: String, args: Vec<String> },
    /// Run a PowerShell command that controls Spotify.
    Spotify { ps_cmd: String },
    /// The step cannot run.
    Fail(String),
}

/// The PowerShell command of a Spotify step, or the error.
pub open spec fn spotify_command(action: Seq<char>, track: Seq<char>) -> Result<Seq<char>, Seq<char>> {
    if action == "play_track"@ {
        if track.len() == 0 {
            Err("Spotify step: track ID is empty"@)
        } else {
            Ok("Start-Process 'spotify:track:"@ + track + "'"@)
        }
    } else if action == "pause"@ {
        Ok("(New-Object -ComObject WScript.Shell).SendKeys([char]179)"@)
    } else if action == "next"@ {
        Ok("(New-Object -ComObject WScript.Shell).SendKeys([char]176)"@)
    } else {
        Err("Unknown spotify action: '"@ + action + "'"@)
    }
}

/// The kind of a step type.
pub open spec fn step_kind(t: Seq<char>) -> int {
    if t == "command_ref"@ {
        0
    } else if t == "delay"@ {
        1
    } else if t == "custom"@ {
        2
    } else if t == "spotify"@ {
        3
    } else {
        4
    }
}

/// Decides what a step amounts to, by its type.
pub fn exec_step(step: &ScriptStep) -> (r: StepAction)
    ensures
        step_kind(step.step_type@) == 0 ==> (r matches StepAction::CommandRef { pack, command_id }
            && pack@ == step.pack@ && command_id@ == step.command_id@),
        step_kind(step.step_type@) == 1 ==> r == (StepAction::Delay { ms: step.delay_ms }),
        step_kind(step.step_type@) == 2 && step.cli_cmd@.len() == 0 ==> (r matches StepAction::Fail(
            e,
        ) && e@ == "Custom script step has no command"@),
        step_kind(step.step_type@) == 2 && step.cli_cmd@.len() > 0 ==> (r matches StepAction::Custom {
            cmd,
            args,
        } && cmd@ == step.cli_cmd@ && args@ == step.cli_args@),
        step_kind(step.step_type@) == 3 ==> (match spotify_command(
            step.spotify_action@,
            step.spotify_track_id@,
        ) {
            Ok(c) => (r matches StepAction::Spotify { ps_cmd } && ps_cmd@ == c),
            Err(m) => (r matches StepAction::Fail(e) && e@ == m),
        }),
        step_kind(step.step_type@) == 4 ==> (r matches StepAction::Fail(e) && e@
            == "Unknown script step type: '"@ + step.step_type@ + "'"@),
{
    let t = step.step_type.as_str();
    if str_eq(t, "command_ref") {
        StepAction::CommandRef {
            pack: copy_string(&step.pack),
            command_id: copy_string(&step.command_id),
        }
    } else if str_eq(t, "delay") {
        StepAction::Delay { ms: step.delay_ms }
    } else if str_eq(t, "custom") {
        if step.cli_cmd.as_str().is_empty() {
            StepAction::Fail(owned("Custom script step has no command"))
        } else {
            StepAction::Custom { cmd: copy_string(&step.cli_cmd), args: copy_strings(&step.cli_args) }
        }
    } else if str_eq(t, "spotify") {
        match spotify_ps_command(step.spotify_action.as_str(), step.spotify_track_id.as_str()) {
            Ok(c) => StepAction::Spotify { ps_cmd: c },
            Err(m) => StepAction::Fail(m),
        }
    } else {
        let mut m = owned("Unknown script step type: '");
        m.append(t);
        m.append("'");
        StepAction::Fail(m)
    }
}

/// The PowerShell command of a Spotify step, or the error.
pub fn spotify_ps_command(action: &str, track: &str) -> (r: Result<String, String>)
    ensures
        match spotify_command(action@, track@) {
            Ok(c) => (r matches Ok(s) && s@ == c),
            Err(m) => (r matches Err(s) && s@ == m),
        },
{
    if str_eq(action, "play_track") {
        if track.is_empty() {
            Err(owned("Spotify step: track ID is empty"))
        } else {
            let mut c = owned("Start-Process 'spotify:track:");
            c.append(track);
            c.append("'");
            Ok(c)
        }
    } else if str_eq(action, "pause") {
        Ok(owned("(New-Object -ComObject WScript.Shell).SendKeys([char]179)"))
    } else if str_eq(action, "next") {
        Ok(owned("(New-Object -ComObject WScript.Shell).SendKeys([char]176)"))
    } else {
        let mut m = owned("Unknown spotify action: '");
        m.append(action);
        m.append("'");
        Err(m)
    }
}

/// The message of a failed custom step.
pub fn custom_step_failed(e: &str) -> (r: String)
    ensures
        r@ == "Script custom step failed: "@ + e@,
{
    concat2("Script custom step failed: ", e)
}

/// The message of a failed Spotify step.
pub fn spotify_step_failed(e: &str) -> (r: String)
    ensures
        r@ == "Spotify step failed: "@ + e@,
{
    concat2("Spotify step failed: ", e)
}

/// Command `j` of pack `i` is in a pack of the step's name and has its id.
pub open spec fn ref_hit(
    commands: Seq<JCommandsList>,
    names: Seq<String>,
    pack: Seq<char>,
    id: Seq<char>,
    i: int,
    j: int,
) -> bool {
    0 <= i < commands.len() && 0 <= j < commands[i].commands@.len() && names[i]@ == pack
        && commands[i].commands@[j].id@ == id
}

/// The command a command-reference step names: in the first pack whose
/// folder name (`names[i]` for pack `i`) is `pack`, the first command with
/// the id. Packs of that name without the command are passed over.
pub fn exec_command_ref<'a>(
    commands: &'a [JCommandsList],
    names: &[String],
    pack: &str,
    command_id: &str,
) -> (r: Result<(&'a String, &'a JCommand), String>)
    requires
        names@.len() == commands@.len(),
    ensures
        r matches Ok((p, c)) ==> exists|i: int, j: int|
            ref_hit(commands@, names@, pack@, command_id@, i, j) && *p == commands@[i].path && *c
                == commands@[i].commands@[j] && forall|i2: int, j2: int|
                (i2 < i || (i2 == i && j2 < j)) ==> !#[trigger] ref_hit(
                    commands@,
                    names@,
                    pack@,
                    command_id@,
                    i2,
                    j2,
                ),
        r is Err <==> !exists|i: int, j: int|
            0 <= i < commands@.len() && 0 <= j < commands@[i].commands@.len() && names@[i]@ == pack@
                && (#[trigger] commands@[i].commands@[j]).id@ == command_id@,
        r matches Err(m) ==> m@ == "Script command ref '"@ + pack@ + "/"@ + command_id@
            + "' not found"@,
{
    let n = commands.len();
    let mut i: usize = 0;
    while i < n
        invariant
            n == commands@.len(),
            names@.len() == n,
            0 <= i <= n,
            forall|i2: int, j2: int|
                0 <= i2 < i && 0 <= j2 < commands@[i2].commands@.len() && names@[i2]@ == pack@
                    ==> (#[trigger] commands@[i2].commands@[j2]).id@ != command_id@,
        decreases n - i,
    {
        if str_eq(names[i].as_str(), pack) {
            let list = &commands[i];
            let m = list.commands.len();
            let mut j: usize = 0;
            while j < m
                invariant
                    n == commands@.len(),
                    0 <= i < n,
                    *list == commands@[i as int],
                    names@[i as int]@ == pack@,
                    m == list.commands@.len(),
                    0 <= j <= m,
                    forall|j2: int| 0 <= j2 < j ==> (#[trigger] list.commands@[j2]).id@ != command_id@,
                    forall|i2: int, j2: int|
                        0 <= i2 < i && 0 <= j2 < commands@[i2].commands@.len() && names@[i2]@ == pack@
                            ==> (#[trigger] commands@[i2].commands@[j2]).id@ != command_id@,
                decreases m - j,
            {
                if str_eq(list.commands[j].id.as_str(), command_id) {
                    proof {
                        assert forall|i2: int, j2: int|
                            (i2 < i || (i2 == i && j2 < j)) implies !#[trigger] ref_hit(
                            commands@,
                            names@,
                            pack@,
                            command_id@,
                            i2,
                            j2,
                        ) by {
                            if i2 < i && ref_hit(commands@, names@, pack@, command_id@, i2, j2) {
                                assert(commands@[i2].commands@[j2].id@ != command_id@);
                            }
                            if i2 == i && 0 <= j2 {
                                assert(list.commands@[j2].id@ != command_id@);
                            }
                        }
                        assert(ref_hit(commands@, names@, pack@, command_id@, i as int, j as int));
                    }
                    return Ok((&list.path, &list.commands[j]));
                }
                j = j + 1;
            }
        }
        i = i + 1;
    }
    let mut msg = owned("Script command ref '");
    msg.append(pack);
    msg.append("/");
    msg.append(command_id);
    msg.append("' not found");
    Err(msg)
}

// ---------------------------------------------------------------------------
// Scripts as virtual commands
// ---------------------------------------------------------------------------

/// The virtual commands of scripts: one pack per script that has phrases,
/// with a `script_ref` command carrying the script's id, phrases and sounds.
pub fn as_virtual_commands(scripts: &[Script], scripts_dir: &str) -> (r: Vec<JCommandsList>)
    ensures
        r@.len() == with_phrases(scripts@).len(),
        forall|k: int|
            0 <= k < r@.len() ==> {
                let s = with_phrases(scripts@)[k];
                &&& (#[trigger] r@[k]).path@ == scripts_dir@
                &&& r@[k].commands@.len() == 1
                &&& r@[k].commands@[0].id@ == s.id@
                &&& r@[k].commands@[0].cmd_type@ == "script_ref"@
                &&& r@[k].commands@[0].phrases@.map_values(|e: (String, Vec<String>)| (e.0@, e.1@))
                    == virtual_phrases(s)
                &&& r@[k].commands@[0].sounds@.map_values(|e: (String, Vec<String>)| (e.0@, e.1@))
                    == virtual_sounds(s)
                &&& r@[k].commands@[0]@.keyed_once()
            },
{
    let mut out: Vec<JCommandsList> = Vec::new();
    let mut i: usize = 0;
    while i < scripts.len()
        invariant
            0 <= i <= scripts@.len(),
            out@.len() == with_phrases(scripts@.subrange(0, i as int)).len(),
            forall|k: int|
                0 <= k < out@.len() ==> {
                    let s = with_phrases(scripts@.subrange(0, i as int))[k];
                    &&& (#[trigger] out@[k]).path@ == scripts_dir@
                    &&& out@[k].commands@.len() == 1
                    &&& out@[k].commands@[0].id@ == s.id@
                    &&& out@[k].commands@[0].cmd_type@ == "script_ref"@
                    &&& out@[k].commands@[0].phrases@.map_values(
                        |e: (String, Vec<String>)| (e.0@, e.1@),
                    ) == virtual_phrases(s)
                    &&& out@[k].commands@[0].sounds@.map_values(
                        |e: (String, Vec<String>)| (e.0@, e.1@),
                    ) == virtual_sounds(s)
                    &&& out@[k].commands@[0]@.keyed_once()
                },
        decreases scripts@.len() - i,
    {
        let s = &scripts[i];
        let ghost prev = scripts@.subrange(0, i as int);
        let ghost next = scripts@.subrange(0, i + 1);
        proof {
            assert(next.drop_last() =~= prev);
            assert(next.last() == scripts@[i as int]);
        }
        if s.phrases_ru.len() > 0 || s.phrases_en.len() > 0 {
            let phrases = virtual_phrase_lists(s);
            let sounds = virtual_sound_lists(s);
            let cmd = JCommand::new_script_ref(copy_string(&s.id), phrases, sounds);
            let pack = JCommandsList { path: owned(scripts_dir), commands: vec![cmd] };
            let ghost prev_out = out@;
            out.push(pack);
            proof {
                assert(with_phrases(next) == with_phrases(prev).push(*s));
                assert forall|k: int| 0 <= k < out@.len() implies {
                    let t = with_phrases(next)[k];
                    &&& (#[trigger] out@[k]).path@ == scripts_dir@
                    &&& out@[k].commands@.len() == 1
                    &&& out@[k].commands@[0].id@ == t.id@
                    &&& out@[k].commands@[0].cmd_type@ == "script_ref"@
                    &&& out@[k].commands@[0].phrases@.map_values(
                        |e: (String, Vec<String>)| (e.0@, e.1@),
                    ) == virtual_phrases(t)
                    &&& out@[k].commands@[0].sounds@.map_values(
                        |e: (String, Vec<String>)| (e.0@, e.1@),
                    ) == virtual_sounds(t)
                    &&& out@[k].commands@[0]@.keyed_once()
                } by {
                    if k < prev_out.len() {
                        assert(out@[k] == prev_out[k]);
                        assert(with_phrases(next)[k] == with_phrases(prev)[k]);
                    }
                }
            }
        } else {
            proof {
                assert(with_phrases(next) == with_phrases(prev));
            }
        }
        i = i + 1;
    }
    assert(scripts@.subrange(0, scripts@.len() as int) =~= scripts@);
    out
}

/// The script has phrases in some language.
pub open spec fn has_phrases(s: Script) -> bool {
    s.phrases_ru@.len() > 0 || s.phrases_en@.len() > 0
}

/// The scripts that have phrases, in order.
pub open spec fn with_phrases(s: Seq<Script>) -> Seq<Script>
    decreases s.len(),
{
    if s.len() == 0 {
        s
    } else {
        let r = with_phrases(s.drop_last());
        if has_phrases(s.last()) {
            r.push(s.last())
        } else {
            r
        }
    }
}

/// The phrase lists of a script's virtual command: Russian, then English,
/// each only when not empty.
pub open spec fn virtual_phrases(s: Script) -> Seq<(Seq<char>, Seq<String>)> {
    (if s.phrases_ru@.len() > 0 {
        seq![("ru"@, s.phrases_ru@)]
    } else {
        Seq::empty()
    }) + (if s.phrases_en@.len() > 0 {
        seq![("en"@, s.phrases_en@)]
    } else {
        Seq::empty()
    })
}

/// The sound lists of a script's virtual command: Russian when not empty.
pub open spec fn virtual_sounds(s: Script) -> Seq<(Seq<char>, Seq<String>)> {
    if s.sounds_ru@.len() > 0 {
        seq![("ru"@, s.sounds_ru@)]
    } else {
        Seq::empty()
    }
}

fn virtual_phrase_lists(s: &Script) -> (r: LangLists)
    ensures
        r@.map_values(|e: (String, Vec<String>)| (e.0@, e.1@)) == virtual_phrases(*s),
        crate::commands::keys_once(crate::commands::lang_view(r@)),
{
    proof {
        reveal_strlit("ru");
        reveal_strlit("en");
        assert("ru"@[0] != "en"@[0]);
    }
    let mut r: LangLists = Vec::new();
    if s.phrases_ru.len() > 0 {
        r.push((owned("ru"), copy_strings(&s.phrases_ru)));
    }
    if s.phrases_en.len() > 0 {
        r.push((owned("en"), copy_strings(&s.phrases_en)));
    }
    assert(r@.map_values(|e: (String, Vec<String>)| (e.0@, e.1@)) =~= virtual_phrases(*s));
    r
}

fn virtual_sound_lists(s: &Script) -> (r: LangLists)
    ensures
        r@.map_values(|e: (String, Vec<String>)| (e.0@, e.1@)) == virtual_sounds(*s),
        crate::commands::keys_once(crate::commands::lang_view(r@)),
{
    let mut r: LangLists = Vec::new();
    if s.sounds_ru.len() > 0 {
        r.push((owned("ru"), copy_strings(&s.sounds_ru)));
    }
    assert(r@.map_values(|e: (String, Vec<String>)| (e.0@, e.1@)) =~= virtual_sounds(*s));
    r
}


/// The Windows virtual-key code of the media Play/Pause key.
pub const PLAY_PAUSE_KEY: u32 = 179;

/// The Windows virtual-key code of the media Next Track key.
pub const NEXT_TRACK_KEY: u32 = 176;

/// The PowerShell command that presses the media key with the code.
pub open spec fn media_key_press(code: nat) -> Seq<char> {
    "(New-Object -ComObject WScript.Shell).SendKeys([char]"@ + crate::text::decimal(code) + ")"@
}

/// A Spotify `pause` step presses the Play/Pause media key and a `next`
/// step the Next Track key, whatever track the step names; so the two
/// actions never do the same.
pub proof fn law_spotify_media_keys(track1: Seq<char>, track2: Seq<char>)
    ensures
        spotify_command("pause"@, track1) == Ok::<Seq<char>, Seq<char>>(
            media_key_press(PLAY_PAUSE_KEY as nat),
        ),
        spotify_command("next"@, track2) == Ok::<Seq<char>, Seq<char>>(
            media_key_press(NEXT_TRACK_KEY as nat),
        ),
        spotify_command("pause"@, track1) != spotify_command("next"@, track2),
{
    reveal_strlit("pause");
    reveal_strlit("next");
    reveal_strlit("play_track");
    reveal_strlit("(New-Object -ComObject WScript.Shell).SendKeys([char]179)");
    reveal_strlit("(New-Object -ComObject WScript.Shell).SendKeys([char]176)");
    reveal_strlit("(New-Object -ComObject WScript.Shell).SendKeys([char]");
    reveal_strlit(")");
    assert("pause"@[1] != "play_track"@[1] && "next"@[0] != "play_track"@[0] && "next"@[0]
        != "pause"@[0]);
    assert("pause"@ != "play_track"@ && "next"@ != "play_track"@ && "next"@ != "pause"@);
    let d179 = crate::text::decimal(179);
    let d176 = crate::text::decimal(176);
    assert(crate::text::decimal(1) == seq!['1']);
    assert(crate::text::decimal(17) == seq!['1', '7']);
    assert(d179 == seq!['1', '7', '9']);
    assert(d176 == seq!['1', '7', '6']);
    assert(media_key_press(179) =~= "(New-Object -ComObject WScript.Shell).SendKeys([char]179)"@);
    assert(media_key_press(176) =~= "(New-Object -ComObject WScript.Shell).SendKeys([char]176)"@);
    let p = "(New-Object -ComObject WScript.Shell).SendKeys([char]179)"@;
    let n = "(New-Object -ComObject WScript.Shell).SendKeys([char]176)"@;
    assert(p[55] != n[55]);
}

} // verus!
