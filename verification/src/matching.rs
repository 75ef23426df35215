//! Matching a spoken phrase against commands and scripts: phrase
//! normalisation, the regular-expression pass (which takes priority), and the
//! exact-phrase pass of scripts. Fuzzy similarity scoring is done by the
//! caller.
use vstd::prelude::*;
use crate::commands::{cmd_at, before, JCommand, JCommandsList};
use crate::scripts::{script_phrases, Script};
use crate::text::{lowercase, str_eq, to_lower, trim, trim_str};

verus! {

#[verifier::external_type_specification]
#[verifier::external_body]
pub struct ExRegex(regex::Regex);

/// `regex::Regex::new` accepts the pattern.
pub uninterp spec fn regex_valid(pattern: Seq<char>) -> bool;

/// `regex::Regex::is_match` of the pattern's regex on the text.
pub uninterp spec fn regex_match(pattern: Seq<char>, text: Seq<char>) -> bool;

/// A compiled regular expression together with the pattern it came from.
pub struct CompiledPattern {
    source: String,
    re: regex::Regex,
}

impl CompiledPattern {
    /// The pattern the regex was compiled from.
    pub closed spec fn source(&self) -> Seq<char> {
        self.source@
    }
}

/// Calls `regex::Regex::new`. The result is `Some` exactly when the pattern
/// is accepted (named `regex_valid`), and then remembers the pattern.
#[verifier::external_body]
pub(crate) fn compile_pattern(pattern: &str) -> (r: Option<CompiledPattern>)
    ensures
        r is Some == regex_valid(pattern@),
        r matches Some(c) ==> c.source() == pattern@,
{
    match regex::Regex::new(pattern) {
        Ok(re) => Some(CompiledPattern { source: pattern.to_string(), re }),
        Err(_) => None,
    }
}

/// Calls `regex::Regex::is_match`. The answer is named: `regex_match` of the
/// pattern the regex was compiled from and the text.
#[verifier::external_body]
fn pattern_is_match(c: &CompiledPattern, text: &str) -> (r: bool)
    ensures
        r == regex_match(c.source(), text@),
{
    c.re.is_match(text)
}

/// A match of a regular expression: byte offsets in the text and the
/// matched text.
#[derive(Debug, Clone, PartialEq)]
pub struct WordToken {
    pub start: usize,
    pub end: usize,
    pub text: String,
}

/// The matches by view.
pub open spec fn tokens_view(t: Seq<WordToken>) -> Seq<(usize, usize, Seq<char>)> {
    t.map_values(|w: WordToken| (w.start, w.end, w.text@))
}

/// `regex::Regex::find_iter` of the pattern's regex on the text: the
/// successive non-overlapping matches.
pub uninterp spec fn regex_find_all(pattern: Seq<char>, text: Seq<char>) -> Seq<
    (usize, usize, Seq<char>),
>;

/// Calls `regex::Regex::find_iter` and collects every match. The matches
/// are named: `regex_find_all` of the pattern the regex was compiled from
/// and the text.
#[verifier::external_body]
pub(crate) fn find_all(c: &CompiledPattern, text: &str) -> (r: Vec<WordToken>)
    ensures
        tokens_view(r@) == regex_find_all(c.source(), text@),
{
    c.re.find_iter(text).map(|m| WordToken { start: m.start(), end: m.end(), text: m.as_str().to_string() }).collect()
}

/// Some valid pattern of the list matches the text.
pub open spec fn any_pattern_hits(patterns: Seq<String>, text: Seq<char>) -> bool {
    exists|k: int|
        0 <= k < patterns.len() && regex_valid((#[trigger] patterns[k])@) && regex_match(
            patterns[k]@,
            text,
        )
}

/// Returns whether some pattern of the list is valid and matches the text;
/// invalid patterns are skipped.
pub fn patterns_hit(patterns: &Vec<String>, text: &str) -> (r: bool)
    ensures
        r == any_pattern_hits(patterns@, text@),
{
    let mut k: usize = 0;
    while k < patterns.len()
        invariant
            0 <= k <= patterns@.len(),
            forall|j: int|
                0 <= j < k ==> !(regex_valid((#[trigger] patterns@[j])@) && regex_match(
                    patterns@[j]@,
                    text@,
                )),
        decreases patterns@.len() - k,
    {
        match compile_pattern(patterns[k].as_str()) {
            Some(c) => {
                if pattern_is_match(&c, text) {
                    return true;
                }
            },
            None => {},
        }
        k = k + 1;
    }
    false
}

/// The normal form of a spoken phrase: trimmed, then lower-cased.
pub fn normalize_phrase(phrase: &str) -> (r: String)
    ensures
        r@ == lowercase(trim(phrase@)),
{
    let t = trim_str(phrase);
    to_lower(t.as_str())
}

/// `(i, j)` is the first command, in pack order, that some of its patterns
/// match.
pub open spec fn first_regex_hit(lists: Seq<JCommandsList>, text: Seq<char>, i: int, j: int) -> bool {
    &&& cmd_at(lists, i, j)
    &&& any_pattern_hits(lists[i].commands@[j].patterns@, text)
    &&& forall|i2: int, j2: int|
        cmd_at(lists, i2, j2) && before(i2, j2, i, j) ==> !any_pattern_hits(
            (#[trigger] lists[i2].commands@[j2]).patterns@,
            text,
        )
}

/// Some command's patterns match the text.
pub open spec fn some_regex_hit(lists: Seq<JCommandsList>, text: Seq<char>) -> bool {
    exists|i: int, j: int|
        cmd_at(lists, i, j) && any_pattern_hits((#[trigger] lists[i].commands@[j]).patterns@, text)
}

/// The regular-expression pass over commands: the first command, in pack
/// order, with a pattern that matches the (normalised) phrase.
pub fn fetch_command_regex<'a>(phrase: &str, commands: &'a [JCommandsList]) -> (r: Option<
    (&'a String, &'a JCommand),
>)
    ensures
        r is None <==> !some_regex_hit(commands@, phrase@),
        r matches Some((p, c)) ==> exists|i: int, j: int|
            first_regex_hit(commands@, phrase@, i, j) && *p == commands@[i].path && *c
                == commands@[i].commands@[j],
{
    let n = commands.len();
    let mut i: usize = 0;
    while i < n
        invariant
            n == commands@.len(),
            0 <= i <= n,
            forall|i2: int, j2: int|
                cmd_at(commands@, i2, j2) && i2 < i ==> !any_pattern_hits(
                    (#[trigger] commands@[i2].commands@[j2]).patterns@,
                    phrase@,
                ),
        decreases n - i,
    {
        let list = &commands[i];
        let m = list.commands.len();
        let mut j: usize = 0;
        while j < m
            invariant
                n == commands@.len(),
                0 <= i < n,
                *list == commands@[i as int],
                m == list.commands@.len(),
                0 <= j <= m,
                forall|i2: int, j2: int|
                    cmd_at(commands@, i2, j2) && before(i2, j2, i as int, j as int)
                        ==> !any_pattern_hits(
                        (#[trigger] commands@[i2].commands@[j2]).patterns@,
                        phrase@,
                    ),
            decreases m - j,
        {
            if patterns_hit(&list.commands[j].patterns, phrase) {
                assert(first_regex_hit(commands@, phrase@, i as int, j as int));
                return Some((&list.path, &list.commands[j]));
            }
            j = j + 1;
        }
        i = i + 1;
    }
    None
}

/// The regular-expression pass over scripts: the first script with a
/// pattern that matches the (normalised) phrase.
pub fn fetch_script_regex<'a>(phrase: &str, scripts: &'a [Script]) -> (r: Option<&'a Script>)
    ensures
        r is None <==> forall|i: int|
            0 <= i < scripts@.len() ==> !any_pattern_hits((#[trigger] scripts@[i]).patterns@, phrase@),
        r matches Some(s) ==> exists|i: int|
            0 <= i < scripts@.len() && *s == scripts@[i] && any_pattern_hits(s.patterns@, phrase@)
                && forall|i2: int|
                0 <= i2 < i ==> !any_pattern_hits((#[trigger] scripts@[i2]).patterns@, phrase@),
{
    let mut i: usize = 0;
    while i < scripts.len()
        invariant
            0 <= i <= scripts@.len(),
            forall|i2: int|
                0 <= i2 < i ==> !any_pattern_hits((#[trigger] scripts@[i2]).patterns@, phrase@),
        decreases scripts@.len() - i,
    {
        if patterns_hit(&scripts[i].patterns, phrase) {
            return Some(&scripts[i]);
        }
        i = i + 1;
    }
    None
}

/// One of the script's phrases for the language equals the (normalised)
/// phrase once trimmed and lower-cased.
pub open spec fn exact_hit(s: Script, lang: Seq<char>, phrase: Seq<char>) -> bool {
    exists|k: int|
        0 <= k < script_phrases(s, lang).len() && lowercase(
            trim((#[trigger] script_phrases(s, lang)[k])@),
        ) == phrase
}

fn script_exact_hit(s: &Script, lang: &str, phrase: &str) -> (r: bool)
    ensures
        r == exact_hit(*s, lang@, phrase@),
{
    let triggers = s.get_phrases(lang);
    let mut k: usize = 0;
    while k < triggers.len()
        invariant
            triggers@ == script_phrases(*s, lang@),
            0 <= k <= triggers@.len(),
            forall|j: int| 0 <= j < k ==> lowercase(trim((#[trigger] triggers@[j])@)) != phrase@,
        decreases triggers@.len() - k,
    {
        let t = normalize_phrase(triggers[k].as_str());
        if str_eq(t.as_str(), phrase) {
            return true;
        }
        k = k + 1;
    }
    false
}

/// The exact-phrase pass over scripts: the first script one of whose
/// phrases, trimmed and lower-cased, equals the (normalised) phrase.
pub fn fetch_script_exact<'a>(phrase: &str, scripts: &'a [Script], lang: &str) -> (r: Option<
    &'a Script,
>)
    ensures
        r is None <==> forall|i: int|
            0 <= i < scripts@.len() ==> !exact_hit(#[trigger] scripts@[i], lang@, phrase@),
        r matches Some(s) ==> exists|i: int|
            0 <= i < scripts@.len() && *s == scripts@[i] && exact_hit(*s, lang@, phrase@) && forall|
                i2: int,
            | 0 <= i2 < i ==> !exact_hit(#[trigger] scripts@[i2], lang@, phrase@),
{
    let mut i: usize = 0;
    while i < scripts.len()
        invariant
            0 <= i <= scripts@.len(),
            forall|i2: int| 0 <= i2 < i ==> !exact_hit(#[trigger] scripts@[i2], lang@, phrase@),
        decreases scripts@.len() - i,
    {
        if script_exact_hit(&scripts[i], lang, phrase) {
            return Some(&scripts[i]);
        }
        i = i + 1;
    }
    None
}

/// The command for a spoken phrase. The phrase is trimmed and lower-cased;
/// nothing answers an empty phrase. A command whose pattern matches wins
/// (the first in pack order); else the caller's fuzzy pick, by pack and
/// command index, computed on the same normalised phrase (nothing when it
/// found none or names no command).
pub fn fetch_command<'a>(
    phrase: &str,
    commands: &'a [JCommandsList],
    fuzzy_pick: Option<(usize, usize)>,
) -> (r: Option<(&'a String, &'a JCommand)>)
    ensures
        ({
            let p = lowercase(trim(phrase@));
            &&& p.len() == 0 ==> r is None
            &&& p.len() > 0 && some_regex_hit(commands@, p) ==> (r matches Some((path, c))
                && exists|i: int, j: int|
                first_regex_hit(commands@, p, i, j) && *path == commands@[i].path && *c
                    == commands@[i].commands@[j])
            &&& p.len() > 0 && !some_regex_hit(commands@, p) ==> match fuzzy_pick {
                Some((i, j)) => if cmd_at(commands@, i as int, j as int) {
                    r matches Some((path, c)) && *path == commands@[i as int].path && *c
                        == commands@[i as int].commands@[j as int]
                } else {
                    r is None
                },
                None => r is None,
            }
        }),
{
    let p = normalize_phrase(phrase);
    if p.unicode_len() == 0 {
        return None;
    }
    match fetch_command_regex(p.as_str(), commands) {
        Some(hit) => Some(hit),
        None => match fuzzy_pick {
            Some((i, j)) => {
                if i < commands.len() && j < commands[i].commands.len() {
                    Some((&commands[i].path, &commands[i].commands[j]))
                } else {
                    None
                }
            },
            None => None,
        },
    }
}

/// The script for a spoken phrase. The phrase is trimmed and lower-cased;
/// nothing answers an empty phrase. A script whose pattern matches wins,
/// then a script with that exact phrase (trimmed and lower-cased) for the
/// language, then the caller's fuzzy pick by index, computed on the same
/// normalised phrase (nothing when it found none or names no script).
pub fn fetch_script<'a>(
    phrase: &str,
    scripts: &'a [Script],
    lang: &str,
    fuzzy_pick: Option<usize>,
) -> (r: Option<&'a Script>)
    ensures
        ({
            let p = lowercase(trim(phrase@));
            let regex_miss = forall|i: int|
                0 <= i < scripts@.len() ==> !any_pattern_hits(
                    (#[trigger] scripts@[i]).patterns@,
                    p,
                );
            let exact_miss = forall|i: int|
                0 <= i < scripts@.len() ==> !exact_hit(#[trigger] scripts@[i], lang@, p);
            &&& p.len() == 0 ==> r is None
            &&& p.len() > 0 && !regex_miss ==> (r matches Some(s) && exists|i: int|
                0 <= i < scripts@.len() && *s == scripts@[i] && any_pattern_hits(s.patterns@, p)
                    && forall|i2: int|
                    0 <= i2 < i ==> !any_pattern_hits((#[trigger] scripts@[i2]).patterns@, p))
            &&& p.len() > 0 && regex_miss && !exact_miss ==> (r matches Some(s) && exists|i: int|
                0 <= i < scripts@.len() && *s == scripts@[i] && exact_hit(*s, lang@, p) && forall|
                    i2: int,
                | 0 <= i2 < i ==> !exact_hit(#[trigger] scripts@[i2], lang@, p))
            &&& p.len() > 0 && regex_miss && exact_miss ==> match fuzzy_pick {
                Some(k) => if k < scripts@.len() {
                    r matches Some(s) && *s == scripts@[k as int]
                } else {
                    r is None
                },
                None => r is None,
            }
        }),
{
    let p = normalize_phrase(phrase);
    if p.unicode_len() == 0 {
        return None;
    }
    match fetch_script_regex(p.as_str(), scripts) {
        Some(s) => {
            return Some(s);
        },
        None => {},
    }
    match fetch_script_exact(p.as_str(), scripts, lang) {
        Some(s) => {
            return Some(s);
        },
        None => {},
    }
    match fuzzy_pick {
        Some(k) => {
            if k < scripts.len() {
                Some(&scripts[k])
            } else {
                None
            }
        },
        None => None,
    }
}

} // verus!
