//! The command and script editor: name checks, edits of a pack's command
//! list, and the TOML text a command is saved as.
use vstd::prelude::*;
use crate::commands::{JCommand, LangLists};
use crate::commands_hash::{
    entry_content, insert_entry, lemma_member_of_same_multiset, lemma_sort_multiset, sort_by_id, HashEntry,
};
use crate::text::{
    concat2, contains_char, contains_str, copy_strings, debug_quote, debug_quoted, decimal, is_ws, join,
    join_strings, owned, push_char, str_eq, u64_to_decimal, views,
};

verus! {

/// A pack as shown in the editor: its folder name and commands.
#[derive(Debug, Clone, PartialEq)]
pub struct CommandPackInfo {
    pub pack_name: String,
    pub commands: Vec<JCommand>,
}

/// A command as entered in the editor, for creating or updating.
#[derive(Debug, Clone, PartialEq)]
pub struct NewCommandInput {
    pub id: String,
    pub cmd_type: String,
    pub description: String,
    pub phrases_ru: Vec<String>,
    pub phrases_en: Vec<String>,
    pub exe_path: String,
    pub exe_args: Vec<String>,
    pub cli_cmd: String,
    pub cli_args: Vec<String>,
    pub patterns: Vec<String>,
    pub sounds_ru: Vec<String>,
    pub response_sound: String,
}

// ---------------------------------------------------------------------------
// Names
// ---------------------------------------------------------------------------

/// `char::is_alphanumeric`: the Unicode Alphabetic or Numeric property.
pub uninterp spec fn is_alnum(c: char) -> bool;

/// Calls `char::is_alphanumeric`; the answer is named `is_alnum`. Of an
/// ASCII character it is true exactly for the letters and digits (no other
/// ASCII character is Alphabetic or Numeric), and it is false for every
/// Unicode White_Space character (those are control, space and separator
/// characters, none Alphabetic or Numeric).
#[verifier::external_body]
fn char_is_alphanumeric(c: char) -> (r: bool)
    ensures
        r == is_alnum(c),
        (c as u32) < 128 ==> (r <==> ((0x61 <= (c as u32) && (c as u32) <= 0x7A) || (0x41 <= (c
            as u32) && (c as u32) <= 0x5A) || (0x30 <= (c as u32) && (c as u32) <= 0x39))),
        is_ws(c) ==> !r,
{
    c.is_alphanumeric()
}

/// A character kept in a pack name.
pub open spec fn name_char(c: char) -> bool {
    is_alnum(c) || c == '_' || c == '-'
}

/// The characters of `s` that may stand in a pack name, in order.
pub open spec fn keep_name_chars(s: Seq<char>) -> Seq<char>
    decreases s.len(),
{
    if s.len() == 0 {
        s
    } else {
        let r = keep_name_chars(s.drop_last());
        if name_char(s.last()) {
            r.push(s.last())
        } else {
            r
        }
    }
}

/// A character that can stand in a file name without changing the folder
/// it names: neither `.`, `/`, `\\` nor whitespace.
pub open spec fn path_safe(c: char) -> bool {
    c != '.' && c != '/' && c != '\\' && !is_ws(c)
}

/// The letters, digits, `_` and `-` of the name, in order.
fn filter_name_chars(name: &str) -> (r: String)
    ensures
        r@ == keep_name_chars(name@),
        forall|k: int| 0 <= k < r@.len() ==> path_safe(#[trigger] r@[k]),
{
    let n = name.unicode_len();
    let mut safe = String::new();
    let mut i: usize = 0;
    while i < n
        invariant
            n == name@.len(),
            0 <= i <= n,
            safe@ == keep_name_chars(name@.subrange(0, i as int)),
            forall|k: int| 0 <= k < safe@.len() ==> path_safe(#[trigger] safe@[k]),
        decreases n - i,
    {
        let c = name.get_char(i);
        let ghost sub = name@.subrange(0, i + 1);
        assert(sub.drop_last() =~= name@.subrange(0, i as int));
        let alnum = char_is_alphanumeric(c);
        if alnum || c == '_' || c == '-' {
            let ghost before = safe@;
            push_char(&mut safe, c);
            proof {
                assert(path_safe(c)) by {
                    if is_ws(c) {
                        assert(c != '_' && c != '-');
                    }
                }
                assert forall|k: int| 0 <= k < safe@.len() implies path_safe(#[trigger] safe@[k]) by {
                    if k < before.len() {
                        assert(safe@[k] == before[k]);
                    }
                }
            }
        }
        i = i + 1;
    }
    assert(name@.subrange(0, n as int) =~= name@);
    safe
}

/// A folder name made from the letters, digits, `_` and `-` of the given
/// name; refused when none is left.
pub fn sanitize_pack_name(name: &str) -> (r: Result<String, String>)
    ensures
        keep_name_chars(name@).len() > 0 ==> (r matches Ok(s) && s@ == keep_name_chars(name@)),
        r matches Ok(s) ==> forall|k: int| 0 <= k < s@.len() ==> path_safe(#[trigger] s@[k]),
        keep_name_chars(name@).len() == 0 ==> (r matches Err(e) && e@
            == "Invalid pack name: use letters, digits, _ or -"@),
{
    let safe = filter_name_chars(name);
    if safe.unicode_len() == 0 {
        Err(owned("Invalid pack name: use letters, digits, _ or -"))
    } else {
        Ok(safe)
    }
}

proof fn lemma_keep_only_name_chars(s: Seq<char>)
    ensures
        forall|k: int| 0 <= k < keep_name_chars(s).len() ==> name_char(#[trigger] keep_name_chars(s)[k]),
    decreases s.len(),
{
    if s.len() > 0 {
        let d = s.drop_last();
        lemma_keep_only_name_chars(d);
        let r = keep_name_chars(d);
        if name_char(s.last()) {
            assert forall|k: int| 0 <= k < r.push(s.last()).len() implies name_char(
                #[trigger] r.push(s.last())[k],
            ) by {
                if k < r.len() {
                    assert(r.push(s.last())[k] == r[k]);
                }
            }
        }
    }
}

proof fn lemma_keep_of_name_chars(s: Seq<char>)
    requires
        forall|k: int| 0 <= k < s.len() ==> name_char(#[trigger] s[k]),
    ensures
        keep_name_chars(s) == s,
    decreases s.len(),
{
    if s.len() > 0 {
        let d = s.drop_last();
        assert forall|k: int| 0 <= k < d.len() implies name_char(#[trigger] d[k]) by {
            assert(d[k] == s[k]);
        }
        lemma_keep_of_name_chars(d);
        assert(s.last() == s[s.len() - 1]);
        assert(d.push(s.last()) =~= s);
    }
}

/// A sanitised pack name is made of letters, digits, `_` and `-` only, and
/// sanitising it again gives it back unchanged.
pub proof fn law_sanitize_pack_name_idempotent(name: Seq<char>)
    ensures
        forall|k: int|
            0 <= k < keep_name_chars(name).len() ==> name_char(#[trigger] keep_name_chars(name)[k]),
        keep_name_chars(keep_name_chars(name)) == keep_name_chars(name),
{
    lemma_keep_only_name_chars(name);
    lemma_keep_of_name_chars(keep_name_chars(name));
}

/// The folder of imported sounds for a category: its letters, digits, `_`
/// and `-`, or `general` when none is left.
pub fn sanitize_category(category: &str) -> (r: String)
    ensures
        forall|k: int| 0 <= k < r@.len() ==> path_safe(#[trigger] r@[k]),
        keep_name_chars(category@).len() > 0 ==> r@ == keep_name_chars(category@),
        keep_name_chars(category@).len() == 0 ==> r@ == "general"@,
{
    let safe = filter_name_chars(category);
    if safe.unicode_len() == 0 {
        let g = owned("general");
        proof {
            reveal_strlit("general");
            assert forall|k: int| 0 <= k < g@.len() implies path_safe(#[trigger] g@[k]) by {
                assert(0 <= k < 7);
            }
        }
        g
    } else {
        safe
    }
}

/// A name is refused when empty or when it holds `..`, `/` or `\`.
pub open spec fn bad_name(s: Seq<char>) -> bool {
    s.len() == 0 || crate::text::contains_seq(s, ".."@) || s.contains('/') || s.contains('\\')
}

fn is_bad_name(s: &str) -> (r: bool)
    ensures
        r == bad_name(s@),
{
    s.is_empty() || contains_str(s, "..") || contains_char(s, '/') || contains_char(s, '\\')
}

/// Checks a pack name used as a folder name.
pub fn validate_name(name: &str) -> (r: Result<(), String>)
    ensures
        !bad_name(name@) ==> r is Ok,
        bad_name(name@) ==> (r matches Err(e) && e@ == "Invalid pack name"@),
{
    if is_bad_name(name) {
        Err(owned("Invalid pack name"))
    } else {
        Ok(())
    }
}

/// Checks a script id used as a file name.
pub fn validate_script_id(id: &str) -> (r: Result<(), String>)
    ensures
        !bad_name(id@) ==> r is Ok,
        bad_name(id@) ==> (r matches Err(e) && e@ == "Invalid script ID"@),
{
    if is_bad_name(id) {
        Err(owned("Invalid script ID"))
    } else {
        Ok(())
    }
}

/// The file name a script is saved under.
pub fn script_file_name(id: &str) -> (r: String)
    ensures
        r@ == id@ + ".toml"@,
{
    concat2(id, ".toml")
}

// ---------------------------------------------------------------------------
// Editing a pack's commands
// ---------------------------------------------------------------------------

/// Some command of the list has the id.
pub open spec fn list_has_id(list: Seq<JCommand>, id: Seq<char>) -> bool {
    exists|k: int| 0 <= k < list.len() && (#[trigger] list[k]).id@ == id
}

/// The position of the first command with the id, if any.
pub fn find_id(list: &Vec<JCommand>, id: &str) -> (r: Option<usize>)
    ensures
        r is None <==> !list_has_id(list@, id@),
        r matches Some(k) ==> k < list@.len() && list@[k as int].id@ == id@ && forall|j: int|
            0 <= j < k ==> (#[trigger] list@[j]).id@ != id@,
{
    let mut k: usize = 0;
    while k < list.len()
        invariant
            0 <= k <= list@.len(),
            forall|j: int| 0 <= j < k ==> (#[trigger] list@[j]).id@ != id@,
        decreases list@.len() - k,
    {
        if str_eq(list[k].id.as_str(), id) {
            return Some(k);
        }
        k = k + 1;
    }
    None
}

/// "Command '<id>' <what> '<pack>'".
pub open spec fn command_message(id: Seq<char>, what: Seq<char>, pack: Seq<char>) -> Seq<char> {
    "Command '"@ + id + "' "@ + what + " '"@ + pack + "'"@
}

fn command_message_exec(id: &str, what: &str, pack: &str) -> (r: String)
    ensures
        r@ == command_message(id@, what@, pack@),
{
    let mut m = owned("Command '");
    m.append(id);
    m.append("' ");
    m.append(what);
    m.append(" '");
    m.append(pack);
    m.append("'");
    m
}

/// Appends a command to a pack's list, refusing an id already there.
pub fn append_command_to_pack(list: &mut Vec<JCommand>, command: JCommand, pack_name: &str) -> (r:
    Result<(), String>)
    ensures
        list_has_id(old(list)@, command.id@) ==> (r matches Err(e) && e@ == command_message(
            command.id@,
            "already exists in"@,
            pack_name@,
        ) && final(list)@ == old(list)@),
        !list_has_id(old(list)@, command.id@) ==> r is Ok && final(list)@ == old(list)@.push(
            command,
        ),
{
    match find_id(list, command.id.as_str()) {
        Some(_) => Err(command_message_exec(command.id.as_str(), "already exists in", pack_name)),
        None => {
            list.push(command);
            Ok(())
        },
    }
}

/// Replaces the first command with `old_id` by the given one.
pub fn update_command(list: &mut Vec<JCommand>, old_id: &str, command: JCommand, pack_name: &str) -> (r:
    Result<(), String>)
    ensures
        !list_has_id(old(list)@, old_id@) ==> (r matches Err(e) && e@ == command_message(
            old_id@,
            "not found in"@,
            pack_name@,
        ) && final(list)@ == old(list)@),
        list_has_id(old(list)@, old_id@) ==> r is Ok && exists|k: int|
            0 <= k < old(list)@.len() && old(list)@[k].id@ == old_id@ && (forall|j: int|
                0 <= j < k ==> (#[trigger] old(list)@[j]).id@ != old_id@) && final(list)@
                == old(list)@.update(k, command),
{
    match find_id(list, old_id) {
        Some(k) => {
            list.set(k, command);
            Ok(())
        },
        None => Err(command_message_exec(old_id, "not found in", pack_name)),
    }
}

/// The commands of `s` whose id is not `id`, in order.
pub open spec fn without_id(s: Seq<JCommand>, id: Seq<char>) -> Seq<JCommand>
    decreases s.len(),
{
    if s.len() == 0 {
        s
    } else {
        let r = without_id(s.drop_last(), id);
        if s.last().id@ == id {
            r
        } else {
            r.push(s.last())
        }
    }
}

proof fn lemma_without_absent(s: Seq<JCommand>, id: Seq<char>)
    requires
        !list_has_id(s, id),
    ensures
        without_id(s, id) == s,
    decreases s.len(),
{
    if s.len() > 0 {
        let d = s.drop_last();
        assert(!list_has_id(d, id)) by {
            if list_has_id(d, id) {
                let k = choose|k: int| 0 <= k < d.len() && (#[trigger] d[k]).id@ == id;
                assert(s[k] == d[k]);
            }
        }
        lemma_without_absent(d, id);
        assert(s.last() == s[s.len() - 1]);
        assert(d.push(s.last()) =~= s);
    }
}

/// Adding a command under a new id and then deleting that id gives the
/// pack back as it was.
pub proof fn law_append_then_delete(before: Seq<JCommand>, command: JCommand)
    requires
        !list_has_id(before, command.id@),
    ensures
        without_id(before.push(command), command.id@) == before,
{
    assert(before.push(command).drop_last() =~= before);
    lemma_without_absent(before, command.id@);
}

/// Deletes every command with the id. Refused when there is none. On
/// success, says whether the pack is now empty (and its folder goes).
pub fn delete_command(list: &mut Vec<JCommand>, command_id: &str, pack_name: &str) -> (r: Result<
    bool,
    String,
>)
    ensures
        !list_has_id(old(list)@, command_id@) ==> (r matches Err(e) && e@ == command_message(
            command_id@,
            "not found in"@,
            pack_name@,
        ) && final(list)@ == old(list)@),
        list_has_id(old(list)@, command_id@) ==> (r matches Ok(empty) && final(list)@ == without_id(
            old(list)@,
            command_id@,
        ) && empty == (final(list)@.len() == 0)),
{
    if find_id(list, command_id).is_none() {
        return Err(command_message_exec(command_id, "not found in", pack_name));
    }
    let ghost v = list@;
    let mut kept: Vec<JCommand> = Vec::new();
    let mut rest: Vec<JCommand> = Vec::new();
    core::mem::swap(&mut rest, list);
    let ghost all = rest@;
    let n = rest.len();
    assert(all == v);
    let mut i: usize = 0;
    assert(rest@ =~= all.subrange(0, all.len() as int));
    while rest.len() > 0
        invariant
            i + rest@.len() == all.len(),
            all.len() == n,
            rest@ == all.subrange(i as int, all.len() as int),
            kept@ == without_id(all.subrange(0, i as int), command_id@),
        decreases rest@.len(),
    {
        let ghost r0 = rest@;
        let c = rest.remove(0);
        proof {
            assert(r0[0] == c);
            assert(rest@ =~= all.subrange(i + 1, all.len() as int));
            let sub = all.subrange(0, i + 1);
            assert(sub.drop_last() =~= all.subrange(0, i as int));
            assert(sub.last() == c);
        }
        if !str_eq(c.id.as_str(), command_id) {
            kept.push(c);
        }
        i = i + 1;
    }
    assert(all.subrange(0, all.len() as int) =~= all);
    *list = kept;
    Ok(list.len() == 0)
}

// ---------------------------------------------------------------------------
// TOML text of a command
// ---------------------------------------------------------------------------

/// A TOML array of quoted strings.
pub open spec fn esc_arr(v: Seq<Seq<char>>) -> Seq<char> {
    "["@ + join(v.map_values(|s: Seq<char>| debug_quoted(s)), ", "@) + "]"@
}

fn esc_arr_exec(v: &Vec<String>) -> (r: String)
    ensures
        r@ == esc_arr(views(v@)),
{
    let mut quoted: Vec<String> = Vec::new();
    let mut i: usize = 0;
    while i < v.len()
        invariant
            0 <= i <= v@.len(),
            quoted@.len() == i,
            forall|k: int| 0 <= k < i ==> (#[trigger] quoted@[k])@ == debug_quoted(v@[k]@),
        decreases v@.len() - i,
    {
        quoted.push(debug_quote(v[i].as_str()));
        i = i + 1;
    }
    assert(views(quoted@) =~= views(v@).map_values(|s: Seq<char>| debug_quoted(s)));
    let inner = join_strings(&quoted, ", ");
    let mut r = owned("[");
    r.append(inner.as_str());
    r.append("]");
    r
}

/// A line when the condition holds, else nothing.
pub open spec fn opt_line(cond: bool, line: Seq<char>) -> Seq<Seq<char>> {
    if cond {
        seq![line]
    } else {
        Seq::empty()
    }
}

/// One line per language: `<key>.<lang> = [..]`.
pub open spec fn lang_lines(key: Seq<char>, entries: Seq<(Seq<char>, Seq<Seq<char>>)>) -> Seq<
    Seq<char>,
>
    decreases entries.len(),
{
    if entries.len() == 0 {
        Seq::empty()
    } else {
        lang_lines(key, entries.drop_last()).push(
            key + "."@ + entries.last().0 + " = "@ + esc_arr(entries.last().1),
        )
    }
}

/// The content of per-language lists, as sorting sees it.
pub open spec fn lang_contents(l: Seq<(String, Vec<String>)>) -> Seq<(Seq<char>, Seq<Seq<char>>)> {
    l.map_values(|e: HashEntry| entry_content(e))
}

/// The first lines of a command's block: header, id, type, description,
/// executable and shell command.
pub open spec fn block_head(c: JCommand) -> Seq<Seq<char>> {
    seq![
        "[[commands]]"@,
        "id = "@ + debug_quoted(c.id@),
        "type = "@ + debug_quoted(c.cmd_type@),
    ] + opt_line(c.description@.len() > 0, "description = "@ + debug_quoted(c.description@))
        + opt_line(c.exe_path@.len() > 0, "exe_path = "@ + debug_quoted(c.exe_path@)) + opt_line(
        c.exe_path@.len() > 0 || c.exe_args@.len() > 0,
        "exe_args = "@ + esc_arr(views(c.exe_args@)),
    ) + opt_line(c.cli_cmd@.len() > 0, "cli_cmd = "@ + debug_quoted(c.cli_cmd@)) + opt_line(
        c.cli_args@.len() > 0,
        "cli_args = "@ + esc_arr(views(c.cli_args@)),
    )
}

/// The script, timeout and sandbox lines of a command's block.
pub open spec fn block_mid(c: JCommand) -> Seq<Seq<char>> {
    opt_line(c.script@.len() > 0, "script = "@ + debug_quoted(c.script@)) + opt_line(
        c.timeout > 0,
        "timeout = "@ + decimal(c.timeout as nat),
    ) + opt_line(c.sandbox@.len() > 0, "sandbox = "@ + debug_quoted(c.sandbox@))
}

/// The line of one slot: its name (quoted) and its entity label.
pub open spec fn slot_line(name: Seq<char>, entity: Seq<char>) -> Seq<char> {
    "slots."@ + debug_quoted(name) + ".entity = "@ + debug_quoted(entity)
}

/// One line per slot, in order.
pub open spec fn slot_lines(slots: Seq<(Seq<char>, Seq<char>)>) -> Seq<Seq<char>>
    decreases slots.len(),
{
    if slots.len() == 0 {
        Seq::empty()
    } else {
        slot_lines(slots.drop_last()).push(slot_line(slots.last().0, slots.last().1))
    }
}

/// The pattern, response sound, chaining and slot lines of a command's
/// block.
pub open spec fn block_tail(c: JCommand) -> Seq<Seq<char>> {
    opt_line(c.patterns@.len() > 0, "patterns = "@ + esc_arr(views(c.patterns@))) + opt_line(
        c.response_sound@.len() > 0,
        "response_sound = "@ + debug_quoted(c.response_sound@),
    ) + opt_line(c.allow_chaining, "allow_chaining = true"@) + slot_lines(
        crate::commands::slots_view(c.slots@),
    )
}

/// The lines of a command's TOML block; per-language lists are sorted by
/// language.
pub open spec fn block_lines(c: JCommand) -> Seq<Seq<char>> {
    block_head(c) + block_mid(c) + lang_lines("sounds"@, sort_by_id(lang_contents(c.sounds@)))
        + lang_lines("phrases"@, sort_by_id(lang_contents(c.phrases@))) + block_tail(c)
}

/// The line of one language's list under a key.
pub open spec fn lang_line(key: Seq<char>, lang: Seq<char>, items: Seq<Seq<char>>) -> Seq<char> {
    key + "."@ + lang + " = "@ + esc_arr(items)
}

/// Every field of the command that differs from its default value has its
/// line among `lines`: the id and type always; the description, executable,
/// its arguments, shell command, its arguments, script, timeout, sandbox,
/// patterns and response sound when set; `allow_chaining` when on; each
/// language of its sounds and phrases; each slot.
pub open spec fn writes_every_field(c: JCommand, lines: Seq<Seq<char>>) -> bool {
    &&& lines.contains("id = "@ + debug_quoted(c.id@))
    &&& lines.contains("type = "@ + debug_quoted(c.cmd_type@))
    &&& c.description@.len() > 0 ==> lines.contains("description = "@ + debug_quoted(c.description@))
    &&& c.exe_path@.len() > 0 ==> lines.contains("exe_path = "@ + debug_quoted(c.exe_path@))
    &&& c.exe_args@.len() > 0 ==> lines.contains("exe_args = "@ + esc_arr(views(c.exe_args@)))
    &&& c.cli_cmd@.len() > 0 ==> lines.contains("cli_cmd = "@ + debug_quoted(c.cli_cmd@))
    &&& c.cli_args@.len() > 0 ==> lines.contains("cli_args = "@ + esc_arr(views(c.cli_args@)))
    &&& c.script@.len() > 0 ==> lines.contains("script = "@ + debug_quoted(c.script@))
    &&& c.timeout > 0 ==> lines.contains("timeout = "@ + decimal(c.timeout as nat))
    &&& c.sandbox@.len() > 0 ==> lines.contains("sandbox = "@ + debug_quoted(c.sandbox@))
    &&& c.patterns@.len() > 0 ==> lines.contains("patterns = "@ + esc_arr(views(c.patterns@)))
    &&& c.response_sound@.len() > 0 ==> lines.contains(
        "response_sound = "@ + debug_quoted(c.response_sound@),
    )
    &&& c.allow_chaining ==> lines.contains("allow_chaining = true"@)
    &&& forall|k: int|
        0 <= k < c.sounds@.len() ==> lines.contains(
            lang_line("sounds"@, (#[trigger] c.sounds@[k]).0@, views(c.sounds@[k].1@)),
        )
    &&& forall|k: int|
        0 <= k < c.phrases@.len() ==> lines.contains(
            lang_line("phrases"@, (#[trigger] c.phrases@[k]).0@, views(c.phrases@[k].1@)),
        )
    &&& forall|k: int|
        0 <= k < c.slots@.len() ==> lines.contains(
            slot_line((#[trigger] c.slots@[k]).0@, c.slots@[k].1.entity@),
        )
}

proof fn lemma_lang_lines_contain(key: Seq<char>, entries: Seq<(Seq<char>, Seq<Seq<char>>)>, k: int)
    requires
        0 <= k < entries.len(),
    ensures
        lang_lines(key, entries).contains(lang_line(key, entries[k].0, entries[k].1)),
    decreases entries.len(),
{
    let l = lang_lines(key, entries);
    let d = entries.drop_last();
    if k == entries.len() - 1 {
        assert(l[l.len() - 1] == lang_line(key, entries[k].0, entries[k].1));
    } else {
        lemma_lang_lines_contain(key, d, k);
        assert(d[k] == entries[k]);
        let ld = lang_lines(key, d);
        let i = choose|i: int| 0 <= i < ld.len() && ld[i] == lang_line(key, d[k].0, d[k].1);
        assert(l[i] == ld[i]);
    }
}

proof fn lemma_sorted_lang_lines_contain(key: Seq<char>, l: Seq<(String, Vec<String>)>, k: int)
    requires
        0 <= k < l.len(),
    ensures
        lang_lines(key, sort_by_id(lang_contents(l))).contains(lang_line(key, l[k].0@, views(l[k].1@))),
{
    let x = lang_contents(l);
    let s = sort_by_id(x);
    lemma_sort_multiset(x);
    let m = lemma_member_of_same_multiset(s, x, k);
    assert(x[k] == entry_content(l[k]));
    lemma_lang_lines_contain(key, s, m);
}

proof fn lemma_slot_lines_contain(slots: Seq<(Seq<char>, Seq<char>)>, k: int)
    requires
        0 <= k < slots.len(),
    ensures
        slot_lines(slots).contains(slot_line(slots[k].0, slots[k].1)),
    decreases slots.len(),
{
    let l = slot_lines(slots);
    let d = slots.drop_last();
    if k == slots.len() - 1 {
        assert(l[l.len() - 1] == slot_line(slots[k].0, slots[k].1));
    } else {
        lemma_slot_lines_contain(d, k);
        assert(d[k] == slots[k]);
        let ld = slot_lines(d);
        let i = choose|i: int| 0 <= i < ld.len() && ld[i] == slot_line(d[k].0, d[k].1);
        assert(l[i] == ld[i]);
    }
}

proof fn lemma_in_middle(pre: Seq<Seq<char>>, mid: Seq<Seq<char>>, post: Seq<Seq<char>>, x: Seq<char>)
    requires
        mid.contains(x),
    ensures
        (pre + mid + post).contains(x),
{
    let i = choose|i: int| 0 <= i < mid.len() && mid[i] == x;
    assert((pre + mid + post)[pre.len() + i] == x);
}

proof fn lemma_opt_line_contains(b: bool, x: Seq<char>)
    requires
        b,
    ensures
        opt_line(b, x).contains(x),
{
    assert(opt_line(b, x)[0] == x);
}

proof fn lemma_head_fields(c: JCommand)
    ensures
        block_head(c).contains("id = "@ + debug_quoted(c.id@)),
        block_head(c).contains("type = "@ + debug_quoted(c.cmd_type@)),
        c.description@.len() > 0 ==> block_head(c).contains("description = "@ + debug_quoted(c.description@)),
        c.exe_path@.len() > 0 ==> block_head(c).contains("exe_path = "@ + debug_quoted(c.exe_path@)),
        c.exe_args@.len() > 0 ==> block_head(c).contains("exe_args = "@ + esc_arr(views(c.exe_args@))),
        c.cli_cmd@.len() > 0 ==> block_head(c).contains("cli_cmd = "@ + debug_quoted(c.cli_cmd@)),
        c.cli_args@.len() > 0 ==> block_head(c).contains("cli_args = "@ + esc_arr(views(c.cli_args@))),
{
    let e = Seq::<Seq<char>>::empty();
    let h0 = seq!["[[commands]]"@, "id = "@ + debug_quoted(c.id@), "type = "@ + debug_quoted(c.cmd_type@)];
    let od = opt_line(c.description@.len() > 0, "description = "@ + debug_quoted(c.description@));
    let oep = opt_line(c.exe_path@.len() > 0, "exe_path = "@ + debug_quoted(c.exe_path@));
    let oea = opt_line(
        c.exe_path@.len() > 0 || c.exe_args@.len() > 0,
        "exe_args = "@ + esc_arr(views(c.exe_args@)),
    );
    let occ = opt_line(c.cli_cmd@.len() > 0, "cli_cmd = "@ + debug_quoted(c.cli_cmd@));
    let oca = opt_line(c.cli_args@.len() > 0, "cli_args = "@ + esc_arr(views(c.cli_args@)));
    let h = block_head(c);
    assert(h == h0 + od + oep + oea + occ + oca);
    assert(h0[1] == "id = "@ + debug_quoted(c.id@));
    assert(h0[2] == "type = "@ + debug_quoted(c.cmd_type@));
    assert(h[1] == h0[1] && h[2] == h0[2]);
    if c.description@.len() > 0 {
        lemma_opt_line_contains(true, "description = "@ + debug_quoted(c.description@));
        lemma_in_middle(h0, od, oep + oea + occ + oca, "description = "@ + debug_quoted(c.description@));
        assert(h0 + od + (oep + oea + occ + oca) =~= h);
    }
    if c.exe_path@.len() > 0 {
        lemma_opt_line_contains(true, "exe_path = "@ + debug_quoted(c.exe_path@));
        lemma_in_middle(h0 + od, oep, oea + occ + oca, "exe_path = "@ + debug_quoted(c.exe_path@));
        assert(h0 + od + oep + (oea + occ + oca) =~= h);
    }
    if c.exe_args@.len() > 0 {
        lemma_opt_line_contains(true, "exe_args = "@ + esc_arr(views(c.exe_args@)));
        lemma_in_middle(h0 + od + oep, oea, occ + oca, "exe_args = "@ + esc_arr(views(c.exe_args@)));
        assert(h0 + od + oep + oea + (occ + oca) =~= h);
    }
    if c.cli_cmd@.len() > 0 {
        lemma_opt_line_contains(true, "cli_cmd = "@ + debug_quoted(c.cli_cmd@));
        lemma_in_middle(h0 + od + oep + oea, occ, oca, "cli_cmd = "@ + debug_quoted(c.cli_cmd@));
    }
    if c.cli_args@.len() > 0 {
        lemma_opt_line_contains(true, "cli_args = "@ + esc_arr(views(c.cli_args@)));
        lemma_in_middle(h0 + od + oep + oea + occ, oca, e, "cli_args = "@ + esc_arr(views(c.cli_args@)));
        assert(h0 + od + oep + oea + occ + oca + e =~= h);
    }
}

proof fn lemma_mid_fields(c: JCommand)
    ensures
        c.script@.len() > 0 ==> block_mid(c).contains("script = "@ + debug_quoted(c.script@)),
        c.timeout > 0 ==> block_mid(c).contains("timeout = "@ + decimal(c.timeout as nat)),
        c.sandbox@.len() > 0 ==> block_mid(c).contains("sandbox = "@ + debug_quoted(c.sandbox@)),
{
    let e = Seq::<Seq<char>>::empty();
    let m1 = opt_line(c.script@.len() > 0, "script = "@ + debug_quoted(c.script@));
    let m2 = opt_line(c.timeout > 0, "timeout = "@ + decimal(c.timeout as nat));
    let m3 = opt_line(c.sandbox@.len() > 0, "sandbox = "@ + debug_quoted(c.sandbox@));
    if c.script@.len() > 0 {
        lemma_opt_line_contains(true, "script = "@ + debug_quoted(c.script@));
        lemma_in_middle(e, m1, m2 + m3, "script = "@ + debug_quoted(c.script@));
        assert(e + m1 + (m2 + m3) =~= block_mid(c));
    }
    if c.timeout > 0 {
        lemma_opt_line_contains(true, "timeout = "@ + decimal(c.timeout as nat));
        lemma_in_middle(m1, m2, m3, "timeout = "@ + decimal(c.timeout as nat));
    }
    if c.sandbox@.len() > 0 {
        lemma_opt_line_contains(true, "sandbox = "@ + debug_quoted(c.sandbox@));
        lemma_in_middle(m1 + m2, m3, e, "sandbox = "@ + debug_quoted(c.sandbox@));
        assert(m1 + m2 + m3 + e =~= block_mid(c));
    }
}

proof fn lemma_tail_fields(c: JCommand)
    ensures
        c.patterns@.len() > 0 ==> block_tail(c).contains("patterns = "@ + esc_arr(views(c.patterns@))),
        c.response_sound@.len() > 0 ==> block_tail(c).contains(
            "response_sound = "@ + debug_quoted(c.response_sound@),
        ),
        c.allow_chaining ==> block_tail(c).contains("allow_chaining = true"@),
        forall|k: int|
            0 <= k < c.slots@.len() ==> block_tail(c).contains(
                slot_line((#[trigger] c.slots@[k]).0@, c.slots@[k].1.entity@),
            ),
{
    let e = Seq::<Seq<char>>::empty();
    let t1 = opt_line(c.patterns@.len() > 0, "patterns = "@ + esc_arr(views(c.patterns@)));
    let t2 = opt_line(c.response_sound@.len() > 0, "response_sound = "@ + debug_quoted(c.response_sound@));
    let t3 = opt_line(c.allow_chaining, "allow_chaining = true"@);
    let t4 = slot_lines(crate::commands::slots_view(c.slots@));
    let t = block_tail(c);
    if c.patterns@.len() > 0 {
        lemma_opt_line_contains(true, "patterns = "@ + esc_arr(views(c.patterns@)));
        lemma_in_middle(e, t1, t2 + t3 + t4, "patterns = "@ + esc_arr(views(c.patterns@)));
        assert(e + t1 + (t2 + t3 + t4) =~= t);
    }
    if c.response_sound@.len() > 0 {
        lemma_opt_line_contains(true, "response_sound = "@ + debug_quoted(c.response_sound@));
        lemma_in_middle(t1, t2, t3 + t4, "response_sound = "@ + debug_quoted(c.response_sound@));
        assert(t1 + t2 + (t3 + t4) =~= t);
    }
    if c.allow_chaining {
        lemma_opt_line_contains(true, "allow_chaining = true"@);
        lemma_in_middle(t1 + t2, t3, t4, "allow_chaining = true"@);
    }
    assert forall|k: int| 0 <= k < c.slots@.len() implies t.contains(
        slot_line((#[trigger] c.slots@[k]).0@, c.slots@[k].1.entity@),
    ) by {
        let sv = crate::commands::slots_view(c.slots@);
        lemma_slot_lines_contain(sv, k);
        assert(sv[k] == (c.slots@[k].0@, c.slots@[k].1.entity@));
        lemma_in_middle(t1 + t2 + t3, t4, e, slot_line(c.slots@[k].0@, c.slots@[k].1.entity@));
        assert(t1 + t2 + t3 + t4 + e =~= t);
    }
}

/// A command's block writes every field that differs from its default.
pub proof fn lemma_block_writes_every_field(c: JCommand)
    ensures
        writes_every_field(c, block_lines(c)),
{
    let e = Seq::<Seq<char>>::empty();
    let h = block_head(c);
    let m = block_mid(c);
    let so = lang_lines("sounds"@, sort_by_id(lang_contents(c.sounds@)));
    let ph = lang_lines("phrases"@, sort_by_id(lang_contents(c.phrases@)));
    let t = block_tail(c);
    let b = block_lines(c);
    lemma_head_fields(c);
    lemma_mid_fields(c);
    lemma_tail_fields(c);
    assert(e + h + (m + so + ph + t) =~= b);
    assert(h + m + (so + ph + t) =~= b);
    assert(h + m + so + ph + t + e =~= b);
    assert forall|x: Seq<char>| h.contains(x) implies #[trigger] b.contains(x) by {
        lemma_in_middle(e, h, m + so + ph + t, x);
    }
    assert forall|x: Seq<char>| m.contains(x) implies #[trigger] b.contains(x) by {
        lemma_in_middle(h, m, so + ph + t, x);
    }
    assert forall|x: Seq<char>| t.contains(x) implies #[trigger] b.contains(x) by {
        lemma_in_middle(h + m + so + ph, t, e, x);
    }
    assert forall|k: int| 0 <= k < c.sounds@.len() implies b.contains(
        lang_line("sounds"@, (#[trigger] c.sounds@[k]).0@, views(c.sounds@[k].1@)),
    ) by {
        lemma_sorted_lang_lines_contain("sounds"@, c.sounds@, k);
        lemma_in_middle(h + m, so, ph + t, lang_line("sounds"@, c.sounds@[k].0@, views(c.sounds@[k].1@)));
        assert(h + m + so + (ph + t) =~= b);
    }
    assert forall|k: int| 0 <= k < c.phrases@.len() implies b.contains(
        lang_line("phrases"@, (#[trigger] c.phrases@[k]).0@, views(c.phrases@[k].1@)),
    ) by {
        lemma_sorted_lang_lines_contain("phrases"@, c.phrases@, k);
        lemma_in_middle(h + m + so, ph, t, lang_line("phrases"@, c.phrases@[k].0@, views(c.phrases@[k].1@)));
    }
    assert forall|k: int| 0 <= k < c.slots@.len() implies b.contains(
        slot_line((#[trigger] c.slots@[k]).0@, c.slots@[k].1.entity@),
    ) by {
        assert(t.contains(slot_line(c.slots@[k].0@, c.slots@[k].1.entity@)));
    }
}

fn push_line(lines: &mut Vec<String>, key: &str, value: &str)
    ensures
        views(final(lines)@) == views(old(lines)@).push(key@ + value@),
{
    let l = concat2(key, value);
    let ghost prev = lines@;
    lines.push(l);
    assert(views(lines@) =~= views(prev).push(key@ + value@));
}

/// Lines for per-language lists, sorted by language.
fn push_lang_lines(lines: &mut Vec<String>, key: &str, l: &LangLists)
    ensures
        views(final(lines)@) == views(old(lines)@) + lang_lines(key@, sort_by_id(lang_contents(l@))),
{
    let mut sorted: Vec<HashEntry> = Vec::new();
    let mut i: usize = 0;
    assert(sorted@.map_values(|x: HashEntry| entry_content(x)) =~= sort_by_id(
        lang_contents(l@.subrange(0, 0)),
    ));
    while i < l.len()
        invariant
            0 <= i <= l@.len(),
            sorted@.map_values(|x: HashEntry| entry_content(x)) == sort_by_id(
                lang_contents(l@.subrange(0, i as int)),
            ),
        decreases l@.len() - i,
    {
        let e: HashEntry = (l[i].0.clone(), copy_strings(&l[i].1));
        proof {
            let sub = lang_contents(l@.subrange(0, i + 1));
            assert(sub.drop_last() =~= lang_contents(l@.subrange(0, i as int)));
            assert(sub.last() == entry_content(e));
        }
        insert_entry(&mut sorted, e);
        i = i + 1;
    }
    assert(l@.subrange(0, l@.len() as int) =~= l@);
    let ghost sv = sorted@.map_values(|x: HashEntry| entry_content(x));
    let ghost start = views(lines@);
    let mut k: usize = 0;
    while k < sorted.len()
        invariant
            0 <= k <= sorted@.len(),
            sv == sorted@.map_values(|x: HashEntry| entry_content(x)),
            views(lines@) == start + lang_lines(key@, sv.subrange(0, k as int)),
        decreases sorted@.len() - k,
    {
        let mut head = owned(key);
        head.append(".");
        head.append(sorted[k].0.as_str());
        head.append(" = ");
        let arr = esc_arr_exec(&sorted[k].1);
        proof {
            let sub = sv.subrange(0, k + 1);
            assert(sub.drop_last() =~= sv.subrange(0, k as int));
            assert(sub.last() == sv[k as int]);
            assert(views(sorted@[k as int].1@) == sv[k as int].1);
        }
        push_line(lines, head.as_str(), arr.as_str());
        k = k + 1;
    }
    assert(sv.subrange(0, sv.len() as int) =~= sv);
}

fn push_head(lines: &mut Vec<String>, cmd: &JCommand)
    ensures
        views(final(lines)@) == views(old(lines)@) + block_head(*cmd),
{
    let ghost a0 = views(lines@);
    push_line(lines, "[[commands]]", "");
    assert("[[commands]]"@ + ""@ == "[[commands]]"@) by {
        reveal_strlit("");
        assert("[[commands]]"@ + ""@ =~= "[[commands]]"@);
    }
    push_line(lines, "id = ", debug_quote(cmd.id.as_str()).as_str());
    push_line(lines, "type = ", debug_quote(cmd.cmd_type.as_str()).as_str());
    let ghost a1 = views(lines@);
    if !cmd.description.as_str().is_empty() {
        push_line(lines, "description = ", debug_quote(cmd.description.as_str()).as_str());
    }
    let ghost a2 = views(lines@);
    if !cmd.exe_path.as_str().is_empty() {
        push_line(lines, "exe_path = ", debug_quote(cmd.exe_path.as_str()).as_str());
    }
    let ghost a3 = views(lines@);
    if !cmd.exe_path.as_str().is_empty() || cmd.exe_args.len() > 0 {
        push_line(lines, "exe_args = ", esc_arr_exec(&cmd.exe_args).as_str());
    }
    let ghost a4 = views(lines@);
    if !cmd.cli_cmd.as_str().is_empty() {
        push_line(lines, "cli_cmd = ", debug_quote(cmd.cli_cmd.as_str()).as_str());
    }
    let ghost a5 = views(lines@);
    if cmd.cli_args.len() > 0 {
        push_line(lines, "cli_args = ", esc_arr_exec(&cmd.cli_args).as_str());
    }
    assert(views(lines@) =~= a0 + block_head(*cmd));
}

fn push_mid(lines: &mut Vec<String>, cmd: &JCommand)
    ensures
        views(final(lines)@) == views(old(lines)@) + block_mid(*cmd),
{
    let ghost a0 = views(lines@);
    if !cmd.script.as_str().is_empty() {
        push_line(lines, "script = ", debug_quote(cmd.script.as_str()).as_str());
    }
    if cmd.timeout > 0 {
        push_line(lines, "timeout = ", u64_to_decimal(cmd.timeout).as_str());
    }
    if !cmd.sandbox.as_str().is_empty() {
        push_line(lines, "sandbox = ", debug_quote(cmd.sandbox.as_str()).as_str());
    }
    assert(views(lines@) =~= a0 + block_mid(*cmd));
}

fn push_tail(lines: &mut Vec<String>, cmd: &JCommand)
    ensures
        views(final(lines)@) == views(old(lines)@) + block_tail(*cmd),
{
    let ghost a0 = views(lines@);
    if cmd.patterns.len() > 0 {
        push_line(lines, "patterns = ", esc_arr_exec(&cmd.patterns).as_str());
    }
    if !cmd.response_sound.as_str().is_empty() {
        push_line(lines, "response_sound = ", debug_quote(cmd.response_sound.as_str()).as_str());
    }
    let ghost a1 = views(lines@);
    if cmd.allow_chaining {
        push_line(lines, "allow_chaining = true", "");
        assert("allow_chaining = true"@ + ""@ =~= "allow_chaining = true"@) by {
            reveal_strlit("");
        }
    }
    let ghost a2 = views(lines@);
    let mut k: usize = 0;
    while k < cmd.slots.len()
        invariant
            0 <= k <= cmd.slots@.len(),
            views(lines@) == a2 + slot_lines(crate::commands::slots_view(cmd.slots@.subrange(0, k as int))),
        decreases cmd.slots@.len() - k,
    {
        let mut head = owned("slots.");
        head.append(debug_quote(cmd.slots[k].0.as_str()).as_str());
        head.append(".entity = ");
        let v = debug_quote(cmd.slots[k].1.entity.as_str());
        proof {
            let sub = crate::commands::slots_view(cmd.slots@.subrange(0, k + 1));
            assert(sub.drop_last() =~= crate::commands::slots_view(cmd.slots@.subrange(0, k as int)));
            assert(sub.last() == (cmd.slots@[k as int].0@, cmd.slots@[k as int].1.entity@));
        }
        push_line(lines, head.as_str(), v.as_str());
        k = k + 1;
    }
    assert(cmd.slots@.subrange(0, cmd.slots@.len() as int) =~= cmd.slots@);
    assert(views(lines@) =~= a0 + block_tail(*cmd));
}

/// Converts a command to a readable `[[commands]]` TOML block.
pub fn cmd_to_toml_block(cmd: &JCommand) -> (r: String)
    ensures
        r@ == join(block_lines(*cmd), "\n"@),
        writes_every_field(*cmd, block_lines(*cmd)),
{
    proof {
        lemma_block_writes_every_field(*cmd);
    }
    let mut lines: Vec<String> = Vec::new();
    assert(views(lines@) =~= Seq::<Seq<char>>::empty());
    push_head(&mut lines, cmd);
    push_mid(&mut lines, cmd);
    push_lang_lines(&mut lines, "sounds", &cmd.sounds);
    push_lang_lines(&mut lines, "phrases", &cmd.phrases);
    push_tail(&mut lines, cmd);
    assert(views(lines@) =~= block_lines(*cmd));
    join_strings(&lines, "\n")
}

/// The type-dependent lines of a new command.
pub open spec fn input_type_lines(c: NewCommandInput) -> Seq<Seq<char>> {
    if c.cmd_type@ == "exe"@ {
        seq!["exe_path = "@ + debug_quoted(c.exe_path@), "exe_args = "@ + esc_arr(views(c.exe_args@))]
    } else if c.cmd_type@ == "url"@ {
        seq!["cli_cmd = "@ + debug_quoted(c.exe_path@)]
    } else if c.cmd_type@ == "cli"@ {
        seq!["cli_cmd = "@ + debug_quoted(c.cli_cmd@)] + opt_line(
            c.cli_args@.len() > 0,
            "cli_args = "@ + esc_arr(views(c.cli_args@)),
        )
    } else {
        Seq::empty()
    }
}

/// The sounds of a new command: its Russian sounds, or the default
/// confirmations when there are none.
pub open spec fn input_sounds(c: NewCommandInput) -> Seq<Seq<char>> {
    if c.sounds_ru@.len() == 0 {
        seq!["ok1"@, "ok2"@, "ok3"@]
    } else {
        views(c.sounds_ru@)
    }
}

/// The lines of the TOML block of a new command.
pub open spec fn input_lines(c: NewCommandInput) -> Seq<Seq<char>> {
    seq![
        "[[commands]]"@,
        "id = "@ + debug_quoted(c.id@),
        "type = "@ + debug_quoted(c.cmd_type@),
    ] + opt_line(c.description@.len() > 0, "description = "@ + debug_quoted(c.description@))
        + input_type_lines(c) + seq!["sounds.ru = "@ + esc_arr(input_sounds(c))] + opt_line(
        c.phrases_ru@.len() > 0,
        "phrases.ru = "@ + esc_arr(views(c.phrases_ru@)),
    ) + opt_line(c.phrases_en@.len() > 0, "phrases.en = "@ + esc_arr(views(c.phrases_en@)))
        + opt_line(c.patterns@.len() > 0, "patterns = "@ + esc_arr(views(c.patterns@))) + opt_line(
        c.response_sound@.len() > 0,
        "response_sound = "@ + debug_quoted(c.response_sound@),
    )
}

fn push_input_type_lines(lines: &mut Vec<String>, cmd: &NewCommandInput)
    ensures
        views(final(lines)@) == views(old(lines)@) + input_type_lines(*cmd),
{
    let ghost a0 = views(lines@);
    let t = cmd.cmd_type.as_str();
    if str_eq(t, "exe") {
        push_line(lines, "exe_path = ", debug_quote(cmd.exe_path.as_str()).as_str());
        push_line(lines, "exe_args = ", esc_arr_exec(&cmd.exe_args).as_str());
    } else if str_eq(t, "url") {
        push_line(lines, "cli_cmd = ", debug_quote(cmd.exe_path.as_str()).as_str());
    } else if str_eq(t, "cli") {
        push_line(lines, "cli_cmd = ", debug_quote(cmd.cli_cmd.as_str()).as_str());
        if cmd.cli_args.len() > 0 {
            push_line(lines, "cli_args = ", esc_arr_exec(&cmd.cli_args).as_str());
        }
    }
    assert(views(lines@) =~= a0 + input_type_lines(*cmd));
}

fn push_input_tail(lines: &mut Vec<String>, cmd: &NewCommandInput)
    ensures
        views(final(lines)@) == views(old(lines)@) + seq!["sounds.ru = "@ + esc_arr(input_sounds(*cmd))]
            + opt_line(cmd.phrases_ru@.len() > 0, "phrases.ru = "@ + esc_arr(views(cmd.phrases_ru@)))
            + opt_line(cmd.phrases_en@.len() > 0, "phrases.en = "@ + esc_arr(views(cmd.phrases_en@)))
            + opt_line(cmd.patterns@.len() > 0, "patterns = "@ + esc_arr(views(cmd.patterns@)))
            + opt_line(
            cmd.response_sound@.len() > 0,
            "response_sound = "@ + debug_quoted(cmd.response_sound@),
        ),
{
    let ghost a0 = views(lines@);
    let sounds = if cmd.sounds_ru.len() == 0 {
        let d = vec![owned("ok1"), owned("ok2"), owned("ok3")];
        assert(views(d@) =~= seq!["ok1"@, "ok2"@, "ok3"@]);
        d
    } else {
        copy_strings(&cmd.sounds_ru)
    };
    push_line(lines, "sounds.ru = ", esc_arr_exec(&sounds).as_str());
    if cmd.phrases_ru.len() > 0 {
        push_line(lines, "phrases.ru = ", esc_arr_exec(&cmd.phrases_ru).as_str());
    }
    if cmd.phrases_en.len() > 0 {
        push_line(lines, "phrases.en = ", esc_arr_exec(&cmd.phrases_en).as_str());
    }
    if cmd.patterns.len() > 0 {
        push_line(lines, "patterns = ", esc_arr_exec(&cmd.patterns).as_str());
    }
    if !cmd.response_sound.as_str().is_empty() {
        push_line(lines, "response_sound = ", debug_quote(cmd.response_sound.as_str()).as_str());
    }
    assert(views(lines@) =~= a0 + seq!["sounds.ru = "@ + esc_arr(input_sounds(*cmd))] + opt_line(
        cmd.phrases_ru@.len() > 0,
        "phrases.ru = "@ + esc_arr(views(cmd.phrases_ru@)),
    ) + opt_line(cmd.phrases_en@.len() > 0, "phrases.en = "@ + esc_arr(views(cmd.phrases_en@)))
        + opt_line(cmd.patterns@.len() > 0, "patterns = "@ + esc_arr(views(cmd.patterns@))) + opt_line(
        cmd.response_sound@.len() > 0,
        "response_sound = "@ + debug_quoted(cmd.response_sound@),
    ));
}

/// The first lines of a new command's block.
pub open spec fn input_head(c: NewCommandInput) -> Seq<Seq<char>> {
    seq![
        "[[commands]]"@,
        "id = "@ + debug_quoted(c.id@),
        "type = "@ + debug_quoted(c.cmd_type@),
    ] + opt_line(c.description@.len() > 0, "description = "@ + debug_quoted(c.description@))
}

fn push_input_head(lines: &mut Vec<String>, cmd: &NewCommandInput)
    ensures
        views(final(lines)@) == views(old(lines)@) + input_head(*cmd),
{
    let ghost a0 = views(lines@);
    push_line(lines, "[[commands]]", "");
    assert("[[commands]]"@ + ""@ == "[[commands]]"@) by {
        reveal_strlit("");
        assert("[[commands]]"@ + ""@ =~= "[[commands]]"@);
    }
    push_line(lines, "id = ", debug_quote(cmd.id.as_str()).as_str());
    push_line(lines, "type = ", debug_quote(cmd.cmd_type.as_str()).as_str());
    if !cmd.description.as_str().is_empty() {
        push_line(lines, "description = ", debug_quote(cmd.description.as_str()).as_str());
    }
    assert(views(lines@) =~= a0 + input_head(*cmd));
}

/// Builds a fresh `[[commands]]` TOML block from editor input, ending with a
/// newline.
pub fn build_toml(cmd: &NewCommandInput) -> (r: String)
    ensures
        r@ == join(input_lines(*cmd), "\n"@) + "\n"@,
{
    let mut lines: Vec<String> = Vec::new();
    assert(views(lines@) =~= Seq::<Seq<char>>::empty());
    push_input_head(&mut lines, cmd);
    push_input_type_lines(&mut lines, cmd);
    push_input_tail(&mut lines, cmd);
    assert(views(lines@) =~= input_lines(*cmd));
    let mut r = join_strings(&lines, "\n");
    r.append("\n");
    r
}

/// The text of each command's block.
pub open spec fn block_texts(cmds: Seq<JCommand>) -> Seq<Seq<char>> {
    cmds.map_values(|c: JCommand| join(block_lines(c), "\n"@))
}

/// The contents of a pack file: the commands' blocks separated by a blank
/// line, ending with a newline.
pub fn commands_file_text(commands: &Vec<JCommand>) -> (r: String)
    ensures
        r@ == join(block_texts(commands@), "\n\n"@) + "\n"@,
        forall|k: int|
            0 <= k < commands@.len() ==> writes_every_field(
                #[trigger] commands@[k],
                block_lines(commands@[k]),
            ),
{
    proof {
        assert forall|k: int| 0 <= k < commands@.len() implies writes_every_field(
            #[trigger] commands@[k],
            block_lines(commands@[k]),
        ) by {
            lemma_block_writes_every_field(commands@[k]);
        }
    }
    let mut blocks: Vec<String> = Vec::new();
    let mut i: usize = 0;
    while i < commands.len()
        invariant
            0 <= i <= commands@.len(),
            views(blocks@) == block_texts(commands@.take(i as int)),
        decreases commands@.len() - i,
    {
        let ghost before = blocks@;
        blocks.push(cmd_to_toml_block(&commands[i]));
        proof {
            assert(views(blocks@) =~= views(before).push(join(block_lines(commands@[i as int]), "\n"@)));
            assert(block_texts(commands@.take(i + 1)) =~= block_texts(commands@.take(i as int)).push(
                join(block_lines(commands@[i as int]), "\n"@),
            ));
        }
        i = i + 1;
    }
    assert(commands@.take(commands@.len() as int) =~= commands@);
    let body = join_strings(&blocks, "\n\n");
    concat2(body.as_str(), "\n")
}

} // verus!
