//! Voice commands: their description, lookup by id, merging of command
//! packs, and what executing a command amounts to.
use vstd::prelude::*;
use crate::sandbox::{sandbox_from_name, LuaError, SandboxLevel};
use crate::text::{concat2, copy_string, copy_strings, owned, str_eq, trim, trim_str, views};

verus! {

/// A named slot a command can extract from the spoken phrase.
#[derive(Debug, Clone, PartialEq)]
pub struct SlotDefinition {
    /// The entity label the slot extractor looks for.
    pub entity: String,
}

/// Per-language string lists: pairs of a language code and its items.
pub type LangLists = Vec<(String, Vec<String>)>;

/// One voice command of a command pack.
#[derive(Debug, Clone, PartialEq)]
pub struct JCommand {
    pub id: String,
    pub cmd_type: String,
    pub description: String,
    pub exe_path: String,
    pub exe_args: Vec<String>,
    pub cli_cmd: String,
    pub cli_args: Vec<String>,
    pub script: String,
    pub timeout: u64,
    pub sandbox: String,
    pub sounds: LangLists,
    pub phrases: LangLists,
    pub patterns: Vec<String>,
    pub response_sound: String,
    pub slots: Vec<(String, SlotDefinition)>,
    pub allow_chaining: bool,
}

/// A command pack: the folder it was read from and its commands.
#[derive(Debug, Clone, PartialEq)]
pub struct JCommandsList {
    pub path: String,
    pub commands: Vec<JCommand>,
}

/// The content of per-language lists.
pub open spec fn lang_view(l: Seq<(String, Vec<String>)>) -> Seq<(Seq<char>, Seq<Seq<char>>)> {
    l.map_values(|e: (String, Vec<String>)| (e.0@, views(e.1@)))
}

/// The content of slot definitions.
pub open spec fn slots_view(l: Seq<(String, SlotDefinition)>) -> Seq<(Seq<char>, Seq<char>)> {
    l.map_values(|e: (String, SlotDefinition)| (e.0@, e.1.entity@))
}

/// The content of a command.
pub struct JCommandView {
    pub id: Seq<char>,
    pub cmd_type: Seq<char>,
    pub description: Seq<char>,
    pub exe_path: Seq<char>,
    pub exe_args: Seq<Seq<char>>,
    pub cli_cmd: Seq<char>,
    pub cli_args: Seq<Seq<char>>,
    pub script: Seq<char>,
    pub timeout: u64,
    pub sandbox: Seq<char>,
    pub sounds: Seq<(Seq<char>, Seq<Seq<char>>)>,
    pub phrases: Seq<(Seq<char>, Seq<Seq<char>>)>,
    pub patterns: Seq<Seq<char>>,
    pub response_sound: Seq<char>,
    pub slots: Seq<(Seq<char>, Seq<char>)>,
    pub allow_chaining: bool,
}

impl View for JCommand {
    type V = JCommandView;

    open spec fn view(&self) -> JCommandView {
        JCommandView {
            id: self.id@,
            cmd_type: self.cmd_type@,
            description: self.description@,
            exe_path: self.exe_path@,
            exe_args: views(self.exe_args@),
            cli_cmd: self.cli_cmd@,
            cli_args: views(self.cli_args@),
            script: self.script@,
            timeout: self.timeout,
            sandbox: self.sandbox@,
            sounds: lang_view(self.sounds@),
            phrases: lang_view(self.phrases@),
            patterns: views(self.patterns@),
            response_sound: self.response_sound@,
            slots: slots_view(self.slots@),
            allow_chaining: self.allow_chaining,
        }
    }
}

/// No key occurs twice: per-language lists and slot definitions stand for
/// maps from a language, or a slot name, to its value.
pub open spec fn keys_once<T>(l: Seq<(Seq<char>, T)>) -> bool {
    forall|i: int, j: int| #![trigger l[i], l[j]] 0 <= i < j < l.len() ==> l[i].0 != l[j].0
}

impl JCommandView {
    /// Each language of the sounds and phrases, and each slot name, occurs
    /// once.
    pub open spec fn keyed_once(self) -> bool {
        keys_once(self.sounds) && keys_once(self.phrases) && keys_once(self.slots)
    }
}

/// The content of a sequence of commands.
pub open spec fn command_views(s: Seq<JCommand>) -> Seq<JCommandView> {
    s.map_values(|c: JCommand| c@)
}

/// The content of a command pack.
pub struct JCommandsListView {
    pub path: Seq<char>,
    pub commands: Seq<JCommandView>,
}

impl View for JCommandsList {
    type V = JCommandsListView;

    open spec fn view(&self) -> JCommandsListView {
        JCommandsListView { path: self.path@, commands: command_views(self.commands@) }
    }
}

/// The content of a sequence of command packs.
pub open spec fn pack_views(s: Seq<JCommandsList>) -> Seq<JCommandsListView> {
    s.map_values(|p: JCommandsList| p@)
}

/// A copy of per-language lists.
pub fn copy_lang_lists(l: &LangLists) -> (r: LangLists)
    ensures
        lang_view(r@) == lang_view(l@),
{
    let mut out: LangLists = Vec::new();
    let mut i: usize = 0;
    while i < l.len()
        invariant
            0 <= i <= l@.len(),
            out@.len() == i,
            forall|k: int| 0 <= k < i ==> (#[trigger] out@[k]).0@ == l@[k].0@ && out@[k].1@ == l@[k].1@,
        decreases l@.len() - i,
    {
        let e = (copy_string(&l[i].0), copy_strings(&l[i].1));
        out.push(e);
        i = i + 1;
    }
    assert(lang_view(out@) =~= lang_view(l@));
    out
}

impl SlotDefinition {
    /// A copy of the definition.
    pub fn duplicate(&self) -> (r: SlotDefinition)
        ensures
            r.entity@ == self.entity@,
    {
        SlotDefinition { entity: copy_string(&self.entity) }
    }
}

/// A copy of slot definitions.
pub fn copy_slots(l: &Vec<(String, SlotDefinition)>) -> (r: Vec<(String, SlotDefinition)>)
    ensures
        slots_view(r@) == slots_view(l@),
{
    let mut out: Vec<(String, SlotDefinition)> = Vec::new();
    let mut i: usize = 0;
    while i < l.len()
        invariant
            0 <= i <= l@.len(),
            out@.len() == i,
            forall|k: int|
                0 <= k < i ==> (#[trigger] out@[k]).0@ == l@[k].0@ && out@[k].1.entity@
                    == l@[k].1.entity@,
        decreases l@.len() - i,
    {
        let e = (copy_string(&l[i].0), l[i].1.duplicate());
        out.push(e);
        i = i + 1;
    }
    assert(slots_view(out@) =~= slots_view(l@));
    out
}

/// The items listed for `lang`: those of the first entry with that language,
/// or none.
pub open spec fn lang_entry(list: Seq<(String, Vec<String>)>, lang: Seq<char>) -> Seq<String>
    decreases list.len(),
{
    if list.len() == 0 {
        Seq::empty()
    } else if list[0].0@ == lang {
        list[0].1@
    } else {
        lang_entry(list.drop_first(), lang)
    }
}

/// Where each language occurs once, the items looked up for a language are
/// those of its entry.
pub proof fn lemma_lang_entry_at(list: Seq<(String, Vec<String>)>, k: int)
    requires
        keys_once(lang_view(list)),
        0 <= k < list.len(),
    ensures
        lang_entry(list, list[k].0@) == list[k].1@,
    decreases k,
{
    if k > 0 {
        let d = list.drop_first();
        assert(lang_view(list)[0].0 == list[0].0@ && lang_view(list)[k].0 == list[k].0@);
        assert(list[0].0@ != list[k].0@);
        assert forall|i: int, j: int| #![trigger lang_view(d)[i], lang_view(d)[j]]
            0 <= i < j < lang_view(d).len() implies lang_view(d)[i].0 != lang_view(d)[j].0 by {
            assert(lang_view(d)[i] == lang_view(list)[i + 1]);
            assert(lang_view(d)[j] == lang_view(list)[j + 1]);
        }
        lemma_lang_entry_at(d, k - 1);
        assert(d[k - 1] == list[k]);
    }
}

/// Returns the items listed for `lang`.
pub fn lang_lookup(list: &LangLists, lang: &str) -> (r: Vec<String>)
    ensures
        r@ == lang_entry(list@, lang@),
{
    let n = list.len();
    let mut i: usize = 0;
    assert(list@.subrange(0, n as int) =~= list@);
    while i < n
        invariant
            n == list@.len(),
            0 <= i <= n,
            lang_entry(list@, lang@) == lang_entry(list@.subrange(i as int, n as int), lang@),
        decreases n - i,
    {
        let ghost rest = list@.subrange(i as int, n as int);
        if str_eq(list[i].0.as_str(), lang) {
            return copy_strings(&list[i].1);
        }
        assert(rest.drop_first() =~= list@.subrange(i + 1, n as int));
        i = i + 1;
    }
    Vec::new()
}

impl JCommand {
    /// A command of the given id and type with every other field empty.
    pub fn new(id: &str, cmd_type: &str) -> (r: JCommand)
        ensures
            r.id@ == id@,
            r.cmd_type@ == cmd_type@,
            r.description@.len() == 0,
            r.exe_path@.len() == 0,
            r.exe_args@.len() == 0,
            r.cli_cmd@.len() == 0,
            r.cli_args@.len() == 0,
            r.script@.len() == 0,
            r.timeout == 0,
            r.sandbox@.len() == 0,
            r.sounds@.len() == 0,
            r.phrases@.len() == 0,
            r.patterns@.len() == 0,
            r.response_sound@.len() == 0,
            r.slots@.len() == 0,
            !r.allow_chaining,
            r@.keyed_once(),
    {
        JCommand {
            id: owned(id),
            cmd_type: owned(cmd_type),
            description: String::new(),
            exe_path: String::new(),
            exe_args: Vec::new(),
            cli_cmd: String::new(),
            cli_args: Vec::new(),
            script: String::new(),
            timeout: 0,
            sandbox: String::new(),
            sounds: Vec::new(),
            phrases: Vec::new(),
            patterns: Vec::new(),
            response_sound: String::new(),
            slots: Vec::new(),
            allow_chaining: false,
        }
    }

    /// A virtual command standing for a script, so that intent recognition
    /// learns the script's phrases.
    pub fn new_script_ref(id: String, phrases: LangLists, sounds: LangLists) -> (r: JCommand)
        ensures
            r.id == id,
            r.cmd_type@ == "script_ref"@,
            r.phrases == phrases,
            r.sounds == sounds,
            r.patterns@.len() == 0,
            r.slots@.len() == 0,
            !r.allow_chaining,
            keys_once(lang_view(phrases@)) && keys_once(lang_view(sounds@)) ==> r@.keyed_once(),
    {
        let mut c = JCommand::new("", "script_ref");
        c.id = id;
        c.phrases = phrases;
        c.sounds = sounds;
        c
    }

    /// A field-by-field copy.
    pub fn duplicate(&self) -> (r: JCommand)
        ensures
            r@ == self@,
    {
        JCommand {
            id: copy_string(&self.id),
            cmd_type: copy_string(&self.cmd_type),
            description: copy_string(&self.description),
            exe_path: copy_string(&self.exe_path),
            exe_args: copy_strings(&self.exe_args),
            cli_cmd: copy_string(&self.cli_cmd),
            cli_args: copy_strings(&self.cli_args),
            script: copy_string(&self.script),
            timeout: self.timeout,
            sandbox: copy_string(&self.sandbox),
            sounds: copy_lang_lists(&self.sounds),
            phrases: copy_lang_lists(&self.phrases),
            patterns: copy_strings(&self.patterns),
            response_sound: copy_string(&self.response_sound),
            slots: copy_slots(&self.slots),
            allow_chaining: self.allow_chaining,
        }
    }

    /// The trigger phrases of the command in the given language.
    pub fn get_phrases(&self, lang: &str) -> (r: Vec<String>)
        ensures
            r@ == lang_entry(self.phrases@, lang@),
    {
        lang_lookup(&self.phrases, lang)
    }

    /// The response sounds of the command in the given language.
    pub fn get_sounds(&self, lang: &str) -> (r: Vec<String>)
        ensures
            r@ == lang_entry(self.sounds@, lang@),
    {
        lang_lookup(&self.sounds, lang)
    }
}

impl JCommandsList {
    /// A deep copy of the pack.
    pub fn duplicate(&self) -> (r: JCommandsList)
        ensures
            r@ == self@,
    {
        let mut cmds: Vec<JCommand> = Vec::new();
        let mut i: usize = 0;
        while i < self.commands.len()
            invariant
                0 <= i <= self.commands@.len(),
                cmds@.len() == i,
                forall|k: int| 0 <= k < i ==> (#[trigger] cmds@[k])@ == self.commands@[k]@,
            decreases self.commands@.len() - i,
        {
            let c = self.commands[i].duplicate();
            cmds.push(c);
            i = i + 1;
        }
        assert(command_views(cmds@) =~= command_views(self.commands@));
        JCommandsList { path: copy_string(&self.path), commands: cmds }
    }
}

/// A deep copy of a sequence of packs.
pub fn copy_packs(packs: &[JCommandsList]) -> (r: Vec<JCommandsList>)
    ensures
        pack_views(r@) == pack_views(packs@),
{
    let mut out: Vec<JCommandsList> = Vec::new();
    let mut i: usize = 0;
    while i < packs.len()
        invariant
            0 <= i <= packs@.len(),
            out@.len() == i,
            forall|k: int| 0 <= k < i ==> (#[trigger] out@[k])@ == packs@[k]@,
        decreases packs@.len() - i,
    {
        let p = packs[i].duplicate();
        out.push(p);
        i = i + 1;
    }
    assert(pack_views(out@) =~= pack_views(packs@));
    out
}

// ---------------------------------------------------------------------------
// Lookup
// ---------------------------------------------------------------------------

/// `(i, j)` names a command: the `j`-th command of the `i`-th pack.
pub open spec fn cmd_at(lists: Seq<JCommandsList>, i: int, j: int) -> bool {
    0 <= i < lists.len() && 0 <= j < lists[i].commands@.len()
}

/// `(i, j)` comes before `(i2, j2)` in pack order.
pub open spec fn before(i2: int, j2: int, i: int, j: int) -> bool {
    i2 < i || (i2 == i && j2 < j)
}

/// Some command of the packs has the id.
pub open spec fn has_cmd_id(lists: Seq<JCommandsList>, id: Seq<char>) -> bool {
    exists|i: int, j: int| cmd_at(lists, i, j) && (#[trigger] lists[i].commands@[j]).id@ == id
}

/// `(i, j)` is the first command, in pack order, with the id.
pub open spec fn first_with_id(lists: Seq<JCommandsList>, id: Seq<char>, i: int, j: int) -> bool {
    &&& cmd_at(lists, i, j)
    &&& lists[i].commands@[j].id@ == id
    &&& forall|i2: int, j2: int|
        cmd_at(lists, i2, j2) && before(i2, j2, i, j) ==> (#[trigger] lists[i2].commands@[j2]).id@
            != id
}

/// Look up a command by its id: the first in pack order, with its pack's path.
pub fn get_command_by_id<'a>(commands: &'a [JCommandsList], id: &str) -> (r: Option<
    (&'a String, &'a JCommand),
>)
    ensures
        r is None <==> !has_cmd_id(commands@, id@),
        r matches Some((p, c)) ==> exists|i: int, j: int|
            first_with_id(commands@, id@, i, j) && *p == commands@[i].path && *c
                == commands@[i].commands@[j],
{
    let n = commands.len();
    let mut i: usize = 0;
    while i < n
        invariant
            n == commands@.len(),
            0 <= i <= n,
            forall|i2: int, j2: int|
                cmd_at(commands@, i2, j2) && i2 < i ==> (#[trigger] commands@[i2].commands@[j2]).id@
                    != id@,
        decreases n - i,
    {
        let list = &commands[i];
        let m = list.commands.len();
        let mut j: usize = 0;
        while j < m
            invariant
                n == commands@.len(),
                0 <= i < n,
                *list == commands@[i as int],
                m == list.commands@.len(),
                0 <= j <= m,
                forall|i2: int, j2: int|
                    cmd_at(commands@, i2, j2) && before(i2, j2, i as int, j as int)
                        ==> (#[trigger] commands@[i2].commands@[j2]).id@ != id@,
            decreases m - j,
        {
            if str_eq(list.commands[j].id.as_str(), id) {
                assert(first_with_id(commands@, id@, i as int, j as int));
                return Some((&list.path, &list.commands[j]));
            }
            j = j + 1;
        }
        i = i + 1;
    }
    None
}

/// The paths of all packs, in order.
pub fn list_paths<'a>(commands: &'a [JCommandsList]) -> (r: Vec<&'a str>)
    ensures
        r@.len() == commands@.len(),
        forall|i: int| 0 <= i < r@.len() ==> (#[trigger] r@[i])@ == commands@[i].path@,
{
    let mut out: Vec<&'a str> = Vec::new();
    let mut i: usize = 0;
    while i < commands.len()
        invariant
            0 <= i <= commands@.len(),
            out@.len() == i,
            forall|k: int| 0 <= k < i ==> (#[trigger] out@[k])@ == commands@[k].path@,
        decreases commands@.len() - i,
    {
        out.push(commands[i].path.as_str());
        i = i + 1;
    }
    out
}

// ---------------------------------------------------------------------------
// Merging command packs
// ---------------------------------------------------------------------------

/// A pack with the folder name it is known by.
pub type NamedPack = (String, JCommandsList);

/// Adds a pack to the merged list: a pack with the same name is replaced in
/// place, a new name is appended.
pub open spec fn merge_one(acc: Seq<NamedPack>, p: NamedPack) -> Seq<NamedPack> {
    if exists|k: int| 0 <= k < acc.len() && (#[trigger] acc[k]).0@ == p.0@ {
        acc.update(choose|k: int| 0 <= k < acc.len() && (#[trigger] acc[k]).0@ == p.0@, p)
    } else {
        acc.push(p)
    }
}

/// Merges packs in order; a later pack overrides an earlier one of the same
/// name.
pub open spec fn merge_all(acc: Seq<NamedPack>, packs: Seq<NamedPack>) -> Seq<NamedPack>
    decreases packs.len(),
{
    if packs.len() == 0 {
        acc
    } else {
        merge_all(merge_one(acc, packs[0]), packs.drop_first())
    }
}

/// Names in the merged list are distinct.
pub open spec fn distinct_names(s: Seq<NamedPack>) -> bool {
    forall|a: int, b: int| 0 <= a < b < s.len() ==> (#[trigger] s[a]).0@ != (#[trigger] s[b]).0@
}

/// The packs of a merged list, without their names.
pub open spec fn pack_values(s: Seq<NamedPack>) -> Seq<JCommandsList> {
    s.map_values(|p: NamedPack| p.1)
}

proof fn lemma_merge_one_distinct(acc: Seq<NamedPack>, p: NamedPack)
    requires
        distinct_names(acc),
    ensures
        distinct_names(merge_one(acc, p)),
{
    let r = merge_one(acc, p);
    if exists|k: int| 0 <= k < acc.len() && (#[trigger] acc[k]).0@ == p.0@ {
        let k = choose|k: int| 0 <= k < acc.len() && (#[trigger] acc[k]).0@ == p.0@;
        assert forall|a: int, b: int| 0 <= a < b < r.len() implies (#[trigger] r[a]).0@ != (
        #[trigger] r[b]).0@ by {
            if a == k {
                assert(acc[b].0@ != acc[k].0@);
            } else if b == k {
                assert(acc[a].0@ != acc[k].0@);
            }
        }
    } else {
        assert forall|a: int, b: int| 0 <= a < b < r.len() implies (#[trigger] r[a]).0@ != (
        #[trigger] r[b]).0@ by {
            if b == acc.len() {
                assert(r[a] == acc[a]);
            }
        }
    }
}

/// Adds one pack to the merged list.
fn merge_pack(acc: &mut Vec<NamedPack>, p: NamedPack)
    requires
        distinct_names(old(acc)@),
    ensures
        final(acc)@ == merge_one(old(acc)@, p),
        distinct_names(final(acc)@),
{
    proof {
        lemma_merge_one_distinct(acc@, p);
    }
    let ghost before = acc@;
    let n = acc.len();
    let mut k: usize = 0;
    while k < n && !str_eq(acc[k].0.as_str(), p.0.as_str())
        invariant
            n == acc@.len(),
            before == acc@,
            0 <= k <= n,
            forall|j: int| 0 <= j < k ==> (#[trigger] acc@[j]).0@ != p.0@,
        decreases n - k,
    {
        k = k + 1;
    }
    if k < n {
        proof {
            let c = choose|c: int| 0 <= c < before.len() && (#[trigger] before[c]).0@ == p.0@;
            if c < k {
                assert(before[c].0@ != p.0@);
            } else if c > k {
                assert(before[k as int].0@ != before[c].0@);
            }
            assert(c == k);
        }
        acc.set(k, p);
    } else {
        acc.push(p);
    }
}

/// Merges bundled packs with user packs. A user pack overrides a bundled
/// pack of the same folder name; packs of distinct names are all kept.
pub fn merge_packs(bundled: Vec<NamedPack>, user: Vec<NamedPack>) -> (r: Vec<JCommandsList>)
    ensures
        r@ == pack_values(merge_all(Seq::empty(), bundled@ + user@)),
{
    let mut acc: Vec<NamedPack> = Vec::new();
    let mut src = bundled;
    let mut u = user;
    let ghost packs = src@ + u@;
    src.append(&mut u);
    assert(src@ =~= packs);
    let n = src.len();
    let mut i: usize = 0;
    assert(acc@ =~= Seq::<NamedPack>::empty());
    assert(packs.subrange(0, n as int) =~= packs);
    while src.len() > 0
        invariant
            i + src@.len() == n,
            n == packs.len(),
            0 <= i <= n,
            distinct_names(acc@),
            src@ == packs.subrange(i as int, n as int),
            merge_all(Seq::empty(), packs) == merge_all(acc@, src@),
        decreases src@.len(),
    {
        let ghost tail = src@;
        let p = src.remove(0);
        proof {
            assert(tail[0] == p);
            assert(tail.drop_first() =~= src@);
            assert(src@ =~= packs.subrange(i + 1, n as int));
        }
        merge_pack(&mut acc, p);
        i = i + 1;
    }
    let mut out: Vec<JCommandsList> = Vec::new();
    let ghost merged = acc@;
    while acc.len() > 0
        invariant
            out@.len() + acc@.len() == merged.len(),
            forall|k: int| 0 <= k < out@.len() ==> out@[k] == merged[k].1,
            acc@ == merged.subrange(out@.len() as int, merged.len() as int),
        decreases acc@.len(),
    {
        let ghost a = acc@;
        let p = acc.remove(0);
        proof {
            assert(a[0] == p);
            assert(acc@ =~= merged.subrange(out@.len() + 1 as int, merged.len() as int));
        }
        out.push(p.1);
    }
    assert(out@ =~= pack_values(merged));
    out
}

/// The entry of a name-distinct list with the given name, if any.
pub open spec fn entry_named(s: Seq<NamedPack>, name: Seq<char>) -> Option<NamedPack> {
    if exists|k: int| 0 <= k < s.len() && (#[trigger] s[k]).0@ == name {
        Some(s[choose|k: int| 0 <= k < s.len() && (#[trigger] s[k]).0@ == name])
    } else {
        None
    }
}

/// The last pack of `s` with the given name, if any.
pub open spec fn last_named(s: Seq<NamedPack>, name: Seq<char>) -> Option<NamedPack>
    decreases s.len(),
{
    if s.len() == 0 {
        None
    } else {
        let later = last_named(s.drop_first(), name);
        if later is Some {
            later
        } else if s[0].0@ == name {
            Some(s[0])
        } else {
            None
        }
    }
}

proof fn lemma_entry_named_at(s: Seq<NamedPack>, k: int)
    requires
        distinct_names(s),
        0 <= k < s.len(),
    ensures
        entry_named(s, s[k].0@) == Some(s[k]),
{
    let c = choose|c: int| 0 <= c < s.len() && (#[trigger] s[c]).0@ == s[k].0@;
    if c < k {
        assert(s[c].0@ != s[k].0@);
    } else if c > k {
        assert(s[k].0@ != s[c].0@);
    }
}

proof fn lemma_merge_one_entry(acc: Seq<NamedPack>, p: NamedPack, name: Seq<char>)
    requires
        distinct_names(acc),
    ensures
        entry_named(merge_one(acc, p), name) == (if p.0@ == name {
            Some(p)
        } else {
            entry_named(acc, name)
        }),
{
    lemma_merge_one_distinct(acc, p);
    let r = merge_one(acc, p);
    if exists|k: int| 0 <= k < acc.len() && (#[trigger] acc[k]).0@ == p.0@ {
        let c = choose|k: int| 0 <= k < acc.len() && (#[trigger] acc[k]).0@ == p.0@;
        assert(r == acc.update(c, p));
        if p.0@ == name {
            lemma_entry_named_at(r, c);
        } else {
            if exists|k: int| 0 <= k < acc.len() && (#[trigger] acc[k]).0@ == name {
                let d = choose|k: int| 0 <= k < acc.len() && (#[trigger] acc[k]).0@ == name;
                lemma_entry_named_at(acc, d);
                assert(d != c);
                assert(r[d] == acc[d]);
                lemma_entry_named_at(r, d);
            } else {
                assert forall|k: int| 0 <= k < r.len() implies (#[trigger] r[k]).0@ != name by {
                    if k != c {
                        assert(r[k] == acc[k]);
                    }
                }
            }
        }
    } else {
        assert(r == acc.push(p));
        if p.0@ == name {
            lemma_entry_named_at(r, acc.len() as int);
        } else {
            if exists|k: int| 0 <= k < acc.len() && (#[trigger] acc[k]).0@ == name {
                let d = choose|k: int| 0 <= k < acc.len() && (#[trigger] acc[k]).0@ == name;
                lemma_entry_named_at(acc, d);
                assert(r[d] == acc[d]);
                lemma_entry_named_at(r, d);
            } else {
                assert forall|k: int| 0 <= k < r.len() implies (#[trigger] r[k]).0@ != name by {
                    if k < acc.len() {
                        assert(r[k] == acc[k]);
                    }
                }
            }
        }
    }
}

proof fn lemma_merge_all_entry(acc: Seq<NamedPack>, packs: Seq<NamedPack>, name: Seq<char>)
    requires
        distinct_names(acc),
    ensures
        distinct_names(merge_all(acc, packs)),
        entry_named(merge_all(acc, packs), name) == (if last_named(packs, name) is Some {
            last_named(packs, name)
        } else {
            entry_named(acc, name)
        }),
    decreases packs.len(),
{
    if packs.len() > 0 {
        lemma_merge_one_distinct(acc, packs[0]);
        lemma_merge_one_entry(acc, packs[0], name);
        lemma_merge_all_entry(merge_one(acc, packs[0]), packs.drop_first(), name);
    }
}

proof fn lemma_last_named_append(b: Seq<NamedPack>, u: Seq<NamedPack>, name: Seq<char>)
    ensures
        last_named(b + u, name) == (if last_named(u, name) is Some {
            last_named(u, name)
        } else {
            last_named(b, name)
        }),
    decreases b.len(),
{
    if b.len() == 0 {
        assert(b + u =~= u);
    } else {
        assert((b + u).drop_first() =~= b.drop_first() + u);
        assert((b + u)[0] == b[0]);
        lemma_last_named_append(b.drop_first(), u, name);
    }
}

/// Merging command packs keeps one pack per folder name, and that pack is
/// the last one read under the name: a user pack overrides a bundled pack of
/// the same name, and a name found in only one place keeps its pack.
pub proof fn law_user_packs_override_bundled(
    bundled: Seq<NamedPack>,
    user: Seq<NamedPack>,
    name: Seq<char>,
)
    ensures
        distinct_names(merge_all(Seq::empty(), bundled + user)),
        last_named(user, name) is Some ==> entry_named(merge_all(Seq::empty(), bundled + user), name)
            == last_named(user, name),
        last_named(user, name) is None ==> entry_named(merge_all(Seq::empty(), bundled + user), name)
            == last_named(bundled, name),
{
    lemma_merge_all_entry(Seq::empty(), bundled + user, name);
    lemma_last_named_append(bundled, user, name);
}

/// The result of loading command packs: the merged packs, or an error when
/// there are none.
pub fn parse_commands(bundled: Vec<NamedPack>, user: Vec<NamedPack>) -> (r: Result<
    Vec<JCommandsList>,
    String,
>)
    ensures
        pack_values(merge_all(Seq::empty(), bundled@ + user@)).len() == 0 ==> r is Err && r->Err_0@
            == "No commands found"@,
        pack_values(merge_all(Seq::empty(), bundled@ + user@)).len() > 0 ==> r is Ok && r->Ok_0@
            == pack_values(merge_all(Seq::empty(), bundled@ + user@)),
{
    let merged = merge_packs(bundled, user);
    if merged.len() == 0 {
        Err(owned("No commands found"))
    } else {
        Ok(merged)
    }
}

// ---------------------------------------------------------------------------
// Executing a command
// ---------------------------------------------------------------------------

/// How a command's type string is handled.
#[derive(Debug, Clone, Copy, PartialEq, Eq, Structural)]
pub enum CommandKind {
    Voice,
    Lua,
    Exe,
    Url,
    Cli,
    Terminate,
    StopChaining,
    Unknown,
}

/// The kind a command type selects.
pub open spec fn command_kind(t: Seq<char>) -> CommandKind {
    if t == "voice"@ {
        CommandKind::Voice
    } else if t == "lua"@ {
        CommandKind::Lua
    } else if t == "exe"@ || t == "ahk"@ {
        CommandKind::Exe
    } else if t == "url"@ {
        CommandKind::Url
    } else if t == "cli"@ {
        CommandKind::Cli
    } else if t == "terminate"@ {
        CommandKind::Terminate
    } else if t == "stop_chaining"@ {
        CommandKind::StopChaining
    } else {
        CommandKind::Unknown
    }
}

/// What executing a command amounts to. `Done` carries the final answer
/// (whether the assistant keeps listening for a chained command); the other
/// variants are work for the caller, whose outcome `complete_command` turns
/// into the answer.
#[derive(Debug, PartialEq)]
pub enum CommandAction {
    Done(Result<bool, String>),
    RunLua { script_name: String, sandbox: SandboxLevel, timeout_ms: u64 },
    LaunchExe { exe_path: String, args: Vec<String>, chain: bool },
    OpenUrl { url: Option<String>, chain: bool },
    RunCli { cmd: String, args: Vec<String>, chain: bool },
    Terminate,
}

/// The message for an unknown command type.
pub open spec fn unknown_type_message(t: Seq<char>) -> Seq<char> {
    "Command type unknown: "@ + t
}

/// Decides what executing a command amounts to, by its type.
pub fn execute_command(cmd_path: &str, cmd: &JCommand) -> (r: CommandAction)
    ensures
        command_kind(cmd.cmd_type@) == CommandKind::Voice ==> r == CommandAction::Done(
            Ok(cmd.allow_chaining),
        ),
        command_kind(cmd.cmd_type@) == CommandKind::Lua ==> (r matches CommandAction::RunLua {
            script_name,
            sandbox,
            timeout_ms,
        } && script_name@ == (if cmd.script@.len() == 0 {
            "script.lua"@
        } else {
            cmd.script@
        }) && sandbox == sandbox_from_name(cmd.sandbox@) && timeout_ms == cmd.timeout),
        command_kind(cmd.cmd_type@) == CommandKind::Exe ==> (r matches CommandAction::LaunchExe {
            exe_path,
            args,
            chain,
        } && exe_path@ == cmd.exe_path@ && args@ == cmd.exe_args@ && chain == cmd.allow_chaining),
        cmd.cmd_type@ == "ahk"@ ==> (r matches CommandAction::LaunchExe { exe_path, args, chain }
            && exe_path@ == cmd.exe_path@ && args@ == cmd.exe_args@ && chain == cmd.allow_chaining),
        command_kind(cmd.cmd_type@) == CommandKind::Url ==> (r matches CommandAction::OpenUrl {
            url,
            chain,
        } && chain == cmd.allow_chaining && (if trim(cmd.cli_cmd@).len() == 0 {
            url is None
        } else {
            url matches Some(u) && u@ == trim(cmd.cli_cmd@)
        })),
        command_kind(cmd.cmd_type@) == CommandKind::Cli ==> (r matches CommandAction::RunCli {
            cmd: c,
            args,
            chain,
        } && c@ == cmd.cli_cmd@ && args@ == cmd.cli_args@ && chain == cmd.allow_chaining),
        command_kind(cmd.cmd_type@) == CommandKind::Terminate ==> r == CommandAction::Terminate,
        command_kind(cmd.cmd_type@) == CommandKind::StopChaining ==> r == CommandAction::Done(
            Ok(false),
        ),
        command_kind(cmd.cmd_type@) == CommandKind::Unknown ==> (r matches CommandAction::Done(
            Err(m),
        ) && m@ == unknown_type_message(cmd.cmd_type@)),
{
    proof {
        reveal_strlit("ahk");
        reveal_strlit("voice");
        reveal_strlit("lua");
        assert("ahk"@[0] != "voice"@[0]);
        assert("ahk"@ != "voice"@);
        assert("ahk"@[0] != "lua"@[0]);
        assert("ahk"@ != "lua"@);
    }
    let t = cmd.cmd_type.as_str();
    if str_eq(t, "voice") {
        CommandAction::Done(Ok(cmd.allow_chaining))
    } else if str_eq(t, "lua") {
        let script_name = if cmd.script.as_str().is_empty() {
            owned("script.lua")
        } else {
            copy_string(&cmd.script)
        };
        CommandAction::RunLua {
            script_name,
            sandbox: SandboxLevel::parse(cmd.sandbox.as_str()),
            timeout_ms: cmd.timeout,
        }
    } else if str_eq(t, "exe") || str_eq(t, "ahk") {
        CommandAction::LaunchExe {
            exe_path: copy_string(&cmd.exe_path),
            args: copy_strings(&cmd.exe_args),
            chain: cmd.allow_chaining,
        }
    } else if str_eq(t, "url") {
        let url = trim_str(cmd.cli_cmd.as_str());
        let url = if url.as_str().is_empty() {
            None
        } else {
            Some(url)
        };
        CommandAction::OpenUrl { url, chain: cmd.allow_chaining }
    } else if str_eq(t, "cli") {
        CommandAction::RunCli {
            cmd: copy_string(&cmd.cli_cmd),
            args: copy_strings(&cmd.cli_args),
            chain: cmd.allow_chaining,
        }
    } else if str_eq(t, "terminate") {
        CommandAction::Terminate
    } else if str_eq(t, "stop_chaining") {
        CommandAction::Done(Ok(false))
    } else {
        CommandAction::Done(Err(concat2("Command type unknown: ", t)))
    }
}

/// The prefix of the message when the work of an action fails.
pub open spec fn failure_prefix(a: CommandAction) -> Seq<char> {
    match a {
        CommandAction::LaunchExe { .. } => "Exe spawn error: "@,
        CommandAction::OpenUrl { .. } => "Browser launch error: "@,
        CommandAction::RunCli { .. } => "CLI command error: "@,
        _ => Seq::empty(),
    }
}

/// Whether a chained command may follow, as the action carries it.
pub open spec fn action_chain(a: CommandAction) -> bool {
    match a {
        CommandAction::Done(Ok(b)) => b,
        CommandAction::LaunchExe { chain, .. } => chain,
        CommandAction::OpenUrl { chain, .. } => chain,
        CommandAction::RunCli { chain, .. } => chain,
        _ => false,
    }
}

/// Turns the outcome of an action's work into the command's answer: on
/// success whether to keep listening, on failure the prefixed message.
pub fn complete_command(action: &CommandAction, outcome: Result<(), String>) -> (r: Result<
    bool,
    String,
>)
    ensures
        outcome is Ok ==> r == Ok::<bool, String>(action_chain(*action)),
        outcome matches Err(e) ==> (r matches Err(m) && m@ == failure_prefix(*action) + e@),
{
    match outcome {
        Ok(()) => {
            let chain = match action {
                CommandAction::Done(Ok(b)) => *b,
                CommandAction::LaunchExe { chain, .. } => *chain,
                CommandAction::OpenUrl { chain, .. } => *chain,
                CommandAction::RunCli { chain, .. } => *chain,
                _ => false,
            };
            Ok(chain)
        },
        Err(e) => {
            let prefix = match action {
                CommandAction::LaunchExe { .. } => owned("Exe spawn error: "),
                CommandAction::OpenUrl { .. } => owned("Browser launch error: "),
                CommandAction::RunCli { .. } => owned("CLI command error: "),
                _ => String::new(),
            };
            Err(concat2(prefix.as_str(), e.as_str()))
        },
    }
}

/// The answer of a Lua command: whether its script asked to chain, or the
/// script's error text.
pub fn complete_lua(result: Result<bool, LuaError>) -> (r: Result<bool, String>)
    ensures
        result matches Ok(b) ==> r == Ok::<bool, String>(b),
        result matches Err(e) ==> (r matches Err(m) && m@ == crate::sandbox::lua_error_text(e)),
{
    match result {
        Ok(b) => Ok(b),
        Err(e) => Err(e.message()),
    }
}


/// An `ahk` command is launched exactly as an `exe` command is: its type is
/// never unknown.
pub proof fn law_ahk_runs_like_exe()
    ensures
        command_kind("ahk"@) == command_kind("exe"@),
        command_kind("ahk"@) == CommandKind::Exe,
{
    reveal_strlit("ahk");
    reveal_strlit("exe");
    reveal_strlit("voice");
    reveal_strlit("lua");
    assert("ahk"@[0] != "voice"@[0] && "exe"@[0] != "voice"@[0]);
    assert("ahk"@ != "voice"@ && "exe"@ != "voice"@);
    assert("ahk"@[0] != "lua"@[0] && "exe"@[0] != "lua"@[0] && "ahk"@[0] != "exe"@[0]);
    assert("ahk"@ != "lua"@ && "exe"@ != "lua"@ && "ahk"@ != "exe"@);
}

} // verus!
