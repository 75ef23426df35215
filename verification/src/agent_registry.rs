//! Registry of automation agents provided by plugins.
//!
//! The registry keeps its entries sorted by id, with no id twice, so that a
//! lookup, a listing and a removal each have one determined answer.
use vstd::prelude::*;
use crate::text::{
    copy_strings, lemma_lex_asym, lemma_lex_irreflexive, lemma_lex_total, lemma_lex_trans, lex_lt,
    owned, str_eq, str_lt, views,
};

verus! {

/// A registered automation agent provided by a plugin.
#[derive(Debug, Clone, PartialEq)]
pub struct AgentEntry {
    /// Unique agent identifier (e.g. "browser-agent").
    pub id: String,
    /// Human-readable name.
    pub name: String,
    /// Capability tags this agent advertises.
    pub capabilities: Vec<String>,
    /// Id of the plugin that registered this agent.
    pub plugin_id: String,
}

/// The mathematical content of an [`AgentEntry`].
pub struct AgentView {
    pub id: Seq<char>,
    pub name: Seq<char>,
    pub capabilities: Seq<Seq<char>>,
    pub plugin_id: Seq<char>,
}

impl View for AgentEntry {
    type V = AgentView;

    open spec fn view(&self) -> AgentView {
        AgentView {
            id: self.id@,
            name: self.name@,
            capabilities: views(self.capabilities@),
            plugin_id: self.plugin_id@,
        }
    }
}

impl AgentEntry {
    /// A field-by-field copy.
    pub fn duplicate(&self) -> (r: AgentEntry)
        ensures
            r@ == self@,
    {
        let caps = copy_strings(&self.capabilities);
        AgentEntry {
            id: self.id.clone(),
            name: self.name.clone(),
            capabilities: caps,
            plugin_id: self.plugin_id.clone(),
        }
    }
}

/// The views of a sequence of entries.
pub open spec fn entry_views(s: Seq<AgentEntry>) -> Seq<AgentView> {
    s.map_values(|e: AgentEntry| e@)
}

proof fn lemma_entry_views_push(s: Seq<AgentEntry>, e: AgentEntry)
    ensures
        entry_views(s.push(e)) == entry_views(s).push(e@),
{
    assert(entry_views(s.push(e)) =~= entry_views(s).push(e@));
}

/// Ids strictly increase along the sequence.
pub open spec fn sorted_by_id(v: Seq<AgentView>) -> bool {
    forall|i: int, j: int| 0 <= i < j < v.len() ==> lex_lt(#[trigger] v[i].id, #[trigger] v[j].id)
}

/// Some entry of `v` has the given id.
pub open spec fn has_id(v: Seq<AgentView>, id: Seq<char>) -> bool {
    exists|i: int| 0 <= i < v.len() && #[trigger] v[i].id == id
}

/// The entry of `v` with the given id, if any.
pub open spec fn lookup(v: Seq<AgentView>, id: Seq<char>) -> Option<AgentView> {
    if has_id(v, id) {
        Some(v[choose|i: int| 0 <= i < v.len() && #[trigger] v[i].id == id])
    } else {
        None
    }
}

/// The entries of `v` whose plugin is not `plugin_id`, in order.
pub open spec fn without_plugin(v: Seq<AgentView>, plugin_id: Seq<char>) -> Seq<AgentView>
    decreases v.len(),
{
    if v.len() == 0 {
        v
    } else {
        let rest = without_plugin(v.drop_last(), plugin_id);
        if v.last().plugin_id == plugin_id {
            rest
        } else {
            rest.push(v.last())
        }
    }
}

/// The message returned when an id is registered twice.
pub open spec fn duplicate_message(id: Seq<char>, plugin_id: Seq<char>) -> Seq<char> {
    "Agent '"@ + id + "' is already registered (plugin: "@ + plugin_id + ")"@
}

/// All registered agents, kept sorted by id.
pub struct AgentRegistry {
    entries: Vec<AgentEntry>,
}

impl View for AgentRegistry {
    type V = Seq<AgentView>;

    closed spec fn view(&self) -> Seq<AgentView> {
        entry_views(self.entries@)
    }
}

impl AgentRegistry {
    /// The registry's invariant: ids strictly increase.
    #[verifier::type_invariant]
    spec fn ids_increase(self) -> bool {
        sorted_by_id(entry_views(self.entries@))
    }

    /// An empty registry.
    pub fn new() -> (r: AgentRegistry)
        ensures
            r@ == Seq::<AgentView>::empty(),
    {
        let r = AgentRegistry { entries: Vec::new() };
        assert(r@ =~= Seq::<AgentView>::empty());
        r
    }

    /// Number of registered agents.
    pub fn len(&self) -> (n: usize)
        ensures
            n == self@.len(),
    {
        self.entries.len()
    }
}

/// In a sorted sequence each id occurs once, so an index with the id is the
/// one `lookup` picks.
pub proof fn lemma_lookup_at(v: Seq<AgentView>, i: int)
    requires
        sorted_by_id(v),
        0 <= i < v.len(),
    ensures
        lookup(v, v[i].id) == Some(v[i]),
{
    let id = v[i].id;
    assert(has_id(v, id));
    let j = choose|j: int| 0 <= j < v.len() && #[trigger] v[j].id == id;
    if j < i {
        lemma_lex_asym(v[j].id, v[i].id);
    } else if i < j {
        lemma_lex_asym(v[i].id, v[j].id);
    }
}

/// Register an agent. Returns an error if an agent with the same id is
/// already registered; the registry is then unchanged.
pub fn register(reg: &mut AgentRegistry, entry: AgentEntry) -> (r: Result<(), String>)
    ensures
        has_id(old(reg)@, entry@.id) ==> {
            &&& r is Err
            &&& final(reg)@ == old(reg)@
            &&& r->Err_0@ == duplicate_message(
                entry@.id,
                lookup(old(reg)@, entry@.id)->0.plugin_id,
            )
        },
        !has_id(old(reg)@, entry@.id) ==> {
            &&& r is Ok
            &&& exists|p: int|
                0 <= p <= old(reg)@.len() && final(reg)@ == #[trigger] old(reg)@.insert(p, entry@)
        },
{
    proof {
        use_type_invariant(&*reg);
    }
    let ghost v = reg@;
    let n = reg.entries.len();
    let mut i: usize = 0;
    while i < n && str_lt(reg.entries[i].id.as_str(), entry.id.as_str())
        invariant
            n == reg.entries.len(),
            v == reg@,
            sorted_by_id(v),
            0 <= i <= n,
            forall|k: int| 0 <= k < i ==> lex_lt(#[trigger] v[k].id, entry@.id),
        decreases n - i,
    {
        i = i + 1;
    }
    if i < n && str_eq(reg.entries[i].id.as_str(), entry.id.as_str()) {
        proof {
            lemma_lookup_at(v, i as int);
        }
        let mut msg = owned("Agent '");
        msg.append(entry.id.as_str());
        msg.append("' is already registered (plugin: ");
        msg.append(reg.entries[i].plugin_id.as_str());
        msg.append(")");
        return Err(msg);
    }
    proof {
        // every id below position i is smaller, every id from i on is larger
        assert forall|k: int| i <= k < n implies lex_lt(entry@.id, #[trigger] v[k].id) by {
            if !lex_lt(v[i as int].id, entry@.id) && v[i as int].id != entry@.id {
                lemma_lex_total(v[i as int].id, entry@.id);
            }
            if k > i {
                lemma_lex_trans(entry@.id, v[i as int].id, v[k].id);
            }
        }
        assert forall|k: int| 0 <= k < n implies #[trigger] v[k].id != entry@.id by {
            if k < i {
                lemma_lex_asym(v[k].id, entry@.id);
            } else {
                lemma_lex_asym(entry@.id, v[k].id);
            }
        }
    }
    let ghost e = entry@;
    let mut entries: Vec<AgentEntry> = Vec::new();
    std::mem::swap(&mut entries, &mut reg.entries);
    entries.insert(i, entry);
    proof {
        let w = v.insert(i as int, e);
        assert(entry_views(entries@) =~= w);
        assert forall|a: int, b: int| 0 <= a < b < w.len() implies lex_lt(
            #[trigger] w[a].id,
            #[trigger] w[b].id,
        ) by {
            if a < i && b < i {
            } else if a < i && b == i {
            } else if a < i && b > i {
                assert(w[b] == v[b - 1]);
            } else if a == i {
                assert(w[b] == v[b - 1]);
            } else {
                assert(w[a] == v[a - 1]);
                assert(w[b] == v[b - 1]);
            }
        }
    }
    reg.entries = entries;
    Ok(())
}

/// Unregister an agent by id. No-op if it is not registered.
pub fn unregister(reg: &mut AgentRegistry, id: &str)
    ensures
        has_id(old(reg)@, id@) ==> exists|i: int|
            0 <= i < old(reg)@.len() && old(reg)@[i].id == id@ && final(reg)@ == #[trigger] old(
                reg,
            )@.remove(i),
        !has_id(old(reg)@, id@) ==> final(reg)@ == old(reg)@,
{
    proof {
        use_type_invariant(&*reg);
    }
    let ghost v = reg@;
    let n = reg.entries.len();
    let mut i: usize = 0;
    while i < n && !str_eq(reg.entries[i].id.as_str(), id)
        invariant
            n == reg.entries.len(),
            v == reg@,
            0 <= i <= n,
            forall|k: int| 0 <= k < i ==> #[trigger] v[k].id != id@,
        decreases n - i,
    {
        i = i + 1;
    }
    if i < n {
        let mut entries: Vec<AgentEntry> = Vec::new();
        std::mem::swap(&mut entries, &mut reg.entries);
        entries.remove(i);
        proof {
            let w = v.remove(i as int);
            assert(entry_views(entries@) =~= w);
            assert forall|a: int, b: int| 0 <= a < b < w.len() implies lex_lt(
                #[trigger] w[a].id,
                #[trigger] w[b].id,
            ) by {
                if a < i && b >= i {
                    assert(w[b] == v[b + 1]);
                } else if a >= i {
                    assert(w[a] == v[a + 1]);
                    assert(w[b] == v[b + 1]);
                }
            }
        }
        reg.entries = entries;
    }
}

/// Look up an agent by id.
pub fn get(reg: &AgentRegistry, id: &str) -> (r: Option<AgentEntry>)
    ensures
        r is None == !has_id(reg@, id@),
        r matches Some(e) ==> Some(e@) == lookup(reg@, id@),
{
    proof {
        use_type_invariant(reg);
    }
    let n = reg.entries.len();
    let mut i: usize = 0;
    while i < n
        invariant
            n == reg.entries.len(),
            sorted_by_id(reg@),
            0 <= i <= n,
            forall|k: int| 0 <= k < i ==> #[trigger] reg@[k].id != id@,
        decreases n - i,
    {
        if str_eq(reg.entries[i].id.as_str(), id) {
            proof {
                lemma_lookup_at(reg@, i as int);
            }
            return Some(reg.entries[i].duplicate());
        }
        i = i + 1;
    }
    None
}

/// Return all registered agents sorted by id.
pub fn list_all(reg: &AgentRegistry) -> (r: Vec<AgentEntry>)
    ensures
        entry_views(r@) == reg@,
        sorted_by_id(entry_views(r@)),
{
    proof {
        use_type_invariant(reg);
    }
    let n = reg.entries.len();
    let mut out: Vec<AgentEntry> = Vec::new();
    let mut i: usize = 0;
    while i < n
        invariant
            n == reg.entries.len(),
            0 <= i <= n,
            entry_views(out@) == reg@.subrange(0, i as int),
        decreases n - i,
    {
        let ghost prev = out@;
        let e = reg.entries[i].duplicate();
        out.push(e);
        proof {
            lemma_entry_views_push(prev, e);
            assert(entry_views(out@) =~= reg@.subrange(0, i + 1));
        }
        i = i + 1;
    }
    assert(reg@.subrange(0, n as int) =~= reg@);
    out
}

proof fn lemma_without_plugin_members(v: Seq<AgentView>, pid: Seq<char>)
    ensures
        forall|k: int|
            0 <= k < without_plugin(v, pid).len() ==> (#[trigger] without_plugin(v, pid)[k]).plugin_id
                != pid && v.contains(without_plugin(v, pid)[k]),
        forall|k: int|
            0 <= k < v.len() && (#[trigger] v[k]).plugin_id != pid ==> without_plugin(
                v,
                pid,
            ).contains(v[k]),
    decreases v.len(),
{
    if v.len() > 0 {
        let u = v.drop_last();
        lemma_without_plugin_members(u, pid);
        let rest = without_plugin(u, pid);
        let w = without_plugin(v, pid);
        assert forall|k: int| 0 <= k < w.len() implies (#[trigger] w[k]).plugin_id != pid
            && v.contains(w[k]) by {
            if k < rest.len() {
                assert(w[k] == rest[k]);
                assert(u.contains(rest[k]));
                let j = choose|j: int| 0 <= j < u.len() && u[j] == rest[k];
                assert(v[j] == u[j]);
            } else {
                assert(w[k] == v.last());
                assert(v[v.len() - 1] == v.last());
            }
        }
        assert forall|k: int| 0 <= k < v.len() && (#[trigger] v[k]).plugin_id != pid implies w.contains(
            v[k],
        ) by {
            if k < v.len() - 1 {
                assert(u[k] == v[k]);
                assert(rest.contains(u[k]));
                let j = choose|j: int| 0 <= j < rest.len() && rest[j] == u[k];
                assert(w[j] == rest[j]);
            } else {
                assert(v[k] == v.last());
                assert(w[rest.len() as int] == v.last());
            }
        }
    }
}

/// Remove all agents registered by a specific plugin.
pub fn unregister_plugin(reg: &mut AgentRegistry, plugin_id: &str)
    ensures
        final(reg)@ == without_plugin(old(reg)@, plugin_id@),
{
    proof {
        use_type_invariant(&*reg);
    }
    let ghost v = reg@;
    let n = reg.entries.len();
    let mut kept: Vec<AgentEntry> = Vec::new();
    let mut i: usize = 0;
    while i < n
        invariant
            n == reg.entries.len(),
            v == reg@,
            sorted_by_id(v),
            0 <= i <= n,
            entry_views(kept@) == without_plugin(v.subrange(0, i as int), plugin_id@),
            sorted_by_id(entry_views(kept@)),
            forall|k: int, j: int|
                0 <= k < kept@.len() && i <= j < n ==> lex_lt(#[trigger] kept@[k]@.id, #[trigger] v[j].id),
        decreases n - i,
    {
        let ghost pre = v.subrange(0, i as int);
        let ghost next = v.subrange(0, i + 1);
        assert(next.drop_last() =~= pre);
        if !str_eq(reg.entries[i].plugin_id.as_str(), plugin_id) {
            let ghost old_kept = entry_views(kept@);
            let ghost prev = kept@;
            let e = reg.entries[i].duplicate();
            kept.push(e);
            proof {
                lemma_entry_views_push(prev, e);
                let kv = entry_views(kept@);
                assert(kv =~= old_kept.push(v[i as int]));
                assert forall|a: int, b: int| 0 <= a < b < kv.len() implies lex_lt(
                    #[trigger] kv[a].id,
                    #[trigger] kv[b].id,
                ) by {
                    if b == kv.len() - 1 {
                        assert(kv[a] == kept@[a]@);
                    } else {
                        assert(kv[a] == old_kept[a]);
                        assert(kv[b] == old_kept[b]);
                    }
                }
                assert forall|k: int, j: int|
                    0 <= k < kept@.len() && i + 1 <= j < n implies lex_lt(
                    #[trigger] kept@[k]@.id,
                    #[trigger] v[j].id,
                ) by {
                    if k == kept@.len() - 1 {
                        assert(kept@[k]@ == v[i as int]);
                    } else {
                        assert(kept@[k]@ == old_kept[k]);
                    }
                }
            }
        }
        i = i + 1;
    }
    assert(v.subrange(0, n as int) =~= v);
    reg.entries = kept;
}

// ---------------------------------------------------------------------------
// Laws
// ---------------------------------------------------------------------------

/// A successful registration makes the agent retrievable under its id, and
/// leaves every other id's lookup as it was.
pub proof fn law_register_then_lookup(
    before: Seq<AgentView>,
    after: Seq<AgentView>,
    entry: AgentView,
    other: Seq<char>,
)
    requires
        sorted_by_id(before),
        sorted_by_id(after),
        !has_id(before, entry.id),
        exists|p: int| 0 <= p <= before.len() && after == #[trigger] before.insert(p, entry),
    ensures
        lookup(after, entry.id) == Some(entry),
        other != entry.id ==> lookup(after, other) == lookup(before, other),
{
    let p = choose|p: int| 0 <= p <= before.len() && after == #[trigger] before.insert(p, entry);
    assert(after[p] == entry);
    lemma_lookup_at(after, p);
    if other != entry.id {
        if has_id(before, other) {
            let i = choose|i: int| 0 <= i < before.len() && #[trigger] before[i].id == other;
            lemma_lookup_at(before, i);
            if i < p {
                assert(after[i] == before[i]);
                lemma_lookup_at(after, i);
            } else {
                assert(after[i + 1] == before[i]);
                lemma_lookup_at(after, i + 1);
            }
        } else {
            if has_id(after, other) {
                let j = choose|j: int| 0 <= j < after.len() && #[trigger] after[j].id == other;
                if j < p {
                    assert(before[j] == after[j]);
                } else if j > p {
                    assert(before[j - 1] == after[j]);
                }
            }
        }
    }
}

/// After unregistering an id, nothing is found under it, and every other
/// id's lookup is unchanged.
pub proof fn law_unregister_then_lookup(
    before: Seq<AgentView>,
    after: Seq<AgentView>,
    id: Seq<char>,
    other: Seq<char>,
)
    requires
        sorted_by_id(before),
        sorted_by_id(after),
        has_id(before, id) ==> exists|i: int|
            0 <= i < before.len() && before[i].id == id && after == #[trigger] before.remove(i),
        !has_id(before, id) ==> after == before,
    ensures
        lookup(after, id) is None,
        other != id ==> lookup(after, other) == lookup(before, other),
{
    if has_id(before, id) {
        let i = choose|i: int|
            0 <= i < before.len() && before[i].id == id && after == #[trigger] before.remove(i);
        if has_id(after, id) {
            let j = choose|j: int| 0 <= j < after.len() && #[trigger] after[j].id == id;
            if j < i {
                assert(after[j] == before[j]);
                lemma_lex_irreflexive(id);
            } else {
                assert(after[j] == before[j + 1]);
                lemma_lex_irreflexive(id);
            }
        }
        if other != id {
            if has_id(before, other) {
                let k = choose|k: int| 0 <= k < before.len() && #[trigger] before[k].id == other;
                lemma_lookup_at(before, k);
                if k < i {
                    assert(after[k] == before[k]);
                    lemma_lookup_at(after, k);
                } else {
                    assert(k != i);
                    assert(after[k - 1] == before[k]);
                    lemma_lookup_at(after, k - 1);
                }
            } else if has_id(after, other) {
                let j = choose|j: int| 0 <= j < after.len() && #[trigger] after[j].id == other;
                if j < i {
                    assert(after[j] == before[j]);
                } else {
                    assert(after[j] == before[j + 1]);
                }
            }
        }
    }
}

/// Registering an agent under a new id and then unregistering that id gives
/// the registry back as it was.
pub proof fn law_register_then_unregister(
    before: Seq<AgentView>,
    mid: Seq<AgentView>,
    after: Seq<AgentView>,
    entry: AgentView,
)
    requires
        sorted_by_id(before),
        !has_id(before, entry.id),
        exists|p: int| 0 <= p <= before.len() && mid == #[trigger] before.insert(p, entry),
        sorted_by_id(mid),
        exists|i: int| 0 <= i < mid.len() && mid[i].id == entry.id && after == #[trigger] mid.remove(i),
    ensures
        after == before,
{
    let p = choose|p: int| 0 <= p <= before.len() && mid == #[trigger] before.insert(p, entry);
    let i = choose|i: int| 0 <= i < mid.len() && mid[i].id == entry.id && after == #[trigger] mid.remove(i);
    assert(mid[p] == entry);
    if i < p {
        assert(lex_lt(mid[i].id, mid[p].id));
        lemma_lex_irreflexive(entry.id);
    } else if p < i {
        assert(lex_lt(mid[p].id, mid[i].id));
        lemma_lex_irreflexive(entry.id);
    }
    assert(after =~= before);
}

/// Removing a plugin's agents removes every one of them and keeps every
/// agent of another plugin.
pub proof fn law_unregister_plugin(before: Seq<AgentView>, plugin_id: Seq<char>)
    ensures
        forall|k: int|
            0 <= k < without_plugin(before, plugin_id).len() ==> (#[trigger] without_plugin(
                before,
                plugin_id,
            )[k]).plugin_id != plugin_id,
        forall|k: int|
            0 <= k < before.len() && (#[trigger] before[k]).plugin_id != plugin_id ==> without_plugin(
                before,
                plugin_id,
            ).contains(before[k]),
{
    lemma_without_plugin_members(before, plugin_id);
}

} // verus!
