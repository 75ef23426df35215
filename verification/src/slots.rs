//! Slot extraction: which backend runs, and the integer side of the GLiNER
//! span model (grouping slots by entity label, the prompt, the token layout
//! of the encoder input, the span tensors, the enumeration of candidate
//! spans, overlap resolution and the assignment of entities to slots).
//!
//! Tokenisation, inference and the probabilities (floating point) are the
//! caller's; probabilities are handed in by their IEEE bit patterns, which
//! order non-negative floats as the floats themselves are ordered.
use vstd::prelude::*;
use crate::commands::SlotDefinition;
use crate::matching::{
    compile_pattern, find_all, regex_find_all, regex_valid, tokens_view, CompiledPattern, WordToken,
};
use crate::text::{copy_string, copy_strings, eq_ignore_ascii_case, eq_ignore_ascii_case_spec,
    owned, str_eq, views};

verus! {

// ---------------------------------------------------------------------------
// Backend
// ---------------------------------------------------------------------------

/// The canonical form of the configured backend: empty, or any ASCII case
/// of `"none"`, means `"none"`; anything else is a model id kept as it is.
pub open spec fn normalized_backend(raw: Seq<char>) -> Seq<char> {
    if raw.len() == 0 || eq_ignore_ascii_case_spec(raw, "none"@) {
        "none"@
    } else {
        raw
    }
}

/// Normalises the backend value of the settings.
pub fn normalize_backend(raw: &str) -> (r: String)
    ensures
        r@ == normalized_backend(raw@),
{
    if raw.is_empty() || eq_ignore_ascii_case(raw, "none") {
        proof {
            reveal_strlit("");
        }
        owned("none")
    } else {
        proof {
            reveal_strlit("");
        }
        owned(raw)
    }
}

/// Normalising the backend twice changes nothing more: the canonical form
/// of a canonical form is itself.
pub proof fn law_normalize_backend_idempotent(raw: Seq<char>)
    ensures
        normalized_backend(normalized_backend(raw)) == normalized_backend(raw),
{
    reveal_strlit("none");
    assert(eq_ignore_ascii_case_spec("none"@, "none"@));
}

/// What starting slot extraction has to do.
#[derive(Debug, PartialEq)]
pub enum SlotsInit {
    /// A backend is already recorded.
    AlreadySet,
    /// Record `"none"`: extraction is off.
    Disabled,
    /// Record the model id and load that GLiNER model.
    LoadModel(String),
}

/// Decides how to start slot extraction. `current` is the backend already
/// recorded; `configured` the backend of the settings, when they are loaded.
pub fn slots_init_plan(current: Option<&str>, configured: Option<&str>) -> (r: SlotsInit)
    ensures
        current is Some ==> r == SlotsInit::AlreadySet,
        current is None ==> {
            let raw = match configured {
                Some(c) => c@,
                None => "none"@,
            };
            if normalized_backend(raw) == "none"@ {
                r == SlotsInit::Disabled
            } else {
                r matches SlotsInit::LoadModel(m) && m@ == normalized_backend(raw)
            }
        },
{
    if current.is_some() {
        return SlotsInit::AlreadySet;
    }
    let backend = match configured {
        Some(c) => normalize_backend(c),
        None => normalize_backend("none"),
    };
    if str_eq(backend.as_str(), "none") {
        SlotsInit::Disabled
    } else {
        SlotsInit::LoadModel(backend)
    }
}

/// Whether extraction runs the model: there are slots to fill and a model
/// backend is recorded.
pub fn extraction_enabled(slot_count: usize, backend: Option<&str>) -> (r: bool)
    ensures
        r == (slot_count > 0 && (backend matches Some(b) && b@ != "none"@)),
{
    if slot_count == 0 {
        return false;
    }
    match backend {
        Some(b) => !str_eq(b, "none"),
        None => false,
    }
}

// ---------------------------------------------------------------------------
// Grouping slots by entity label
// ---------------------------------------------------------------------------

/// The slots by view: name and entity label.
pub open spec fn slot_views(l: Seq<(String, SlotDefinition)>) -> Seq<(Seq<char>, Seq<char>)> {
    l.map_values(|e: (String, SlotDefinition)| (e.0@, e.1.entity@))
}

/// The names, in order, of the slots whose label is `label`.
pub open spec fn names_with_label(slots: Seq<(Seq<char>, Seq<char>)>, label: Seq<char>) -> Seq<
    Seq<char>,
>
    decreases slots.len(),
{
    if slots.len() == 0 {
        seq![]
    } else {
        let rest = names_with_label(slots.drop_last(), label);
        if slots.last().1 == label {
            rest.push(slots.last().0)
        } else {
            rest
        }
    }
}

/// The groups by view: label and slot names.
pub open spec fn groups_view(g: Seq<(String, Vec<String>)>) -> Seq<(Seq<char>, Seq<Seq<char>>)> {
    g.map_values(|e: (String, Vec<String>)| (e.0@, views(e.1@)))
}

/// `groups` groups the slots by label: one group for each distinct
/// non-empty label, holding the names of its slots in order.
pub open spec fn groups_slots(
    groups: Seq<(Seq<char>, Seq<Seq<char>>)>,
    slots: Seq<(Seq<char>, Seq<char>)>,
) -> bool {
    &&& forall|k: int|
        0 <= k < groups.len() ==> (#[trigger] groups[k]).0.len() > 0 && groups[k].1
            == names_with_label(slots, groups[k].0)
    &&& forall|k1: int, k2: int|
        0 <= k1 < k2 < groups.len() ==> (#[trigger] groups[k1]).0 != (#[trigger] groups[k2]).0
    &&& forall|i: int|
        0 <= i < slots.len() && (#[trigger] slots[i]).1.len() > 0 ==> exists|k: int|
            0 <= k < groups.len() && (#[trigger] groups[k]).0 == slots[i].1
}

proof fn lemma_names_absent(slots: Seq<(Seq<char>, Seq<char>)>, label: Seq<char>)
    requires
        forall|i: int| 0 <= i < slots.len() ==> (#[trigger] slots[i]).1 != label,
    ensures
        names_with_label(slots, label) == Seq::<Seq<char>>::empty(),
    decreases slots.len(),
{
    if slots.len() > 0 {
        let d = slots.drop_last();
        assert forall|i: int| 0 <= i < d.len() implies (#[trigger] d[i]).1 != label by {
            assert(d[i] == slots[i]);
        }
        lemma_names_absent(d, label);
    }
}

fn find_group(groups: &Vec<(String, Vec<String>)>, label: &str) -> (r: Option<usize>)
    ensures
        r matches Some(k) ==> k < groups@.len() && groups@[k as int].0@ == label@ && forall|j: int|
            0 <= j < k ==> (#[trigger] groups@[j]).0@ != label@,
        r is None ==> forall|k: int| 0 <= k < groups@.len() ==> (#[trigger] groups@[k]).0@ != label@,
{
    let mut k: usize = 0;
    while k < groups.len()
        invariant
            0 <= k <= groups@.len(),
            forall|j: int| 0 <= j < k ==> (#[trigger] groups@[j]).0@ != label@,
        decreases groups@.len() - k,
    {
        if str_eq(groups[k].0.as_str(), label) {
            return Some(k);
        }
        k = k + 1;
    }
    None
}

/// Groups the slots by their entity label; slots without a label are left
/// out. (The groups come in the order their labels first appear.)
pub fn group_labels(slots: &Vec<(String, SlotDefinition)>) -> (r: Vec<(String, Vec<String>)>)
    ensures
        groups_slots(groups_view(r@), slot_views(slots@)),
        r@.len() <= slots@.len(),
{
    let mut groups: Vec<(String, Vec<String>)> = Vec::new();
    let mut i: usize = 0;
    while i < slots.len()
        invariant
            0 <= i <= slots@.len(),
            groups@.len() <= i,
            groups_slots(groups_view(groups@), slot_views(slots@).take(i as int)),
        decreases slots@.len() - i,
    {
        let ghost sv = slot_views(slots@);
        let ghost pre = sv.take(i as int);
        let ghost post = sv.take(i + 1);
        let ghost old_groups = groups_view(groups@);
        assert(post.drop_last() == pre);
        assert(post.last() == sv[i as int]);
        let name = &slots[i].0;
        let label = &slots[i].1.entity;
        if !label.as_str().is_empty() {
            proof {
                reveal_strlit("");
            }
            match find_group(&groups, label.as_str()) {
                Some(k) => {
                    let mut names = copy_strings(&groups[k].1);
                    names.push(copy_string(name));
                    let l = copy_string(&groups[k].0);
                    groups.set(k, (l, names));
                    proof {
                        let g = groups_view(groups@);
                        assert forall|k2: int| 0 <= k2 < g.len() implies (#[trigger] g[k2]).0.len()
                            > 0 && g[k2].1 == names_with_label(post, g[k2].0) by {
                            assert(old_groups[k2].1 == names_with_label(pre, old_groups[k2].0));
                            assert(names_with_label(post, g[k2].0) == (if post.last().1
                                == g[k2].0 {
                                names_with_label(pre, g[k2].0).push(post.last().0)
                            } else {
                                names_with_label(pre, g[k2].0)
                            }));
                            if k2 == k {
                                assert(g[k2].0 == old_groups[k2].0);
                                assert(post.last().0 == name@ && post.last().1 == label@);
                                assert(views(names@) =~= old_groups[k2].1.push(name@));
                                assert(g[k2].1 == views(names@));
                            } else {
                                assert(g[k2] == old_groups[k2]);
                                assert(old_groups[k as int].0 == label@);
                                if k2 < k {
                                    assert(old_groups[k2].0 != old_groups[k as int].0);
                                } else {
                                    assert(old_groups[k as int].0 != old_groups[k2].0);
                                }
                            }
                        }
                        assert forall|k1: int, k2: int|
                            0 <= k1 < k2 < g.len() implies (#[trigger] g[k1]).0 != (
                        #[trigger] g[k2]).0 by {
                            assert(g[k1].0 == old_groups[k1].0);
                            assert(g[k2].0 == old_groups[k2].0);
                        }
                        assert forall|j: int|
                            0 <= j < post.len() && (#[trigger] post[j]).1.len() > 0 implies exists|
                            k3: int,
                        | 0 <= k3 < g.len() && (#[trigger] g[k3]).0 == post[j].1 by {
                            if j < i {
                                assert(post[j] == pre[j]);
                                let k3 = choose|k3: int|
                                    0 <= k3 < old_groups.len() && (#[trigger] old_groups[k3]).0
                                        == pre[j].1;
                                assert(g[k3].0 == old_groups[k3].0);
                            } else {
                                assert(g[k as int].0 == label@);
                            }
                        }
                    }
                },
                None => {
                    let mut names: Vec<String> = Vec::new();
                    names.push(copy_string(name));
                    groups.push((copy_string(label), names));
                    proof {
                        let g = groups_view(groups@);
                        assert forall|j: int| 0 <= j < pre.len() implies (#[trigger] pre[j]).1
                            != label@ by {
                            if pre[j].1 == label@ {
                                if pre[j].1.len() > 0 {
                                    let k3 = choose|k3: int|
                                        0 <= k3 < old_groups.len() && (
                                        #[trigger] old_groups[k3]).0 == pre[j].1;
                                }
                            }
                        }
                        lemma_names_absent(pre, label@);
                        assert forall|k2: int| 0 <= k2 < g.len() implies (#[trigger] g[k2]).0.len()
                            > 0 && g[k2].1 == names_with_label(post, g[k2].0) by {
                            if k2 == old_groups.len() {
                                assert(views(names@) =~= seq![name@]);
                                assert(names_with_label(post, label@) =~= seq![name@]);
                            } else {
                                assert(g[k2] == old_groups[k2]);
                            }
                        }
                        assert forall|k1: int, k2: int|
                            0 <= k1 < k2 < g.len() implies (#[trigger] g[k1]).0 != (
                        #[trigger] g[k2]).0 by {
                            assert(g[k1] == old_groups[k1]);
                            if k2 < old_groups.len() {
                                assert(g[k2] == old_groups[k2]);
                            }
                        }
                        assert forall|j: int|
                            0 <= j < post.len() && (#[trigger] post[j]).1.len() > 0 implies exists|
                            k3: int,
                        | 0 <= k3 < g.len() && (#[trigger] g[k3]).0 == post[j].1 by {
                            if j < i {
                                assert(post[j] == pre[j]);
                                let k3 = choose|k3: int|
                                    0 <= k3 < old_groups.len() && (#[trigger] old_groups[k3]).0
                                        == pre[j].1;
                                assert(g[k3] == old_groups[k3]);
                            } else {
                                assert(g[old_groups.len() as int].0 == label@);
                            }
                        }
                    }
                },
            }
        } else {
            proof {
                let g = groups_view(groups@);
                assert forall|k2: int| 0 <= k2 < g.len() implies (#[trigger] g[k2]).0.len() > 0
                    && g[k2].1 == names_with_label(post, g[k2].0) by {
                    assert(names_with_label(post, g[k2].0) == names_with_label(pre, g[k2].0));
                }
                assert forall|j: int|
                    0 <= j < post.len() && (#[trigger] post[j]).1.len() > 0 implies exists|k3: int|
                    0 <= k3 < g.len() && (#[trigger] g[k3]).0 == post[j].1 by {
                    assert(post[j] == pre[j]);
                }
            }
        }
        i = i + 1;
    }
    assert(slot_views(slots@).take(slots@.len() as int) =~= slot_views(slots@));
    groups
}

// ---------------------------------------------------------------------------
// The prompt
// ---------------------------------------------------------------------------

/// The entity part of the prompt: `<<ENT>>` before each label.
pub open spec fn entity_prompt(labels: Seq<Seq<char>>) -> Seq<Seq<char>>
    decreases labels.len(),
{
    if labels.len() == 0 {
        seq![]
    } else {
        entity_prompt(labels.drop_last()) + seq!["<<ENT>>"@, labels.last()]
    }
}

/// The prompt of the span model: `<<ENT>>` and each label, `<<SEP>>`, then
/// the words; with the number of prompt items before the words.
pub fn build_prompt(labels: &Vec<String>, words: &Vec<String>) -> (r: (Vec<String>, usize))
    requires
        2 * labels@.len() + 1 + words@.len() <= usize::MAX,
    ensures
        views(r.0@) == entity_prompt(views(labels@)) + seq!["<<SEP>>"@] + views(words@),
        r.1 == 2 * labels@.len() + 1,
{
    let mut prompt: Vec<String> = Vec::new();
    let mut k: usize = 0;
    while k < labels.len()
        invariant
            0 <= k <= labels@.len(),
            views(prompt@) == entity_prompt(views(labels@).take(k as int)),
            prompt@.len() == 2 * k,
        decreases labels@.len() - k,
    {
        proof {
            let t = views(labels@).take(k + 1);
            assert(t.drop_last() =~= views(labels@).take(k as int));
            assert(t.last() == labels@[k as int]@);
        }
        prompt.push(owned("<<ENT>>"));
        prompt.push(copy_string(&labels[k]));
        proof {
            assert(views(prompt@) =~= entity_prompt(views(labels@).take(k as int)) + seq![
                "<<ENT>>"@,
                labels@[k as int]@,
            ]);
        }
        k = k + 1;
    }
    assert(views(labels@).take(labels@.len() as int) =~= views(labels@));
    prompt.push(owned("<<SEP>>"));
    let entities_len = prompt.len();
    let ghost head = views(prompt@);
    let mut j: usize = 0;
    while j < words.len()
        invariant
            0 <= j <= words@.len(),
            prompt@.len() == entities_len + j,
            entities_len == 2 * labels@.len() + 1,
            2 * labels@.len() + 1 + words@.len() <= usize::MAX,
            views(prompt@) == head + views(words@).take(j as int),
        decreases words@.len() - j,
    {
        let ghost before = prompt@;
        prompt.push(copy_string(&words[j]));
        proof {
            assert(views(prompt@) =~= views(before).push(words@[j as int]@));
            assert(views(words@).take(j + 1) =~= views(words@).take(j as int).push(words@[j as int]@));
            assert(views(prompt@) =~= head + views(words@).take(j + 1));
        }
        j = j + 1;
    }
    assert(views(words@).take(words@.len() as int) =~= views(words@));
    (prompt, entities_len)
}

// ---------------------------------------------------------------------------
// Span tensors
// ---------------------------------------------------------------------------

/// The flat position of the span of width `w + 1` that starts at word `s`.
pub open spec fn span_pos(max_width: int, s: int, w: int) -> int {
    s * max_width + w
}

proof fn lemma_span_pos_below(max_width: int, s: int, w: int, start: int)
    requires
        0 <= s < start,
        0 <= w < max_width,
    ensures
        0 <= span_pos(max_width, s, w) < start * max_width,
{
    assert(s * max_width + w < (s + 1) * max_width) by (nonlinear_arith)
        requires
            0 <= w < max_width,
    ;
    assert((s + 1) * max_width <= start * max_width) by (nonlinear_arith)
        requires
            s + 1 <= start,
            0 < max_width,
    ;
    assert(0 <= s * max_width) by (nonlinear_arith)
        requires
            0 <= s,
            0 < max_width,
    ;
}

/// Entry `(s, w)` of the span tensors: the span index `(s, s + w)` and a set
/// mask when the span fits in the words, else `(0, 0)` and a clear mask.
pub open spec fn span_entry_ok(
    idx: Seq<(i64, i64)>,
    mask: Seq<bool>,
    num_words: int,
    max_width: int,
    s: int,
    w: int,
) -> bool {
    let d = span_pos(max_width, s, w);
    &&& mask[d] == (w < num_words - s)
    &&& idx[d] == (if w < num_words - s {
        (s as i64, (s + w) as i64)
    } else {
        (0i64, 0i64)
    })
}

/// The span tensors for `num_words` words and spans up to `max_width` words:
/// for each start word `s` and width `w` (flat position `s * max_width + w`)
/// the span index `(s, s + w)` and a set mask when the span fits in the
/// words; `(0, 0)` and a clear mask where it does not.
pub fn make_span_tensors(num_words: usize, max_width: usize) -> (r: (Vec<(i64, i64)>, Vec<bool>))
    requires
        num_words * max_width <= usize::MAX,
        num_words + max_width <= i64::MAX,
    ensures
        r.0@.len() == num_words * max_width,
        r.1@.len() == num_words * max_width,
        forall|s: int, w: int|
            0 <= s < num_words && 0 <= w < max_width ==> #[trigger] span_entry_ok(
                r.0@,
                r.1@,
                num_words as int,
                max_width as int,
                s,
                w,
            ),
{
    let mut idx: Vec<(i64, i64)> = Vec::new();
    let mut mask: Vec<bool> = Vec::new();
    let mut start: usize = 0;
    while start < num_words
        invariant
            0 <= start <= num_words,
            num_words * max_width <= usize::MAX,
            num_words + max_width <= i64::MAX,
            idx@.len() == start * max_width,
            mask@.len() == start * max_width,
            forall|s: int, w: int|
                0 <= s < start && 0 <= w < max_width ==> #[trigger] span_entry_ok(
                    idx@,
                    mask@,
                    num_words as int,
                    max_width as int,
                    s,
                    w,
                ),
        decreases num_words - start,
    {
        let remaining = num_words - start;
        let mut width: usize = 0;
        proof {
            assert((start + 1) * max_width <= num_words * max_width) by (nonlinear_arith)
                requires
                    start + 1 <= num_words,
            ;
            assert((start + 1) * max_width == start * max_width + max_width) by (nonlinear_arith);
        }
        while width < max_width
            invariant
                0 <= start < num_words,
                remaining == num_words - start,
                0 <= width <= max_width,
                num_words + max_width <= i64::MAX,
                start * max_width + max_width <= usize::MAX,
                idx@.len() == start * max_width + width,
                mask@.len() == start * max_width + width,
                forall|s: int, w: int|
                    0 <= s < start && 0 <= w < max_width ==> #[trigger] span_entry_ok(
                        idx@,
                        mask@,
                        num_words as int,
                        max_width as int,
                        s,
                        w,
                    ),
                forall|w: int|
                    0 <= w < width ==> #[trigger] span_entry_ok(
                        idx@,
                        mask@,
                        num_words as int,
                        max_width as int,
                        start as int,
                        w,
                    ),
            decreases max_width - width,
        {
            let ghost old_idx = idx@;
            let ghost old_mask = mask@;
            if width < remaining {
                idx.push((start as i64, (start + width) as i64));
                mask.push(true);
            } else {
                idx.push((0, 0));
                mask.push(false);
            }
            proof {
                let nw = num_words as int;
                let mw = max_width as int;
                assert forall|s: int, w: int| 0 <= s < start && 0 <= w < max_width implies #[trigger] span_entry_ok(
                    idx@,
                    mask@,
                    nw,
                    mw,
                    s,
                    w,
                ) by {
                    lemma_span_pos_below(mw, s, w, start as int);
                    assert(span_entry_ok(old_idx, old_mask, nw, mw, s, w));
                }
                assert forall|w: int| 0 <= w < width + 1 implies #[trigger] span_entry_ok(
                    idx@,
                    mask@,
                    nw,
                    mw,
                    start as int,
                    w,
                ) by {
                    if w < width {
                        assert(span_entry_ok(old_idx, old_mask, nw, mw, start as int, w));
                    }
                }
            }
            width = width + 1;
        }
        proof {
            assert((start + 1) * max_width == start * max_width + max_width) by (nonlinear_arith);
        }
        start = start + 1;
    }
    (idx, mask)
}

// ---------------------------------------------------------------------------
// Token layout of the encoder input
// ---------------------------------------------------------------------------

/// The number of tokens of the words.
pub open spec fn tok_count(encs: Seq<Seq<u32>>) -> nat
    decreases encs.len(),
{
    if encs.len() == 0 {
        0
    } else {
        tok_count(encs.drop_last()) + encs.last().len()
    }
}

/// The token ids of the words, one word after another.
pub open spec fn flat_ids(encs: Seq<Seq<u32>>) -> Seq<i64>
    decreases encs.len(),
{
    if encs.len() == 0 {
        seq![]
    } else {
        flat_ids(encs.drop_last()) + encs.last().map_values(|t: u32| t as i64)
    }
}

/// How many of the words end at or after token position `offset` (the
/// first token sits at position 1, after the start token).
pub open spec fn words_ending_from(encs: Seq<Seq<u32>>, offset: int) -> int
    decreases encs.len(),
{
    if encs.len() == 0 {
        0
    } else {
        words_ending_from(encs.drop_last(), offset) + if 1 + tok_count(encs) >= offset {
            1int
        } else {
            0int
        }
    }
}

/// The word mask of the words' tokens: the first token of each word that
/// starts at or after `offset` carries the number of words that ended at or
/// after `offset` before it; every other token carries 0.
pub open spec fn word_mask(encs: Seq<Seq<u32>>, offset: int) -> Seq<i64>
    decreases encs.len(),
{
    if encs.len() == 0 {
        seq![]
    } else {
        let prev = encs.drop_last();
        let start = 1 + tok_count(prev);
        let n = encs.last().len();
        word_mask(prev, offset) + if n > 0 {
            seq![
                if start >= offset {
                    words_ending_from(prev, offset) as i64
                } else {
                    0i64
                },
            ] + Seq::new((n - 1) as nat, |i: int| 0i64)
        } else {
            seq![]
        }
    }
}

/// The integer tensors of one encoder input.
pub struct EncodedLayout {
    /// Start token 1, the token ids of every prompt item, end token 2.
    pub input_ids: Vec<i64>,
    /// 1 for every token.
    pub attention_masks: Vec<i64>,
    /// The word index of the first token of each text word, else 0.
    pub word_masks: Vec<i64>,
    /// The number of text words plus one.
    pub text_length: i64,
    pub num_words: usize,
}

proof fn lemma_tok_count_mono(encs: Seq<Seq<u32>>, p: int)
    requires
        0 <= p <= encs.len(),
    ensures
        tok_count(encs.take(p)) <= tok_count(encs),
    decreases encs.len() - p,
{
    if p < encs.len() {
        lemma_tok_count_mono(encs, p + 1);
        assert(encs.take(p + 1).drop_last() =~= encs.take(p));
    } else {
        assert(encs.take(p) =~= encs);
    }
}

/// Lays out the encoder input from the token ids of each prompt item (the
/// first `ent_len` items are the entity part): the start token, every
/// token, the end token; attention on every token; and the word mask, which
/// numbers the text words from 1 at their first token. The text words start
/// after the tokens of the entity part and the start token.
pub fn encode_layout(encs: &Vec<Vec<u32>>, ent_len: usize, text_word_count: usize) -> (r:
    EncodedLayout)
    requires
        tok_count(encs@.map_values(|e: Vec<u32>| e@)) + 2 <= usize::MAX,
        encs@.len() < i64::MAX,
        text_word_count < i64::MAX,
        text_word_count < usize::MAX,
    ensures
        ({
            let e = encs@.map_values(|e: Vec<u32>| e@);
            let entity_part = if ent_len <= e.len() {
                e.take(ent_len as int)
            } else {
                e
            };
            let offset = tok_count(entity_part) + 1int;
            &&& r.input_ids@ == seq![1i64] + flat_ids(e) + seq![2i64]
            &&& r.attention_masks@ == Seq::new(tok_count(e) + 2, |i: int| 1i64)
            &&& r.word_masks@ == seq![0i64] + word_mask(e, offset) + seq![0i64]
            &&& r.text_length == text_word_count + 1
            &&& r.num_words == text_word_count + 1
        }),
{
    let ghost e = encs@.map_values(|e: Vec<u32>| e@);
    // first pass: count the tokens of the entity part
    let mut entity_tokens: usize = 0;
    let mut p: usize = 0;
    let lim = if ent_len <= encs.len() {
        ent_len
    } else {
        encs.len()
    };
    while p < lim
        invariant
            lim <= encs@.len(),
            e == encs@.map_values(|e: Vec<u32>| e@),
            0 <= p <= lim,
            entity_tokens == tok_count(e.take(p as int)),
            tok_count(e) + 2 <= usize::MAX,
        decreases lim - p,
    {
        proof {
            assert(e.take(p + 1).drop_last() =~= e.take(p as int));
            lemma_tok_count_mono(e, p + 1);
        }
        entity_tokens = entity_tokens + encs[p].len();
        p = p + 1;
    }
    proof {
        if ent_len > encs@.len() {
            assert(e.take(lim as int) =~= e);
        }
        lemma_tok_count_mono(e, lim as int);
    }
    let text_offset = entity_tokens + 1;
    let mut input_ids: Vec<i64> = Vec::new();
    let mut attention: Vec<i64> = Vec::new();
    let mut masks: Vec<i64> = Vec::new();
    input_ids.push(1);
    attention.push(1);
    masks.push(0);
    let mut idx: usize = 1;
    let mut word_id: i64 = 0;
    let mut q: usize = 0;
    while q < encs.len()
        invariant
            e == encs@.map_values(|e: Vec<u32>| e@),
            0 <= q <= encs@.len(),
            encs@.len() < i64::MAX,
            tok_count(e) + 2 <= usize::MAX,
            idx == 1 + tok_count(e.take(q as int)),
            word_id == words_ending_from(e.take(q as int), text_offset as int),
            0 <= word_id <= q,
            input_ids@ == seq![1i64] + flat_ids(e.take(q as int)),
            attention@ == Seq::new(idx as nat, |i: int| 1i64),
            masks@ == seq![0i64] + word_mask(e.take(q as int), text_offset as int),
        decreases encs@.len() - q,
    {
        let ghost pre = e.take(q as int);
        let ghost post = e.take(q + 1);
        proof {
            assert(post.drop_last() =~= pre);
            assert(post.last() == encs@[q as int]@);
            lemma_tok_count_mono(e, q + 1);
        }
        let word = &encs[q];
        let ghost base_ids = input_ids@;
        let ghost base_masks = masks@;
        let first_mask: i64 = if idx >= text_offset {
            word_id
        } else {
            0
        };
        let mut t: usize = 0;
        while t < word.len()
            invariant
                0 <= t <= word@.len(),
                q < encs@.len(),
                *word == encs@[q as int],
                idx + word@.len() - t <= tok_count(e) + 1,
                tok_count(e) + 2 <= usize::MAX,
                idx == 1 + tok_count(pre) + t,
                input_ids@ == base_ids + word@.take(t as int).map_values(|x: u32| x as i64),
                attention@ == Seq::new(idx as nat, |i: int| 1i64),
                masks@ == base_masks + if t > 0 {
                    seq![first_mask] + Seq::new((t - 1) as nat, |i: int| 0i64)
                } else {
                    seq![]
                },
            decreases word@.len() - t,
        {
            let ghost prev_ids = input_ids@;
            let ghost prev_masks = masks@;
            input_ids.push(word[t] as i64);
            attention.push(1);
            if t == 0 {
                masks.push(first_mask);
            } else {
                masks.push(0);
            }
            proof {
                assert(word@.take(t + 1).map_values(|x: u32| x as i64) =~= word@.take(
                    t as int,
                ).map_values(|x: u32| x as i64).push(word@[t as int] as i64));
                assert(input_ids@ =~= base_ids + word@.take(t + 1).map_values(|x: u32| x as i64));
                assert(attention@ =~= Seq::new((idx + 1) as nat, |i: int| 1i64));
                if t == 0 {
                    assert(masks@ =~= base_masks + (seq![first_mask] + Seq::new(0, |i: int| 0i64)));
                } else {
                    assert(masks@ =~= base_masks + (seq![first_mask] + Seq::new(
                        t as nat,
                        |i: int| 0i64,
                    )));
                }
            }
            idx = idx + 1;
            t = t + 1;
        }
        proof {
            assert(word@.take(word@.len() as int) =~= word@);
            assert(flat_ids(post) == flat_ids(pre) + e[q as int].map_values(|x: u32| x as i64));
            assert(input_ids@ =~= seq![1i64] + flat_ids(post));
            assert(masks@ =~= seq![0i64] + word_mask(post, text_offset as int));
        }
        if idx >= text_offset {
            word_id = word_id + 1;
        }
        q = q + 1;
    }
    proof {
        assert(e.take(encs@.len() as int) =~= e);
    }
    input_ids.push(2);
    attention.push(1);
    masks.push(0);
    proof {
        assert(attention@ =~= Seq::new(tok_count(e) + 2, |i: int| 1i64));
    }
    EncodedLayout {
        input_ids,
        attention_masks: attention,
        word_masks: masks,
        text_length: (text_word_count + 1) as i64,
        num_words: text_word_count + 1,
    }
}

// ---------------------------------------------------------------------------
// Overlap resolution
// ---------------------------------------------------------------------------

/// A candidate entity span: byte offsets in the text, its probability by
/// IEEE bit pattern (non-negative probabilities order as their bits do),
/// and the index of the caller's candidate it stands for.
#[derive(Debug, Clone, Copy, PartialEq, Eq, Structural)]
pub struct ScoredSpan {
    pub start: usize,
    pub end: usize,
    pub score: u32,
    pub item: usize,
}

/// `a` comes no later than `b` in `(start, end)` order.
pub open spec fn span_le(a: ScoredSpan, b: ScoredSpan) -> bool {
    a.start < b.start || (a.start == b.start && a.end <= b.end)
}

/// The spans are in `(start, end)` order.
pub open spec fn spans_sorted(s: Seq<ScoredSpan>) -> bool {
    forall|i: int, j: int| 0 <= i < j < s.len() ==> span_le(#[trigger] s[i], #[trigger] s[j])
}

fn span_le_exec(a: &ScoredSpan, b: &ScoredSpan) -> (r: bool)
    ensures
        r == span_le(*a, *b),
{
    a.start < b.start || (a.start == b.start && a.end <= b.end)
}

/// Sorts the spans by `(start, end)`: the result holds the same spans, in
/// non-decreasing offset order (the order among spans with equal offsets is
/// left open).
pub fn sort_spans(spans: &Vec<ScoredSpan>) -> (r: Vec<ScoredSpan>)
    ensures
        spans_sorted(r@),
        r@.to_multiset() == spans@.to_multiset(),
{
    let mut out: Vec<ScoredSpan> = Vec::new();
    let mut i: usize = 0;
    assert(out@ =~= spans@.take(0));
    while i < spans.len()
        invariant
            0 <= i <= spans@.len(),
            spans_sorted(out@),
            out@.to_multiset() == spans@.take(i as int).to_multiset(),
        decreases spans@.len() - i,
    {
        let x = spans[i];
        let mut pos: usize = 0;
        while pos < out.len() && span_le_exec(&out[pos], &x)
            invariant
                0 <= pos <= out@.len(),
                forall|k: int| 0 <= k < pos ==> span_le(#[trigger] out@[k], x),
            decreases out@.len() - pos,
        {
            pos = pos + 1;
        }
        let ghost before = out@;
        out.insert(pos, x);
        proof {
            assert(spans@.take(i + 1) =~= spans@.take(i as int).push(x));
            vstd::seq_lib::to_multiset_insert(before, pos as int, x);
            vstd::seq_lib::to_multiset_build(spans@.take(i as int), x);
            assert forall|a: int, b: int| 0 <= a < b < out@.len() implies span_le(
                #[trigger] out@[a],
                #[trigger] out@[b],
            ) by {
                if a < pos && b < pos {
                    assert(out@[a] == before[a] && out@[b] == before[b]);
                } else if a < pos && b == pos {
                    assert(out@[a] == before[a]);
                } else if a < pos && b > pos {
                    assert(out@[a] == before[a] && out@[b] == before[b - 1]);
                    assert(span_le(before[a], x));
                    assert(!span_le(before[pos as int], x));
                    if b - 1 > pos {
                        assert(span_le(before[pos as int], before[b - 1]));
                    }
                } else if a == pos {
                    assert(out@[b] == before[b - 1]);
                    assert(!span_le(before[pos as int], x));
                    if b - 1 > pos {
                        assert(span_le(before[pos as int], before[b - 1]));
                    }
                } else {
                    assert(out@[a] == before[a - 1] && out@[b] == before[b - 1]);
                }
            }
        }
        i = i + 1;
    }
    assert(spans@.take(spans@.len() as int) =~= spans@);
    out
}

/// Whether two spans do not overlap: one ends no later than the other starts.
pub open spec fn spans_disjoint(a: ScoredSpan, b: ScoredSpan) -> bool {
    b.start >= a.end || a.start >= b.end
}

/// The greedy walk over the sorted spans after looking at the spans before
/// position `n`: the current candidate and the spans kept so far. A span
/// that does not overlap the candidate keeps the candidate and becomes the
/// next candidate; an overlapping span with a strictly higher score replaces
/// the candidate.
pub open spec fn greedy_state(s: Seq<ScoredSpan>, n: int) -> (int, Seq<bool>)
    decreases n,
{
    if n <= 1 {
        (0, Seq::new(s.len(), |i: int| false))
    } else {
        let (prev, keep) = greedy_state(s, n - 1);
        let next = n - 1;
        if spans_disjoint(s[next], s[prev]) {
            (next, keep.update(prev, true))
        } else if s[prev].score < s[next].score {
            (next, keep)
        } else {
            (prev, keep)
        }
    }
}

/// Which spans the greedy walk keeps: those kept on the way, and the last
/// candidate.
pub open spec fn greedy_keep(s: Seq<ScoredSpan>) -> Seq<bool> {
    if s.len() <= 1 {
        Seq::new(s.len(), |i: int| true)
    } else {
        let (prev, keep) = greedy_state(s, s.len() as int);
        keep.update(prev, true)
    }
}

/// The spans whose flag is set, in order.
pub open spec fn select_spans(s: Seq<ScoredSpan>, keep: Seq<bool>) -> Seq<ScoredSpan>
    decreases s.len(),
{
    if s.len() == 0 {
        seq![]
    } else {
        let rest = select_spans(s.drop_last(), keep);
        if keep[s.len() - 1] {
            rest.push(s.last())
        } else {
            rest
        }
    }
}

proof fn lemma_greedy_state_shape(s: Seq<ScoredSpan>, n: int)
    requires
        1 <= n <= s.len(),
    ensures
        0 <= greedy_state(s, n).0 < n,
        greedy_state(s, n).1.len() == s.len(),
        forall|k: int|
            0 <= k < s.len() && (#[trigger] greedy_state(s, n).1[k]) ==> k < greedy_state(s, n).0,
    decreases n,
{
    if n > 1 {
        lemma_greedy_state_shape(s, n - 1);
    }
}

/// Keeps the spans the greedy walk keeps (see `greedy_keep`), in order. The
/// spans are expected in `(start, end)` order; then, when each starts before
/// it ends, the kept spans do not overlap: each ends no later than the next
/// one starts.
pub fn greedy_flat(spans: Vec<ScoredSpan>) -> (r: Vec<ScoredSpan>)
    ensures
        r@ == select_spans(spans@, greedy_keep(spans@)),
        spans_sorted(spans@) && (forall|i: int|
            0 <= i < spans@.len() ==> (#[trigger] spans@[i]).start < spans@[i].end) ==> forall|
            i: int,
            j: int,
        | 0 <= i < j < r@.len() ==> (#[trigger] r@[i]).end <= (#[trigger] r@[j]).start,
{
    proof {
        if spans_sorted(spans@) && (forall|i: int|
            0 <= i < spans@.len() ==> (#[trigger] spans@[i]).start < spans@[i].end) {
            law_greedy_spans_disjoint(spans@);
        }
    }
    let n = spans.len();
    if n <= 1 {
        proof {
            let keep = greedy_keep(spans@);
            if n == 1 {
                assert(spans@.drop_last() =~= Seq::<ScoredSpan>::empty());
                assert(keep[0]);
                assert(select_spans(spans@.drop_last(), keep) =~= Seq::<ScoredSpan>::empty());
                assert(select_spans(spans@, keep) =~= spans@);
            } else {
                assert(spans@.len() == 0);
                assert(select_spans(spans@, keep) =~= Seq::<ScoredSpan>::empty());
                assert(spans@ =~= Seq::<ScoredSpan>::empty());
            }
        }
        return spans;
    }
    let mut keep: Vec<bool> = Vec::new();
    let mut k: usize = 0;
    while k < n
        invariant
            n == spans@.len(),
            0 <= k <= n,
            keep@ == Seq::new(k as nat, |i: int| false),
        decreases n - k,
    {
        keep.push(false);
        proof {
            assert(keep@ =~= Seq::new((k + 1) as nat, |i: int| false));
        }
        k = k + 1;
    }
    let mut prev: usize = 0;
    let mut next: usize = 1;
    while next < n
        invariant
            n == spans@.len(),
            1 <= next <= n,
            (prev as int, keep@) == greedy_state(spans@, next as int),
        decreases n - next,
    {
        proof {
            lemma_greedy_state_shape(spans@, next as int);
        }
        let a = spans[next];
        let b = spans[prev];
        let no_overlap = a.start >= b.end || b.start >= a.end;
        if no_overlap {
            keep.set(prev, true);
            prev = next;
        } else if b.score < a.score {
            prev = next;
        }
        next = next + 1;
    }
    proof {
        lemma_greedy_state_shape(spans@, n as int);
    }
    keep.set(prev, true);
    let ghost flags = keep@;
    assert(flags == greedy_keep(spans@));
    let mut out: Vec<ScoredSpan> = Vec::new();
    let mut i: usize = 0;
    while i < n
        invariant
            n == spans@.len(),
            flags.len() == n,
            keep@ == flags,
            0 <= i <= n,
            out@ == select_spans(spans@.take(i as int), flags),
        decreases n - i,
    {
        proof {
            assert(spans@.take(i + 1).drop_last() =~= spans@.take(i as int));
        }
        if keep[i] {
            out.push(spans[i]);
        }
        i = i + 1;
    }
    assert(spans@.take(n as int) =~= spans@);
    out
}

proof fn lemma_select_member(s: Seq<ScoredSpan>, keep: Seq<bool>, i: int) -> (k: int)
    requires
        keep.len() >= s.len(),
        0 <= i < select_spans(s, keep).len(),
    ensures
        0 <= k < s.len(),
        keep[k],
        select_spans(s, keep)[i] == s[k],
    decreases s.len(),
{
    let d = s.drop_last();
    let rd = select_spans(d, keep);
    if i < rd.len() {
        let k = lemma_select_member(d, keep, i);
        assert(s[k] == d[k]);
        k
    } else {
        (s.len() - 1) as int
    }
}

/// The kept spans of `s` are ordered: each kept span ends no later than a
/// later kept span starts.
pub open spec fn kept_chain(s: Seq<ScoredSpan>, keep: Seq<bool>) -> bool {
    forall|k1: int, k2: int|
        0 <= k1 < k2 < s.len() && keep[k1] && keep[k2] ==> (#[trigger] s[k1]).end <= (
        #[trigger] s[k2]).start
}

proof fn lemma_select_chain(s: Seq<ScoredSpan>, keep: Seq<bool>)
    requires
        keep.len() >= s.len(),
        kept_chain(s, keep),
    ensures
        forall|i: int, j: int|
            0 <= i < j < select_spans(s, keep).len() ==> (#[trigger] select_spans(s, keep)[i]).end
                <= (#[trigger] select_spans(s, keep)[j]).start,
    decreases s.len(),
{
    if s.len() > 0 {
        let d = s.drop_last();
        assert(kept_chain(d, keep)) by {
            assert forall|k1: int, k2: int|
                0 <= k1 < k2 < d.len() && keep[k1] && keep[k2] implies (#[trigger] d[k1]).end <= (
            #[trigger] d[k2]).start by {
                assert(d[k1] == s[k1] && d[k2] == s[k2]);
            }
        }
        lemma_select_chain(d, keep);
        let r = select_spans(s, keep);
        let rd = select_spans(d, keep);
        assert forall|i: int, j: int| 0 <= i < j < r.len() implies (#[trigger] r[i]).end <= (
        #[trigger] r[j]).start by {
            if j < rd.len() {
                assert(r[i] == rd[i] && r[j] == rd[j]);
            } else {
                assert(r[i] == rd[i]);
                let k = lemma_select_member(d, keep, i);
                assert(s[k] == d[k]);
                assert(r[j] == s[s.len() - 1]);
            }
        }
    }
}

proof fn lemma_greedy_chain(s: Seq<ScoredSpan>, n: int)
    requires
        1 <= n <= s.len(),
        spans_sorted(s),
        forall|i: int| 0 <= i < s.len() ==> (#[trigger] s[i]).start < s[i].end,
    ensures
        kept_chain(s, greedy_state(s, n).1),
        forall|k: int|
            0 <= k < s.len() && (#[trigger] greedy_state(s, n).1[k]) ==> s[k].end <= s[greedy_state(
                s,
                n,
            ).0].start,
    decreases n,
{
    lemma_greedy_state_shape(s, n);
    if n > 1 {
        lemma_greedy_chain(s, n - 1);
        lemma_greedy_state_shape(s, n - 1);
        let (prev, keep) = greedy_state(s, n - 1);
        let next = n - 1;
        assert(span_le(s[prev], s[next]));
        if spans_disjoint(s[next], s[prev]) {
            assert(s[next].start >= s[prev].end);
            let nk = keep.update(prev, true);
            assert forall|k1: int, k2: int|
                0 <= k1 < k2 < s.len() && nk[k1] && nk[k2] implies (#[trigger] s[k1]).end <= (
            #[trigger] s[k2]).start by {
                if k2 == prev {
                    assert(keep[k1]);
                } else if k1 == prev {
                    assert(keep[k2]);
                    assert(k2 < prev);
                } else {
                    assert(keep[k1] && keep[k2]);
                }
            }
            assert forall|k: int| 0 <= k < s.len() && (#[trigger] nk[k]) implies s[k].end
                <= s[next].start by {
                if k != prev {
                    assert(keep[k]);
                    assert(s[k].end <= s[prev].start);
                }
            }
        } else {
            assert forall|k: int| 0 <= k < s.len() && (#[trigger] keep[k]) implies s[k].end
                <= s[next].start by {
                assert(s[k].end <= s[prev].start);
            }
        }
    }
}

/// Of two overlapping spans in `(start, end)` order, only the one with the
/// strictly higher score is kept; on equal scores the earlier one.
pub proof fn law_overlapping_pair_keeps_higher_score(a: ScoredSpan, b: ScoredSpan)
    requires
        span_le(a, b),
        b.start < a.end,
        a.start < b.end,
    ensures
        select_spans(seq![a, b], greedy_keep(seq![a, b])) == (if a.score < b.score {
            seq![b]
        } else {
            seq![a]
        }),
{
    let s = seq![a, b];
    let st1 = greedy_state(s, 1);
    assert(st1.1 =~= seq![false, false]);
    let keep = greedy_keep(s);
    if a.score < b.score {
        assert(keep =~= seq![false, true]);
    } else {
        assert(keep =~= seq![true, false]);
    }
    assert(s.drop_last() =~= seq![a]);
    assert(seq![a].drop_last() =~= Seq::<ScoredSpan>::empty());
    let e = Seq::<ScoredSpan>::empty();
    assert(select_spans(e, keep) =~= e);
    if keep[0] {
        assert(select_spans(seq![a], keep) =~= e.push(a));
        assert(e.push(a) =~= seq![a]);
    } else {
        assert(select_spans(seq![a], keep) =~= e);
    }
    assert(select_spans(s, keep) =~= (if a.score < b.score { seq![b] } else { seq![a] }));
}

/// Some span before position `n` that is kept or is the current candidate
/// scores at least as high as span `k`.
pub open spec fn outscored_by_held(s: Seq<ScoredSpan>, keep: Seq<bool>, prev: int, n: int, k: int) -> bool {
    exists|m: int| 0 <= m < n && (keep[m] || m == prev) && #[trigger] s[m].score >= s[k].score
}

proof fn lemma_walk_outscores(s: Seq<ScoredSpan>, n: int)
    requires
        1 <= n <= s.len(),
    ensures
        forall|k: int|
            0 <= k < n && k != greedy_state(s, n).0 && !greedy_state(s, n).1[k] ==> #[trigger] outscored_by_held(
                s,
                greedy_state(s, n).1,
                greedy_state(s, n).0,
                n,
                k,
            ),
    decreases n,
{
    lemma_greedy_state_shape(s, n);
    if n > 1 {
        lemma_walk_outscores(s, n - 1);
        lemma_greedy_state_shape(s, n - 1);
        let (p, kp) = greedy_state(s, n - 1);
        let (q, kq) = greedy_state(s, n);
        let next = n - 1;
        assert forall|k: int| 0 <= k < n && k != q && !kq[k] implies #[trigger] outscored_by_held(
            s,
            kq,
            q,
            n,
            k,
        ) by {
            if spans_disjoint(s[next], s[p]) {
                assert(k != p);
                assert(k < next);
                assert(!kp[k]);
                assert(outscored_by_held(s, kp, p, n - 1, k));
                let m = choose|m: int|
                    0 <= m < n - 1 && (kp[m] || m == p) && #[trigger] s[m].score >= s[k].score;
                assert(kq[m]);
                assert(0 <= m < n && (kq[m] || m == q) && s[m].score >= s[k].score);
            } else if s[p].score < s[next].score {
                assert(k < next);
                if k == p {
                    assert(0 <= next < n && (kq[next] || next == q) && s[next].score >= s[k].score);
                } else {
                    assert(outscored_by_held(s, kp, p, n - 1, k));
                    let m = choose|m: int|
                        0 <= m < n - 1 && (kp[m] || m == p) && #[trigger] s[m].score >= s[k].score;
                    if m == p {
                        assert(0 <= next < n && (kq[next] || next == q) && s[next].score >= s[k].score);
                    } else {
                        assert(0 <= m < n && (kq[m] || m == q) && s[m].score >= s[k].score);
                    }
                }
            } else {
                if k == next {
                    assert(0 <= p < n && (kq[p] || p == q) && s[p].score >= s[k].score);
                } else {
                    assert(outscored_by_held(s, kp, p, n - 1, k));
                    let m = choose|m: int|
                        0 <= m < n - 1 && (kp[m] || m == p) && #[trigger] s[m].score >= s[k].score;
                    assert(0 <= m < n && (kq[m] || m == q) && s[m].score >= s[k].score);
                }
            }
        }
    }
}

/// A span is dropped only in favour of one that scores at least as high:
/// every span the walk drops is outscored (or matched) by a span it keeps.
pub proof fn law_dropped_spans_are_outscored(s: Seq<ScoredSpan>)
    ensures
        forall|k: int|
            0 <= k < s.len() && !(#[trigger] greedy_keep(s)[k]) ==> exists|m: int|
                0 <= m < s.len() && greedy_keep(s)[m] && s[m].score >= s[k].score,
{
    if s.len() > 1 {
        let n = s.len() as int;
        lemma_walk_outscores(s, n);
        lemma_greedy_state_shape(s, n);
        let (p, kp) = greedy_state(s, n);
        let keep = greedy_keep(s);
        assert forall|k: int| 0 <= k < s.len() && !(#[trigger] greedy_keep(s)[k]) implies exists|m: int|
            0 <= m < s.len() && greedy_keep(s)[m] && s[m].score >= s[k].score by {
            assert(k != p);
            assert(!kp[k]);
            assert(outscored_by_held(s, kp, p, n, k));
            let m = choose|m: int| 0 <= m < n && (kp[m] || m == p) && #[trigger] s[m].score >= s[k].score;
            assert(keep[m]);
        }
    }
}

/// The spans the greedy walk keeps never overlap: over spans sorted by
/// `(start, end)`, each of which starts before it ends, each kept span ends
/// no later than the next kept span starts.
pub proof fn law_greedy_spans_disjoint(s: Seq<ScoredSpan>)
    requires
        spans_sorted(s),
        forall|i: int| 0 <= i < s.len() ==> (#[trigger] s[i]).start < s[i].end,
    ensures
        forall|i: int, j: int|
            0 <= i < j < select_spans(s, greedy_keep(s)).len() ==> (#[trigger] select_spans(
                s,
                greedy_keep(s),
            )[i]).end <= (#[trigger] select_spans(s, greedy_keep(s))[j]).start,
{
    let keep = greedy_keep(s);
    if s.len() > 1 {
        lemma_greedy_chain(s, s.len() as int);
        lemma_greedy_state_shape(s, s.len() as int);
        let (prev, k0) = greedy_state(s, s.len() as int);
        assert forall|k1: int, k2: int|
            0 <= k1 < k2 < s.len() && keep[k1] && keep[k2] implies (#[trigger] s[k1]).end <= (
        #[trigger] s[k2]).start by {
            if k2 == prev {
                assert(k0[k1]);
            } else if k1 == prev {
                assert(k0[k2]);
            } else {
                assert(k0[k1] && k0[k2]);
            }
        }
    }
    lemma_select_chain(s, keep);
}

/// Sorts the spans by `(start, end)` and keeps those the greedy walk keeps:
/// the spans that survive overlap resolution, in order.
pub fn resolve_spans(spans: &Vec<ScoredSpan>) -> (r: Vec<ScoredSpan>)
    ensures
        exists|t: Seq<ScoredSpan>|
            spans_sorted(t) && t.to_multiset() == spans@.to_multiset() && r@ == select_spans(
                t,
                greedy_keep(t),
            ),
        (forall|i: int| 0 <= i < spans@.len() ==> (#[trigger] spans@[i]).start < spans@[i].end)
            ==> forall|i: int, j: int|
            0 <= i < j < r@.len() ==> (#[trigger] r@[i]).end <= (#[trigger] r@[j]).start,
{
    let sorted = sort_spans(spans);
    let ghost t = sorted@;
    let r = greedy_flat(sorted);
    proof {
        if forall|i: int| 0 <= i < spans@.len() ==> (#[trigger] spans@[i]).start < spans@[i].end {
            assert forall|i: int| 0 <= i < t.len() implies (#[trigger] t[i]).start < t[i].end by {
                broadcast use vstd::seq_lib::group_to_multiset_ensures;

                assert(t.contains(t[i]));
                assert(t.to_multiset().count(t[i]) > 0);
                assert(spans@.contains(t[i]));
            }
            law_greedy_spans_disjoint(t);
        }
    }
    r
}

// ---------------------------------------------------------------------------
// Filling the slots
// ---------------------------------------------------------------------------

/// An entity found in the text: its label, its text, and whether its
/// probability reaches the confidence the slots ask for.
pub struct FoundEntity {
    pub label: String,
    pub text: String,
    pub confident: bool,
}

/// The entities by view.
pub open spec fn entities_view(e: Seq<FoundEntity>) -> Seq<(Seq<char>, Seq<char>, bool)> {
    e.map_values(|x: FoundEntity| (x.label@, x.text@, x.confident))
}

/// The slot names of the first group with the label; none when no group has
/// it.
pub open spec fn group_names(groups: Seq<(Seq<char>, Seq<Seq<char>>)>, label: Seq<char>) -> Seq<
    Seq<char>,
>
    decreases groups.len(),
{
    if groups.len() == 0 {
        seq![]
    } else if groups[0].0 == label {
        groups[0].1
    } else {
        group_names(groups.drop_first(), label)
    }
}

/// The text of the first confident entity whose label's group names the
/// slot.
pub open spec fn slot_text(
    ents: Seq<(Seq<char>, Seq<char>, bool)>,
    groups: Seq<(Seq<char>, Seq<Seq<char>>)>,
    name: Seq<char>,
) -> Option<Seq<char>>
    decreases ents.len(),
{
    if ents.len() == 0 {
        None
    } else {
        let before = slot_text(ents.drop_last(), groups, name);
        if before is Some {
            before
        } else if ents.last().2 && group_names(groups, ents.last().0).contains(name) {
            Some(ents.last().1)
        } else {
            None
        }
    }
}

proof fn lemma_group_names_at(groups: Seq<(Seq<char>, Seq<Seq<char>>)>, label: Seq<char>, k: int)
    requires
        0 <= k < groups.len(),
        groups[k].0 == label,
        forall|j: int| 0 <= j < k ==> (#[trigger] groups[j]).0 != label,
    ensures
        group_names(groups, label) == groups[k].1,
    decreases k,
{
    if k > 0 {
        let d = groups.drop_first();
        assert forall|j: int| 0 <= j < k - 1 implies (#[trigger] d[j]).0 != label by {
            assert(d[j] == groups[j + 1]);
        }
        lemma_group_names_at(d, label, k - 1);
    }
}

proof fn lemma_group_names_absent(groups: Seq<(Seq<char>, Seq<Seq<char>>)>, label: Seq<char>)
    requires
        forall|j: int| 0 <= j < groups.len() ==> (#[trigger] groups[j]).0 != label,
    ensures
        group_names(groups, label) == Seq::<Seq<char>>::empty(),
    decreases groups.len(),
{
    if groups.len() > 0 {
        let d = groups.drop_first();
        assert forall|j: int| 0 <= j < d.len() implies (#[trigger] d[j]).0 != label by {
            assert(d[j] == groups[j + 1]);
        }
        lemma_group_names_absent(d, label);
    }
}

fn has_slot(r: &Vec<(String, String)>, name: &str) -> (b: bool)
    ensures
        b == exists|k: int| 0 <= k < r@.len() && (#[trigger] r@[k]).0@ == name@,
{
    let mut k: usize = 0;
    while k < r.len()
        invariant
            0 <= k <= r@.len(),
            forall|j: int| 0 <= j < k ==> (#[trigger] r@[j]).0@ != name@,
        decreases r@.len() - k,
    {
        if str_eq(r[k].0.as_str(), name) {
            return true;
        }
        k = k + 1;
    }
    false
}

/// Fills the slots from the entities, in order: a confident entity fills
/// each slot of its label's group that no earlier entity filled. Each slot
/// appears once, with the text `slot_text` gives it, and every slot that
/// `slot_text` gives a text appears.
pub fn assign_slots(entities: &Vec<FoundEntity>, groups: &Vec<(String, Vec<String>)>) -> (r: Vec<
    (String, String),
>)
    ensures
        forall|k1: int, k2: int|
            0 <= k1 < k2 < r@.len() ==> (#[trigger] r@[k1]).0@ != (#[trigger] r@[k2]).0@,
        forall|k: int|
            0 <= k < r@.len() ==> slot_text(
                entities_view(entities@),
                groups_view(groups@),
                (#[trigger] r@[k]).0@,
            ) == Some(r@[k].1@),
        forall|n: Seq<char>|
            (#[trigger] slot_text(entities_view(entities@), groups_view(groups@), n)) is Some
                ==> exists|k: int| 0 <= k < r@.len() && (#[trigger] r@[k]).0@ == n,
{
    let ghost ev = entities_view(entities@);
    let ghost gv = groups_view(groups@);
    let mut r: Vec<(String, String)> = Vec::new();
    let mut i: usize = 0;
    while i < entities.len()
        invariant
            0 <= i <= entities@.len(),
            ev == entities_view(entities@),
            gv == groups_view(groups@),
            forall|k1: int, k2: int|
                0 <= k1 < k2 < r@.len() ==> (#[trigger] r@[k1]).0@ != (#[trigger] r@[k2]).0@,
            forall|k: int|
                0 <= k < r@.len() ==> slot_text(ev.take(i as int), gv, (#[trigger] r@[k]).0@)
                    == Some(r@[k].1@),
            forall|n: Seq<char>|
                (#[trigger] slot_text(ev.take(i as int), gv, n)) is Some ==> exists|k: int|
                    0 <= k < r@.len() && (#[trigger] r@[k]).0@ == n,
        decreases entities@.len() - i,
    {
        let ghost pre = ev.take(i as int);
        let ghost post = ev.take(i + 1);
        proof {
            assert(post.drop_last() =~= pre);
            assert(post.last() == ev[i as int]);
        }
        let e = &entities[i];
        let found = if e.confident {
            find_group(groups, e.label.as_str())
        } else {
            None
        };
        let ghost names: Seq<Seq<char>> = match found {
            Some(k) => gv[k as int].1,
            None => Seq::empty(),
        };
        proof {
            if e.confident {
                match found {
                    Some(k) => {
                        assert forall|j: int| 0 <= j < k implies (#[trigger] gv[j]).0 != e.label@ by {
                            assert(gv[j].0 == groups@[j].0@);
                        }
                        lemma_group_names_at(gv, e.label@, k as int);
                    },
                    None => {
                        assert forall|j: int| 0 <= j < gv.len() implies (#[trigger] gv[j]).0
                            != e.label@ by {
                            assert(gv[j].0 == groups@[j].0@);
                        }
                        lemma_group_names_absent(gv, e.label@);
                    },
                }
            }
            // what the entity adds: the names of its group when it is confident
            assert forall|n: Seq<char>| #[trigger] slot_text(post, gv, n) == (if slot_text(
                pre,
                gv,
                n,
            ) is Some {
                slot_text(pre, gv, n)
            } else if names.contains(n) {
                Some(e.text@)
            } else {
                None
            }) by {}
        }
        match found {
            Some(gk) => {
                let group = &groups[gk].1;
                let mut j: usize = 0;
                while j < group.len()
                    invariant
                        0 <= j <= group@.len(),
                        gk < groups@.len(),
                        *group == groups@[gk as int].1,
                        names == views(group@),
                        forall|k1: int, k2: int|
                            0 <= k1 < k2 < r@.len() ==> (#[trigger] r@[k1]).0@ != (
                            #[trigger] r@[k2]).0@,
                        forall|k: int|
                            0 <= k < r@.len() ==> (slot_text(pre, gv, (#[trigger] r@[k]).0@)
                                == Some(r@[k].1@)) || (slot_text(pre, gv, r@[k].0@) is None
                                && names.contains(r@[k].0@) && r@[k].1@ == e.text@),
                        forall|n: Seq<char>|
                            (#[trigger] slot_text(pre, gv, n)) is Some ==> exists|k: int|
                                0 <= k < r@.len() && (#[trigger] r@[k]).0@ == n,
                        forall|jj: int|
                            0 <= jj < j ==> exists|k: int|
                                0 <= k < r@.len() && (#[trigger] r@[k]).0@ == (
                                #[trigger] group@[jj])@,
                    decreases group@.len() - j,
                {
                    let name = &group[j];
                    if !has_slot(&r, name.as_str()) {
                        let ghost before = r@;
                        r.push((copy_string(name), copy_string(&e.text)));
                        proof {
                            assert(names.contains(name@)) by {
                                assert(names[j as int] == name@);
                            }
                            assert forall|k: int| 0 <= k < r@.len() implies (slot_text(
                                pre,
                                gv,
                                (#[trigger] r@[k]).0@,
                            ) == Some(r@[k].1@)) || (slot_text(pre, gv, r@[k].0@) is None
                                && names.contains(r@[k].0@) && r@[k].1@ == e.text@) by {
                                if k < before.len() {
                                    assert(r@[k] == before[k]);
                                } else {
                                    if slot_text(pre, gv, name@) is Some {
                                        let k0 = choose|k0: int|
                                            0 <= k0 < before.len() && (#[trigger] before[k0]).0@
                                                == name@;
                                        assert(false);
                                    }
                                }
                            }
                            assert forall|n: Seq<char>| (#[trigger] slot_text(pre, gv, n)) is Some
                                implies exists|k: int| 0 <= k < r@.len() && (#[trigger] r@[k]).0@
                                == n by {
                                let k0 = choose|k0: int|
                                    0 <= k0 < before.len() && (#[trigger] before[k0]).0@ == n;
                                assert(r@[k0] == before[k0]);
                            }
                            assert forall|jj: int| 0 <= jj < j + 1 implies exists|k: int|
                                0 <= k < r@.len() && (#[trigger] r@[k]).0@ == (
                                #[trigger] group@[jj])@ by {
                                if jj < j {
                                    let k0 = choose|k0: int|
                                        0 <= k0 < before.len() && (#[trigger] before[k0]).0@ == (
                                        #[trigger] group@[jj])@;
                                    assert(r@[k0] == before[k0]);
                                } else {
                                    assert(r@[before.len() as int].0@ == group@[jj]@);
                                }
                            }
                        }
                    }
                    j = j + 1;
                }
                proof {
                    assert forall|k: int| 0 <= k < r@.len() implies slot_text(
                        post,
                        gv,
                        (#[trigger] r@[k]).0@,
                    ) == Some(r@[k].1@) by {
                        assert(slot_text(post, gv, r@[k].0@) == slot_text(post, gv, r@[k].0@));
                    }
                    assert forall|n: Seq<char>| (#[trigger] slot_text(post, gv, n)) is Some implies exists|
                        k: int,
                    | 0 <= k < r@.len() && (#[trigger] r@[k]).0@ == n by {
                        if slot_text(pre, gv, n) is None {
                            assert(names.contains(n));
                            let jj = choose|jj: int| 0 <= jj < names.len() && names[jj] == n;
                            assert(names[jj] == group@[jj]@);
                        }
                    }
                }
            },
            None => {
                proof {
                    assert forall|k: int| 0 <= k < r@.len() implies slot_text(
                        post,
                        gv,
                        (#[trigger] r@[k]).0@,
                    ) == Some(r@[k].1@) by {
                        assert(slot_text(post, gv, r@[k].0@) == slot_text(post, gv, r@[k].0@));
                    }
                    assert forall|n: Seq<char>| (#[trigger] slot_text(post, gv, n)) is Some implies exists|
                        k: int,
                    | 0 <= k < r@.len() && (#[trigger] r@[k]).0@ == n by {
                        assert(slot_text(pre, gv, n) is Some);
                    }
                }
            },
        }
        i = i + 1;
    }
    proof {
        assert(ev.take(entities@.len() as int) =~= ev);
    }
    r
}

// ---------------------------------------------------------------------------
// The span model's input for a text
// ---------------------------------------------------------------------------

/// What the span model is run on for a text: the slots grouped by entity
/// label, the text's words, and the prompt (each label, the separator, then
/// the words); the tokenizer then encodes the prompt item by item
/// (`encode_layout`) and the span tensors follow (`make_span_tensors`).
pub struct ExtractionInput {
    pub groups: Vec<(String, Vec<String>)>,
    pub words: Vec<WordToken>,
    pub prompt: Vec<String>,
    /// How many prompt items come before the text's words.
    pub ent_len: usize,
}

/// The labels of the groups, in order.
pub open spec fn group_label_views(g: Seq<(String, Vec<String>)>) -> Seq<Seq<char>> {
    g.map_values(|e: (String, Vec<String>)| e.0@)
}

/// The texts of the words, in order.
pub open spec fn word_texts(w: Seq<WordToken>) -> Seq<Seq<char>> {
    w.map_values(|t: WordToken| t.text@)
}

/// The splitter's matches on the text, at most `limit` of them (at least one
/// when there is one).
pub open spec fn limited_words(splitter: CompiledPattern, text: Seq<char>, limit: usize) -> Seq<
    (usize, usize, Seq<char>),
> {
    let all = regex_find_all(splitter.source(), text);
    if limit == 0 {
        all.take(if all.len() > 0 { 1int } else { 0int })
    } else if limit < all.len() {
        all.take(limit as int)
    } else {
        all
    }
}

/// The span model's input for a text and a command's slots, or nothing to
/// extract: nothing when extraction is off (no slots, or the backend is
/// `"none"` or not set), when no slot has an entity label, or when the text
/// has no words (at most `max_length` words are taken).
pub fn extraction_input(
    splitter: &CompiledPattern,
    text: &str,
    slots: &Vec<(String, SlotDefinition)>,
    backend: Option<&str>,
    max_length: usize,
) -> (r: Option<ExtractionInput>)
    requires
        2 * slots@.len() + 2 + max_length <= usize::MAX,
    ensures
        !(slots@.len() > 0 && (backend matches Some(b) && b@ != "none"@)) ==> r is None,
        slots@.len() > 0 && (backend matches Some(b) && b@ != "none"@) ==> match r {
            None => (forall|i: int| 0 <= i < slots@.len() ==> (#[trigger] slots@[i]).1.entity@.len()
                == 0) || limited_words(*splitter, text@, max_length).len() == 0,
            Some(inp) => {
                &&& groups_slots(groups_view(inp.groups@), slot_views(slots@))
                &&& inp.groups@.len() > 0
                &&& tokens_view(inp.words@) == limited_words(*splitter, text@, max_length)
                &&& inp.words@.len() > 0
                &&& views(inp.prompt@) == entity_prompt(group_label_views(inp.groups@)) + seq![
                    "<<SEP>>"@,
                ] + word_texts(inp.words@)
                &&& inp.ent_len == 2 * inp.groups@.len() + 1
            },
        },
{
    if !extraction_enabled(slots.len(), backend) {
        return None;
    }
    let groups = group_labels(slots);
    if groups.len() == 0 {
        proof {
            assert forall|i: int| 0 <= i < slots@.len() implies (#[trigger] slots@[i]).1.entity@.len()
                == 0 by {
                let sv = slot_views(slots@);
                assert(sv[i] == (slots@[i].0@, slots@[i].1.entity@));
            }
        }
        return None;
    }
    let words = split_words(splitter, text, Some(max_length));
    if words.len() == 0 {
        return None;
    }
    let mut labels: Vec<String> = Vec::new();
    let mut k: usize = 0;
    while k < groups.len()
        invariant
            0 <= k <= groups@.len(),
            views(labels@) == group_label_views(groups@).take(k as int),
        decreases groups@.len() - k,
    {
        let ghost prev = labels@;
        let l = copy_string(&groups[k].0);
        labels.push(l);
        proof {
            assert(views(labels@) =~= views(prev).push(l@));
            assert(group_label_views(groups@).take(k + 1) =~= group_label_views(groups@).take(
                k as int,
            ).push(groups@[k as int].0@));
        }
        k = k + 1;
    }
    assert(group_label_views(groups@).take(groups@.len() as int) =~= group_label_views(groups@));
    let mut texts: Vec<String> = Vec::new();
    let mut j: usize = 0;
    while j < words.len()
        invariant
            0 <= j <= words@.len(),
            views(texts@) == word_texts(words@).take(j as int),
        decreases words@.len() - j,
    {
        let ghost prev = texts@;
        let t = copy_string(&words[j].text);
        texts.push(t);
        proof {
            assert(views(texts@) =~= views(prev).push(t@));
            assert(word_texts(words@).take(j + 1) =~= word_texts(words@).take(j as int).push(
                words@[j as int].text@,
            ));
        }
        j = j + 1;
    }
    assert(word_texts(words@).take(words@.len() as int) =~= word_texts(words@));
    proof {
        let all = regex_find_all(splitter.source(), text@);
        assert(words@.len() == tokens_view(words@).len());
        if max_length == 0 {
            assert(words@.len() <= 1);
        } else if max_length < all.len() {
            assert(words@.len() == max_length);
        } else {
            assert(words@.len() == all.len());
        }
    }
    let (prompt, ent_len) = build_prompt(&labels, &texts);
    Some(ExtractionInput { groups, words, prompt, ent_len })
}

// ---------------------------------------------------------------------------
// Words
// ---------------------------------------------------------------------------

/// The pattern that splits a text into words: runs of word characters,
/// possibly joined by `-` or `_`, or any single other non-space character.
pub const WORD_REGEX: &'static str = "\\w+(?:[-_]\\w+)*|\\S";

/// Compiles the word pattern; `None` when the regex engine refuses it.
pub fn word_splitter() -> (r: Option<CompiledPattern>)
    ensures
        r is Some == regex_valid(WORD_REGEX@),
        r matches Some(c) ==> c.source() == WORD_REGEX@,
{
    compile_pattern(WORD_REGEX)
}

/// The words of the text, by the splitter's matches in order; with a limit,
/// no more than the limit (at least one, as the check comes after a word is
/// taken).
pub fn split_words(splitter: &CompiledPattern, text: &str, limit: Option<usize>) -> (r: Vec<
    WordToken,
>)
    ensures
        ({
            let all = regex_find_all(splitter.source(), text@);
            tokens_view(r@) == match limit {
                Some(l) => if l == 0 {
                    all.take(if all.len() > 0 { 1int } else { 0int })
                } else if l < all.len() {
                    all.take(l as int)
                } else {
                    all
                },
                None => all,
            }
        }),
{
    let all = find_all(splitter, text);
    let ghost av = tokens_view(all@);
    let cap = match limit {
        Some(l) => if l == 0 {
            1
        } else {
            l
        },
        None => all.len(),
    };
    let mut out: Vec<WordToken> = Vec::new();
    let mut k: usize = 0;
    while k < all.len() && k < cap
        invariant
            0 <= k <= all@.len(),
            k <= cap,
            cap == match limit {
                Some(l) => if l == 0 {
                    1
                } else {
                    l
                },
                None => all@.len() as usize,
            },
            av == tokens_view(all@),
            tokens_view(out@) == av.take(k as int),
        decreases all@.len() - k,
    {
        let w = &all[k];
        out.push(WordToken { start: w.start, end: w.end, text: copy_string(&w.text) });
        proof {
            assert(av.take(k + 1) =~= av.take(k as int).push(av[k as int]));
            assert(tokens_view(out@) =~= av.take(k + 1));
        }
        k = k + 1;
    }
    proof {
        assert(av.len() == all@.len());
        assert(av.take(av.len() as int) =~= av);
        assert(k == all@.len() || k == cap);
        if k == all@.len() {
            assert(tokens_view(out@) == av);
        }
    }
    out
}

// ---------------------------------------------------------------------------
// Candidate spans of the model output
// ---------------------------------------------------------------------------

/// A candidate entity: the words it spans (first and last, counted from 0),
/// the label index, and the position of its score in the flat model output.
#[derive(Debug, Clone, Copy, PartialEq, Eq, Structural)]
pub struct SpanCandidate {
    pub first_word: usize,
    pub last_word: usize,
    pub label: usize,
    pub flat: usize,
}

/// The output dimensions the candidates are read with.
pub struct OutputShape {
    /// The number of text words.
    pub num_words: usize,
    /// The widest span, in words.
    pub max_width: usize,
    /// The span-width dimension of the output.
    pub dim_width: usize,
    /// The label dimension of the output.
    pub dim_labels: usize,
    /// The number of labels asked for.
    pub num_labels: usize,
    /// The number of scores in the output.
    pub len: usize,
}

/// The flat position of the score of a span and label: the span's start
/// word (counted from 1), then its width, then the label.
pub open spec fn flat_index(first: int, last: int, label: int, dim_width: int, dim_labels: int) -> int {
    (first + 1) * dim_width * dim_labels + (last - first) * dim_labels + label
}

/// A candidate the model output has a score for.
pub open spec fn valid_candidate(c: SpanCandidate, sh: OutputShape) -> bool {
    &&& c.first_word < sh.num_words
    &&& c.first_word <= c.last_word < sh.num_words
    &&& c.last_word - c.first_word < sh.max_width
    &&& c.label < sh.num_labels
    &&& c.flat == flat_index(
        c.first_word as int,
        c.last_word as int,
        c.label as int,
        sh.dim_width as int,
        sh.dim_labels as int,
    )
    &&& c.flat < sh.len
}

/// `a` comes before `b`: by first word, then last word, then label.
pub open spec fn candidate_before(a: SpanCandidate, b: SpanCandidate) -> bool {
    a.first_word < b.first_word || (a.first_word == b.first_word && (a.last_word < b.last_word || (
    a.last_word == b.last_word && a.label < b.label)))
}

/// Positions `(f, l, lb)` before the cursor `(cf, cl, clb)`.
pub open spec fn pos_before(f: int, l: int, lb: int, cf: int, cl: int, clb: int) -> bool {
    f < cf || (f == cf && (l < cl || (l == cl && lb < clb)))
}

proof fn lemma_flat_bound(f: int, w: int, lb: int, sh: OutputShape)
    requires
        0 <= f < sh.num_words,
        0 <= w < sh.max_width,
        0 <= lb < sh.num_labels,
        sh.num_words * sh.dim_width * sh.dim_labels + sh.max_width * sh.dim_labels + sh.num_labels
            <= usize::MAX,
        sh.num_words * sh.dim_width <= usize::MAX,
    ensures
        0 <= (f + 1) * sh.dim_width <= usize::MAX,
        0 <= (f + 1) * sh.dim_width * sh.dim_labels,
        0 <= w * sh.dim_labels,
        (f + 1) * sh.dim_width * sh.dim_labels + w * sh.dim_labels + lb <= usize::MAX,
{
    let nw = sh.num_words as int;
    let dw = sh.dim_width as int;
    let dl = sh.dim_labels as int;
    let mw = sh.max_width as int;
    assert((f + 1) * dw * dl <= nw * dw * dl) by (nonlinear_arith)
        requires
            0 <= f + 1 <= nw,
            0 <= dw,
            0 <= dl,
    ;
    assert(w * dl <= mw * dl) by (nonlinear_arith)
        requires
            0 <= w <= mw,
            0 <= dl,
    ;
    assert((f + 1) * dw <= nw * dw) by (nonlinear_arith)
        requires
            0 <= f + 1 <= nw,
            0 <= dw,
    ;
    assert(0 <= (f + 1) * dw) by (nonlinear_arith)
        requires
            0 <= f + 1,
            0 <= dw,
    ;
    assert(0 <= (f + 1) * dw * dl) by (nonlinear_arith)
        requires
            0 <= f + 1,
            0 <= dw,
            0 <= dl,
    ;
    assert(0 <= w * dl) by (nonlinear_arith)
        requires
            0 <= w,
            0 <= dl,
    ;
}

/// Every span of up to `max_width` words and every label whose score the
/// output holds, in order of first word, last word and label: exactly the
/// valid candidates, each once, in that order.
pub fn span_candidates(sh: &OutputShape) -> (r: Vec<SpanCandidate>)
    requires
        sh.num_words * sh.dim_width * sh.dim_labels + sh.max_width * sh.dim_labels + sh.num_labels
            <= usize::MAX,
        sh.num_words * sh.dim_width <= usize::MAX,
    ensures
        forall|k: int| 0 <= k < r@.len() ==> valid_candidate(#[trigger] r@[k], *sh),
        forall|i: int, j: int|
            0 <= i < j < r@.len() ==> candidate_before(#[trigger] r@[i], #[trigger] r@[j]),
        forall|c: SpanCandidate| #[trigger] valid_candidate(c, *sh) ==> r@.contains(c),
{
    broadcast use vstd::seq_lib::lemma_seq_contains_after_push;

    let mut out: Vec<SpanCandidate> = Vec::new();
    let mut f: usize = 0;
    while f < sh.num_words
        invariant
            0 <= f <= sh.num_words,
            sh.num_words * sh.dim_width * sh.dim_labels + sh.max_width * sh.dim_labels
                + sh.num_labels <= usize::MAX,
            sh.num_words * sh.dim_width <= usize::MAX,
            forall|k: int| 0 <= k < out@.len() ==> valid_candidate(#[trigger] out@[k], *sh),
            forall|k: int| 0 <= k < out@.len() ==> (#[trigger] out@[k]).first_word < f,
            forall|i: int, j: int|
                0 <= i < j < out@.len() ==> candidate_before(#[trigger] out@[i], #[trigger] out@[j]),
            forall|c: SpanCandidate|
                #[trigger] valid_candidate(c, *sh) && c.first_word < f ==> out@.contains(c),
        decreases sh.num_words - f,
    {
        let end = if sh.max_width < sh.num_words - f {
            f + sh.max_width
        } else {
            sh.num_words
        };
        let mut l: usize = f;
        while l < end
            invariant
                0 <= f < sh.num_words,
                f <= l <= end,
                end <= sh.num_words,
                end <= f + sh.max_width,
                end == sh.num_words || end == f + sh.max_width,
                sh.num_words * sh.dim_width * sh.dim_labels + sh.max_width * sh.dim_labels
                    + sh.num_labels <= usize::MAX,
                sh.num_words * sh.dim_width <= usize::MAX,
                forall|k: int| 0 <= k < out@.len() ==> valid_candidate(#[trigger] out@[k], *sh),
                forall|k: int|
                    0 <= k < out@.len() ==> (#[trigger] out@[k]).first_word < f || (
                    out@[k].first_word == f && out@[k].last_word < l),
                forall|i: int, j: int|
                    0 <= i < j < out@.len() ==> candidate_before(
                        #[trigger] out@[i],
                        #[trigger] out@[j],
                    ),
                forall|c: SpanCandidate|
                    #[trigger] valid_candidate(c, *sh) && (c.first_word < f || (c.first_word == f
                        && c.last_word < l)) ==> out@.contains(c),
            decreases end - l,
        {
            let mut lb: usize = 0;
            while lb < sh.num_labels
                invariant
                    0 <= f < sh.num_words,
                    f <= l < end,
                    end <= sh.num_words,
                    end <= f + sh.max_width,
                    0 <= lb <= sh.num_labels,
                    sh.num_words * sh.dim_width * sh.dim_labels + sh.max_width * sh.dim_labels
                        + sh.num_labels <= usize::MAX,
                    sh.num_words * sh.dim_width <= usize::MAX,
                    forall|k: int| 0 <= k < out@.len() ==> valid_candidate(#[trigger] out@[k], *sh),
                    forall|k: int|
                        0 <= k < out@.len() ==> pos_before(
                            (#[trigger] out@[k]).first_word as int,
                            out@[k].last_word as int,
                            out@[k].label as int,
                            f as int,
                            l as int,
                            lb as int,
                        ),
                    forall|i: int, j: int|
                        0 <= i < j < out@.len() ==> candidate_before(
                            #[trigger] out@[i],
                            #[trigger] out@[j],
                        ),
                    forall|c: SpanCandidate|
                        #[trigger] valid_candidate(c, *sh) && pos_before(
                            c.first_word as int,
                            c.last_word as int,
                            c.label as int,
                            f as int,
                            l as int,
                            lb as int,
                        ) ==> out@.contains(c),
                decreases sh.num_labels - lb,
            {
                proof {
                    lemma_flat_bound(f as int, (l - f) as int, lb as int, *sh);
                }
                let flat = (f + 1) * sh.dim_width * sh.dim_labels + (l - f) * sh.dim_labels + lb;
                let ghost before = out@;
                if flat < sh.len {
                    let c = SpanCandidate { first_word: f, last_word: l, label: lb, flat };
                    out.push(c);
                    proof {
                        assert forall|i: int, j: int| 0 <= i < j < out@.len() implies candidate_before(
                            #[trigger] out@[i],
                            #[trigger] out@[j],
                        ) by {
                            if j == before.len() {
                                assert(out@[i] == before[i]);
                            } else {
                                assert(out@[i] == before[i] && out@[j] == before[j]);
                            }
                        }
                        assert forall|k: int| 0 <= k < out@.len() implies pos_before(
                            (#[trigger] out@[k]).first_word as int,
                            out@[k].last_word as int,
                            out@[k].label as int,
                            f as int,
                            l as int,
                            lb + 1,
                        ) by {
                            if k < before.len() {
                                assert(out@[k] == before[k]);
                            }
                        }
                        assert forall|c2: SpanCandidate|
                            #[trigger] valid_candidate(c2, *sh) && pos_before(
                                c2.first_word as int,
                                c2.last_word as int,
                                c2.label as int,
                                f as int,
                                l as int,
                                lb + 1,
                            ) implies out@.contains(c2) by {
                            if c2.first_word == f && c2.last_word == l && c2.label == lb {
                                assert(c2 == c);
                                assert(out@[before.len() as int] == c);
                            } else {
                                assert(before.contains(c2));
                                let k = choose|k: int| 0 <= k < before.len() && before[k] == c2;
                                assert(out@[k] == c2);
                            }
                        }
                    }
                } else {
                    proof {
                        assert forall|c2: SpanCandidate|
                            #[trigger] valid_candidate(c2, *sh) && pos_before(
                                c2.first_word as int,
                                c2.last_word as int,
                                c2.label as int,
                                f as int,
                                l as int,
                                lb + 1,
                            ) implies out@.contains(c2) by {
                            if c2.first_word == f && c2.last_word == l && c2.label == lb {
                                assert(c2.flat == flat);
                            }
                        }
                    }
                }
                lb = lb + 1;
            }
            proof {
                assert forall|c2: SpanCandidate|
                    #[trigger] valid_candidate(c2, *sh) && (c2.first_word < f || (c2.first_word
                        == f && c2.last_word < l + 1)) implies out@.contains(c2) by {
                    assert(pos_before(
                        c2.first_word as int,
                        c2.last_word as int,
                        c2.label as int,
                        f as int,
                        l as int,
                        sh.num_labels as int,
                    ));
                }
                assert forall|k: int| 0 <= k < out@.len() implies (#[trigger] out@[k]).first_word
                    < f || (out@[k].first_word == f && out@[k].last_word < l + 1) by {
                    assert(pos_before(
                        out@[k].first_word as int,
                        out@[k].last_word as int,
                        out@[k].label as int,
                        f as int,
                        l as int,
                        sh.num_labels as int,
                    ));
                }
            }
            l = l + 1;
        }
        proof {
            assert forall|c2: SpanCandidate|
                #[trigger] valid_candidate(c2, *sh) && c2.first_word < f + 1 implies out@.contains(
                c2,
            ) by {
                if c2.first_word == f {
                    assert(c2.last_word < end);
                }
            }
        }
        f = f + 1;
    }
    out
}

/// The span of a candidate in the text: from the start of its first word
/// to the end of its last word, with the caller's score and item index.
pub fn candidate_span(c: &SpanCandidate, words: &Vec<WordToken>, score: u32, item: usize) -> (r:
    ScoredSpan)
    requires
        c.first_word < words@.len(),
        c.last_word < words@.len(),
    ensures
        r == (ScoredSpan {
            start: words@[c.first_word as int].start,
            end: words@[c.last_word as int].end,
            score,
            item,
        }),
{
    ScoredSpan { start: words[c.first_word].start, end: words[c.last_word].end, score, item }
}

} // verus!
