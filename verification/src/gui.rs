//! What the settings window computes: the names of model tasks, the entries
//! it lists, and the orders it lists them in.
use vstd::prelude::*;
use crate::catalog::Task;
use crate::scripts::Script;
use crate::text::{lex_lt, lemma_lex_asym, lemma_lex_trans, replace_all, replace_str, str_eq, str_lt};

verus! {

/// A speech recognition model found on disk.
#[derive(Debug, Clone, PartialEq)]
pub struct VoskModel {
    pub name: String,
    pub language: String,
    pub size: String,
}

/// A slot extraction model variant the settings can select.
#[derive(Debug, Clone, PartialEq)]
pub struct GlinerVariant {
    pub display_name: String,
    pub value: String,
}

/// The task of a settings name.
pub open spec fn task_named(name: Seq<char>) -> Option<Task> {
    if name == "intent"@ {
        Some(Task::Intent)
    } else if name == "slots"@ {
        Some(Task::Slots)
    } else if name == "stt"@ {
        Some(Task::Stt)
    } else if name == "vad"@ {
        Some(Task::Vad)
    } else if name == "noise_suppression"@ {
        Some(Task::NoiseSuppression)
    } else {
        None
    }
}

/// The task named by the settings window; none for an unknown name (the
/// window then lists no option).
pub fn task_from_name(name: &str) -> (r: Option<Task>)
    ensures
        r == task_named(name@),
{
    if str_eq(name, "intent") {
        Some(Task::Intent)
    } else if str_eq(name, "slots") {
        Some(Task::Slots)
    } else if str_eq(name, "stt") {
        Some(Task::Stt)
    } else if str_eq(name, "vad") {
        Some(Task::Vad)
    } else if str_eq(name, "noise_suppression") {
        Some(Task::NoiseSuppression)
    } else {
        None
    }
}

/// The keys are in non-decreasing `str` order.
pub open spec fn keys_sorted(k: Seq<Seq<char>>) -> bool {
    forall|i: int, j: int| 0 <= i < j < k.len() ==> !lex_lt(#[trigger] k[j], #[trigger] k[i])
}

/// The names of the scripts.
pub open spec fn script_names(s: Seq<Script>) -> Seq<Seq<char>> {
    s.map_values(|x: Script| x.name@)
}

/// The strings by view.
pub open spec fn string_views(s: Seq<String>) -> Seq<Seq<char>> {
    s.map_values(|x: String| x@)
}

/// Sorts strings in `str` order (sound file paths are listed so).
pub fn sort_strings(v: Vec<String>) -> (r: Vec<String>)
    ensures
        keys_sorted(string_views(r@)),
        r@.to_multiset() == v@.to_multiset(),
{
    let mut out: Vec<String> = Vec::new();
    let mut rest = v;
    let ghost orig = rest@;
    let mut i: usize = 0;
    let n = rest.len();
    assert(out@ =~= orig.take(0));
    while rest.len() > 0
        invariant
            i + rest@.len() == orig.len(),
            orig.len() == n,
            rest@ == orig.skip(i as int),
            keys_sorted(string_views(out@)),
            out@.to_multiset() == orig.take(i as int).to_multiset(),
        decreases rest@.len(),
    {
        let x = rest.remove(0);
        let mut pos: usize = 0;
        while pos < out.len() && !str_lt(x.as_str(), out[pos].as_str())
            invariant
                0 <= pos <= out@.len(),
                forall|k: int| 0 <= k < pos ==> !lex_lt(x@, (#[trigger] out@[k])@),
            decreases out@.len() - pos,
        {
            pos = pos + 1;
        }
        let ghost before = out@;
        let ghost xv = x@;
        proof {
            assert(orig[i as int] == x);
            assert(orig.take(i + 1) =~= orig.take(i as int).push(x));
            vstd::seq_lib::to_multiset_insert(before, pos as int, x);
            vstd::seq_lib::to_multiset_build(orig.take(i as int), x);
        }
        out.insert(pos, x);
        proof {
            let sv = string_views(out@);
            let bv = string_views(before);
            assert forall|a: int, b: int| 0 <= a < b < sv.len() implies !lex_lt(
                #[trigger] sv[b],
                #[trigger] sv[a],
            ) by {
                if a < pos && b < pos {
                    assert(sv[a] == bv[a] && sv[b] == bv[b]);
                } else if a < pos && b == pos {
                    assert(sv[a] == bv[a]);
                    assert(!lex_lt(xv, bv[a]));
                } else if a < pos && b > pos {
                    assert(sv[a] == bv[a] && sv[b] == bv[b - 1]);
                    assert(!lex_lt(xv, bv[a]));
                    assert(lex_lt(xv, bv[pos as int]));
                    if b - 1 > pos {
                        assert(!lex_lt(bv[b - 1], bv[pos as int]));
                    }
                    if lex_lt(bv[b - 1], bv[a]) {
                        if b - 1 > pos {
                            if bv[b - 1] == bv[pos as int] {
                                lemma_lex_trans(xv, bv[pos as int], bv[a]);
                            } else {
                                crate::text::lemma_lex_total(bv[b - 1], bv[pos as int]);
                                lemma_lex_trans(bv[pos as int], bv[b - 1], bv[a]);
                                lemma_lex_trans(xv, bv[pos as int], bv[a]);
                            }
                        } else {
                            lemma_lex_trans(xv, bv[pos as int], bv[a]);
                        }
                    }
                } else if a == pos {
                    assert(sv[b] == bv[b - 1]);
                    assert(lex_lt(xv, bv[pos as int]));
                    if b - 1 > pos {
                        assert(!lex_lt(bv[b - 1], bv[pos as int]));
                        if lex_lt(bv[b - 1], xv) {
                            lemma_lex_trans(bv[b - 1], xv, bv[pos as int]);
                        }
                    } else {
                        lemma_lex_asym(xv, bv[pos as int]);
                    }
                } else {
                    assert(sv[a] == bv[a - 1] && sv[b] == bv[b - 1]);
                }
            }
            assert(rest@ =~= orig.skip(i + 1));
        }
        i = i + 1;
    }
    assert(orig.take(i as int) =~= orig);
    out
}

/// `r` lists the scripts of `v` in the order the indices `perm` pick them
/// (`r[k]` is `v[perm[k]]`, each index once), and scripts with equal names
/// keep the order they had in `v`.
pub open spec fn stable_perm(v: Seq<Script>, r: Seq<Script>, perm: Seq<int>) -> bool {
    &&& perm.len() == r.len()
    &&& r.len() == v.len()
    &&& forall|k: int| 0 <= k < perm.len() ==> 0 <= #[trigger] perm[k] < v.len() && r[k] == v[perm[k]]
    &&& forall|a: int, b: int| 0 <= a < b < perm.len() ==> #[trigger] perm[a] != #[trigger] perm[b]
    &&& forall|a: int, b: int|
        0 <= a < b < r.len() && (#[trigger] r[a]).name@ == (#[trigger] r[b]).name@ ==> perm[a]
            < perm[b]
}

/// Sorts scripts by name in `str` order, as the script list shows them;
/// scripts with the same name keep their order.
pub fn sort_scripts_by_name(v: Vec<Script>) -> (r: Vec<Script>)
    ensures
        keys_sorted(script_names(r@)),
        exists|perm: Seq<int>| stable_perm(v@, r@, perm),
{
    let mut out: Vec<Script> = Vec::new();
    let mut rest = v;
    let ghost orig = rest@;
    let ghost mut perm: Seq<int> = Seq::empty();
    let mut i: usize = 0;
    let n = rest.len();
    while rest.len() > 0
        invariant
            i + rest@.len() == orig.len(),
            orig.len() == n,
            rest@ == orig.skip(i as int),
            keys_sorted(script_names(out@)),
            perm.len() == out@.len(),
            out@.len() == i,
            forall|k: int| 0 <= k < perm.len() ==> 0 <= #[trigger] perm[k] < i && out@[k] == orig[perm[k]],
            forall|a: int, b: int| 0 <= a < b < perm.len() ==> #[trigger] perm[a] != #[trigger] perm[b],
            forall|a: int, b: int|
                0 <= a < b < out@.len() && (#[trigger] out@[a]).name@ == (#[trigger] out@[b]).name@
                    ==> perm[a] < perm[b],
        decreases rest@.len(),
    {
        let x = rest.remove(0);
        let mut pos: usize = 0;
        while pos < out.len() && !str_lt(x.name.as_str(), out[pos].name.as_str())
            invariant
                0 <= pos <= out@.len(),
                forall|k: int| 0 <= k < pos ==> !lex_lt(x.name@, (#[trigger] out@[k]).name@),
            decreases out@.len() - pos,
        {
            pos = pos + 1;
        }
        let ghost before = out@;
        let ghost old_perm = perm;
        let ghost xv = x.name@;
        proof {
            assert(orig[i as int] == x);
        }
        out.insert(pos, x);
        proof {
            perm = old_perm.insert(pos as int, i as int);
            let sv = script_names(out@);
            let bv = script_names(before);
            assert forall|a: int, b: int| 0 <= a < b < sv.len() implies !lex_lt(
                #[trigger] sv[b],
                #[trigger] sv[a],
            ) by {
                if a < pos && b < pos {
                    assert(sv[a] == bv[a] && sv[b] == bv[b]);
                } else if a < pos && b == pos {
                    assert(sv[a] == bv[a]);
                    assert(!lex_lt(xv, bv[a]));
                } else if a < pos && b > pos {
                    assert(sv[a] == bv[a] && sv[b] == bv[b - 1]);
                    assert(!lex_lt(xv, bv[a]));
                    assert(lex_lt(xv, bv[pos as int]));
                    if b - 1 > pos {
                        assert(!lex_lt(bv[b - 1], bv[pos as int]));
                    }
                    if lex_lt(bv[b - 1], bv[a]) {
                        if b - 1 > pos {
                            if bv[b - 1] == bv[pos as int] {
                                lemma_lex_trans(xv, bv[pos as int], bv[a]);
                            } else {
                                crate::text::lemma_lex_total(bv[b - 1], bv[pos as int]);
                                lemma_lex_trans(bv[pos as int], bv[b - 1], bv[a]);
                                lemma_lex_trans(xv, bv[pos as int], bv[a]);
                            }
                        } else {
                            lemma_lex_trans(xv, bv[pos as int], bv[a]);
                        }
                    }
                } else if a == pos {
                    assert(sv[b] == bv[b - 1]);
                    assert(lex_lt(xv, bv[pos as int]));
                    if b - 1 > pos {
                        assert(!lex_lt(bv[b - 1], bv[pos as int]));
                        if lex_lt(bv[b - 1], xv) {
                            lemma_lex_trans(bv[b - 1], xv, bv[pos as int]);
                        }
                    } else {
                        lemma_lex_asym(xv, bv[pos as int]);
                    }
                } else {
                    assert(sv[a] == bv[a - 1] && sv[b] == bv[b - 1]);
                }
            }
            assert forall|k: int| 0 <= k < perm.len() implies 0 <= #[trigger] perm[k] < i + 1
                && out@[k] == orig[perm[k]] by {
                if k < pos {
                    assert(perm[k] == old_perm[k] && out@[k] == before[k]);
                } else if k > pos {
                    assert(perm[k] == old_perm[k - 1] && out@[k] == before[k - 1]);
                }
            }
            assert forall|a: int, b: int| 0 <= a < b < perm.len() implies #[trigger] perm[a]
                != #[trigger] perm[b] by {
                if a < pos && b < pos {
                    assert(perm[a] == old_perm[a] && perm[b] == old_perm[b]);
                } else if a < pos && b == pos {
                    assert(perm[a] == old_perm[a]);
                } else if a < pos && b > pos {
                    assert(perm[a] == old_perm[a] && perm[b] == old_perm[b - 1]);
                } else if a == pos {
                    assert(perm[b] == old_perm[b - 1]);
                } else {
                    assert(perm[a] == old_perm[a - 1] && perm[b] == old_perm[b - 1]);
                }
            }
            assert forall|a: int, b: int|
                0 <= a < b < out@.len() && (#[trigger] out@[a]).name@ == (#[trigger] out@[b]).name@
                    implies perm[a] < perm[b] by {
                if a < pos && b < pos {
                    assert(perm[a] == old_perm[a] && perm[b] == old_perm[b]);
                    assert(out@[a] == before[a] && out@[b] == before[b]);
                } else if a < pos && b == pos {
                    assert(perm[a] == old_perm[a]);
                } else if a < pos && b > pos {
                    assert(perm[a] == old_perm[a] && perm[b] == old_perm[b - 1]);
                    assert(out@[a] == before[a] && out@[b] == before[b - 1]);
                    assert(!lex_lt(xv, bv[a]));
                    assert(lex_lt(xv, bv[pos as int]));
                    if b - 1 > pos {
                        assert(!lex_lt(bv[b - 1], bv[pos as int]));
                    }
                    // bv[a] <= xv < bv[pos] <= bv[b - 1], so the names differ
                    if bv[a] == bv[b - 1] {
                        if b - 1 > pos {
                            if bv[b - 1] == bv[pos as int] {
                                lemma_lex_asym(xv, bv[pos as int]);
                                if lex_lt(bv[a], xv) {
                                    lemma_lex_trans(bv[a], xv, bv[a]);
                                    crate::text::lemma_lex_irreflexive(bv[a]);
                                }
                            } else {
                                crate::text::lemma_lex_total(bv[b - 1], bv[pos as int]);
                                lemma_lex_trans(xv, bv[pos as int], bv[b - 1]);
                                if lex_lt(bv[a], xv) {
                                    lemma_lex_trans(bv[a], xv, bv[b - 1]);
                                    crate::text::lemma_lex_irreflexive(bv[a]);
                                } else if bv[a] != xv {
                                    crate::text::lemma_lex_total(bv[a], xv);
                                }
                            }
                        } else {
                            if lex_lt(bv[a], xv) {
                                lemma_lex_trans(bv[a], xv, bv[a]);
                                crate::text::lemma_lex_irreflexive(bv[a]);
                            } else if bv[a] != xv {
                                crate::text::lemma_lex_total(bv[a], xv);
                            } else {
                                crate::text::lemma_lex_irreflexive(xv);
                            }
                        }
                    }
                } else if a == pos {
                    assert(out@[b] == before[b - 1]);
                    assert(lex_lt(xv, bv[pos as int]));
                    if b - 1 > pos {
                        assert(!lex_lt(bv[b - 1], bv[pos as int]));
                    } else {
                        crate::text::lemma_lex_irreflexive(xv);
                    }
                } else {
                    assert(perm[a] == old_perm[a - 1] && perm[b] == old_perm[b - 1]);
                    assert(out@[a] == before[a - 1] && out@[b] == before[b - 1]);
                }
            }
            assert(rest@ =~= orig.skip(i + 1));
        }
        i = i + 1;
    }
    assert(orig.take(i as int) =~= orig);
    assert(stable_perm(orig, out@, perm));
    out
}

/// Whether a file extension is one of the audio formats listed: `wav`,
/// `mp3` or `ogg`.
pub fn is_audio_extension(ext: &str) -> (r: bool)
    ensures
        r == (ext@ == "wav"@ || ext@ == "mp3"@ || ext@ == "ogg"@),
{
    str_eq(ext, "wav") || str_eq(ext, "mp3") || str_eq(ext, "ogg")
}

/// A relative path as listed: backslashes turned into slashes.
pub fn forward_slashes(path: &str) -> (r: String)
    ensures
        r@ == replace_all(path@, "\\"@, "/"@),
{
    replace_str(path, "\\", "/")
}

} // verus!
