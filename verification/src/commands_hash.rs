//! A fingerprint of the command set: the SHA-256 of the language and of
//! every command id with its phrases, in id order, as lower-case hex. A
//! classifier compares it with the stored one to know whether to retrain.
use vstd::prelude::*;
use vstd::utf8::encode_utf8;
use crate::commands::{lang_entry, JCommandsList};
use crate::text::{lex_lt, str_lt};
use sha2::{Digest, Sha256};

verus! {

/// The SHA-256 digest of a byte sequence.
pub uninterp spec fn sha256_spec(data: Seq<u8>) -> Seq<u8>;

/// Calls `sha2::Sha256::digest`. The digest is named: `sha256_spec` of the
/// input bytes; it is 32 bytes long (the output size of SHA-256).
#[verifier::external_body]
fn sha256(data: &[u8]) -> (r: Vec<u8>)
    ensures
        r@ == sha256_spec(data@),
        r@.len() == 32,
{
    Sha256::digest(data).to_vec()
}

/// One command's contribution: its id and its phrases in the language.
pub type HashEntry = (String, Vec<String>);

/// The content of an entry.
pub open spec fn entry_content(e: HashEntry) -> (Seq<char>, Seq<Seq<char>>) {
    (e.0@, e.1@.map_values(|s: String| s@))
}

/// Every command's id and phrases, in pack order.
pub open spec fn collect_entries(lists: Seq<JCommandsList>, lang: Seq<char>) -> Seq<
    (Seq<char>, Seq<Seq<char>>),
>
    decreases lists.len(),
{
    if lists.len() == 0 {
        Seq::empty()
    } else {
        collect_entries(lists.drop_last(), lang) + lists.last().commands@.map_values(
            |c: crate::commands::JCommand|
                (c.id@, lang_entry(c.phrases@, lang).map_values(|s: String| s@)),
        )
    }
}

/// Inserts `e` after every element whose id is not greater than its own.
pub open spec fn insert_sorted(s: Seq<(Seq<char>, Seq<Seq<char>>)>, e: (Seq<char>, Seq<Seq<char>>)) -> Seq<
    (Seq<char>, Seq<Seq<char>>),
>
    decreases s.len(),
{
    if s.len() == 0 {
        seq![e]
    } else if lex_lt(e.0, s.last().0) {
        insert_sorted(s.drop_last(), e).push(s.last())
    } else {
        s.push(e)
    }
}

/// The stable sort by id: entries with equal ids keep their order.
pub open spec fn sort_by_id(s: Seq<(Seq<char>, Seq<Seq<char>>)>) -> Seq<(Seq<char>, Seq<Seq<char>>)>
    decreases s.len(),
{
    if s.len() == 0 {
        s
    } else {
        insert_sorted(sort_by_id(s.drop_last()), s.last())
    }
}

/// The UTF-8 bytes of a sequence of strings, one after another.
pub open spec fn strings_bytes(ss: Seq<Seq<char>>) -> Seq<u8>
    decreases ss.len(),
{
    if ss.len() == 0 {
        Seq::empty()
    } else {
        strings_bytes(ss.drop_last()) + encode_utf8(ss.last())
    }
}

/// The bytes of the entries: each id followed by its phrases.
pub open spec fn entries_bytes(s: Seq<(Seq<char>, Seq<Seq<char>>)>) -> Seq<u8>
    decreases s.len(),
{
    if s.len() == 0 {
        Seq::empty()
    } else {
        entries_bytes(s.drop_last()) + encode_utf8(s.last().0) + strings_bytes(s.last().1)
    }
}

/// The bytes that are hashed: the language, a `|`, then the sorted entries.
pub open spec fn hash_input(lists: Seq<JCommandsList>, lang: Seq<char>) -> Seq<u8> {
    encode_utf8(lang) + seq![124u8] + entries_bytes(sort_by_id(collect_entries(lists, lang)))
}

/// The lower-case hex digit of a value below 16.
pub open spec fn hex_digit(d: u8) -> char {
    if d < 10 {
        (48 + d) as char
    } else {
        (87 + d) as char
    }
}

/// Two lower-case hex digits per byte.
pub open spec fn hex_lower(bytes: Seq<u8>) -> Seq<char>
    decreases bytes.len(),
{
    if bytes.len() == 0 {
        Seq::empty()
    } else {
        hex_lower(bytes.drop_last()) + seq![
            hex_digit(bytes.last() / 16),
            hex_digit(bytes.last() % 16),
        ]
    }
}

fn hex_digit_exec(d: u8) -> (c: char)
    requires
        d < 16,
    ensures
        c == hex_digit(d),
{
    if d < 10 {
        (48u8 + d) as char
    } else {
        (87u8 + d) as char
    }
}

/// Lower-case hex encoding of bytes.
pub fn to_hex_lower(bytes: &[u8]) -> (r: String)
    ensures
        r@ == hex_lower(bytes@),
{
    let mut r = String::new();
    let mut i: usize = 0;
    while i < bytes.len()
        invariant
            0 <= i <= bytes@.len(),
            r@ == hex_lower(bytes@.subrange(0, i as int)),
        decreases bytes@.len() - i,
    {
        let b = bytes[i];
        crate::text::push_char(&mut r, hex_digit_exec(b / 16));
        crate::text::push_char(&mut r, hex_digit_exec(b % 16));
        assert(bytes@.subrange(0, i + 1).drop_last() =~= bytes@.subrange(0, i as int));
        i = i + 1;
    }
    assert(bytes@.subrange(0, bytes@.len() as int) =~= bytes@);
    r
}

/// Appends the UTF-8 bytes of a string.
fn push_utf8(buf: &mut Vec<u8>, s: &str)
    ensures
        final(buf)@ == old(buf)@ + encode_utf8(s@),
{
    let b = s.as_bytes();
    let ghost start = buf@;
    let mut i: usize = 0;
    while i < b.len()
        invariant
            0 <= i <= b@.len(),
            b@ == encode_utf8(s@),
            buf@ == start + b@.subrange(0, i as int),
        decreases b@.len() - i,
    {
        buf.push(b[i]);
        assert(buf@ =~= start + b@.subrange(0, i + 1));
        i = i + 1;
    }
    assert(b@.subrange(0, b@.len() as int) =~= b@);
}

proof fn lemma_insert_sorted_split(
    s: Seq<(Seq<char>, Seq<Seq<char>>)>,
    e: (Seq<char>, Seq<Seq<char>>),
    j: int,
)
    requires
        0 <= j <= s.len(),
        j == 0 || !lex_lt(e.0, s[j - 1].0),
        forall|k: int| j <= k < s.len() ==> lex_lt(e.0, #[trigger] s[k].0),
    ensures
        insert_sorted(s, e) == s.insert(j, e),
    decreases s.len(),
{
    if s.len() == 0 {
        assert(s.insert(0, e) =~= seq![e]);
    } else if j == s.len() {
        assert(s.insert(j, e) =~= s.push(e));
    } else {
        assert(lex_lt(e.0, s.last().0));
        lemma_insert_sorted_split(s.drop_last(), e, j);
        assert(s.drop_last().insert(j, e).push(s.last()) =~= s.insert(j, e));
    }
}

/// Inserts an entry at its place in a list sorted stably by id.
pub fn insert_entry(sorted: &mut Vec<HashEntry>, e: HashEntry)
    ensures
        final(sorted)@.map_values(|x: HashEntry| entry_content(x)) == insert_sorted(
            old(sorted)@.map_values(|x: HashEntry| entry_content(x)),
            entry_content(e),
        ),
{
    let ghost s = sorted@.map_values(|x: HashEntry| entry_content(x));
    let ghost ec = entry_content(e);
    let mut j: usize = sorted.len();
    while j > 0 && str_lt(e.0.as_str(), sorted[j - 1].0.as_str())
        invariant
            0 <= j <= sorted@.len(),
            s == sorted@.map_values(|x: HashEntry| entry_content(x)),
            ec == entry_content(e),
            forall|k: int| j <= k < s.len() ==> lex_lt(ec.0, #[trigger] s[k].0),
        decreases j,
    {
        j = j - 1;
    }
    proof {
        lemma_insert_sorted_split(s, ec, j as int);
    }
    let ghost before = sorted@;
    sorted.insert(j, e);
    assert(sorted@.map_values(|x: HashEntry| entry_content(x)) =~= s.insert(j as int, ec));
}

proof fn lemma_strings_bytes_push(ss: Seq<Seq<char>>, t: Seq<char>)
    ensures
        strings_bytes(ss.push(t)) == strings_bytes(ss) + encode_utf8(t),
{
    assert(ss.push(t).drop_last() =~= ss);
}

/// The hex SHA-256 fingerprint of the commands' ids and phrases in the
/// given language.
pub fn commands_hash(commands: &[JCommandsList], lang: &str) -> (r: String)
    ensures
        r@ == hex_lower(sha256_spec(hash_input(commands@, lang@))),
{
    // collect (id, phrases) in pack order, inserting each at its sorted place
    let mut sorted: Vec<HashEntry> = Vec::new();
    let mut i: usize = 0;
    assert(sorted@.map_values(|x: HashEntry| entry_content(x)) =~= sort_by_id(
        collect_entries(commands@.subrange(0, 0), lang@),
    ));
    while i < commands.len()
        invariant
            0 <= i <= commands@.len(),
            sorted@.map_values(|x: HashEntry| entry_content(x)) == sort_by_id(
                collect_entries(commands@.subrange(0, i as int), lang@),
            ),
        decreases commands@.len() - i,
    {
        let list = &commands[i];
        let ghost prefix = collect_entries(commands@.subrange(0, i as int), lang@);
        let mut j: usize = 0;
        while j < list.commands.len()
            invariant
                0 <= i < commands@.len(),
                *list == commands@[i as int],
                0 <= j <= list.commands@.len(),
                sorted@.map_values(|x: HashEntry| entry_content(x)) == sort_by_id(
                    prefix + list.commands@.subrange(0, j as int).map_values(
                        |c: crate::commands::JCommand|
                            (c.id@, lang_entry(c.phrases@, lang@).map_values(|s: String| s@)),
                    ),
                ),
            decreases list.commands@.len() - j,
        {
            let c = &list.commands[j];
            let e: HashEntry = (c.id.clone(), c.get_phrases(lang));
            let ghost f = |c: crate::commands::JCommand|
                (c.id@, lang_entry(c.phrases@, lang@).map_values(|s: String| s@));
            let ghost old_all = prefix + list.commands@.subrange(0, j as int).map_values(f);
            let ghost new_all = prefix + list.commands@.subrange(0, j + 1).map_values(f);
            proof {
                assert(new_all.drop_last() =~= old_all);
                assert(new_all.last() == entry_content(e));
            }
            insert_entry(&mut sorted, e);
            j = j + 1;
        }
        proof {
            let f = |c: crate::commands::JCommand|
                (c.id@, lang_entry(c.phrases@, lang@).map_values(|s: String| s@));
            let sub = commands@.subrange(0, i + 1);
            assert(sub.drop_last() =~= commands@.subrange(0, i as int));
            assert(sub.last() == commands@[i as int]);
            assert(list.commands@.subrange(0, list.commands@.len() as int) =~= list.commands@);
            assert(collect_entries(sub, lang@) == prefix + list.commands@.map_values(f));
        }
        i = i + 1;
    }
    assert(commands@.subrange(0, commands@.len() as int) =~= commands@);
    // the bytes: language, '|', then each id with its phrases
    let mut buf: Vec<u8> = Vec::new();
    push_utf8(&mut buf, lang);
    buf.push(124u8);
    let ghost head = buf@;
    assert(head =~= encode_utf8(lang@) + seq![124u8]);
    let ghost sv = sorted@.map_values(|x: HashEntry| entry_content(x));
    let mut k: usize = 0;
    while k < sorted.len()
        invariant
            0 <= k <= sorted@.len(),
            sv == sorted@.map_values(|x: HashEntry| entry_content(x)),
            buf@ == head + entries_bytes(sv.subrange(0, k as int)),
        decreases sorted@.len() - k,
    {
        let ghost before_k = buf@;
        push_utf8(&mut buf, sorted[k].0.as_str());
        let ghost after_id = buf@;
        let phrases = &sorted[k].1;
        let mut p: usize = 0;
        while p < phrases.len()
            invariant
                0 <= p <= phrases@.len(),
                buf@ == after_id + strings_bytes(
                    phrases@.subrange(0, p as int).map_values(|s: String| s@),
                ),
            decreases phrases@.len() - p,
        {
            let ghost bp = buf@;
            push_utf8(&mut buf, phrases[p].as_str());
            proof {
                let a = phrases@.subrange(0, p as int).map_values(|s: String| s@);
                assert(phrases@.subrange(0, p + 1).map_values(|s: String| s@) =~= a.push(
                    phrases@[p as int]@,
                ));
                lemma_strings_bytes_push(a, phrases@[p as int]@);
            }
            p = p + 1;
        }
        proof {
            assert(phrases@.subrange(0, phrases@.len() as int) =~= phrases@);
            let sub = sv.subrange(0, k + 1);
            assert(sub.drop_last() =~= sv.subrange(0, k as int));
            assert(sub.last() == sv[k as int]);
        }
        k = k + 1;
    }
    assert(sv.subrange(0, sv.len() as int) =~= sv);
    let digest = sha256(buf.as_slice());
    to_hex_lower(digest.as_slice())
}

/// An entry as the fingerprint sees it: an id and its phrases.
pub type EntryView = (Seq<char>, Seq<Seq<char>>);

/// The ids do not decrease along the sequence.
pub open spec fn sorted_by_id(s: Seq<EntryView>) -> bool {
    forall|i: int, j: int| #![trigger s[i], s[j]] 0 <= i < j < s.len() ==> !lex_lt(s[j].0, s[i].0)
}

/// No id occurs twice.
pub open spec fn ids_distinct(s: Seq<EntryView>) -> bool {
    forall|i: int, j: int| #![trigger s[i], s[j]] 0 <= i < j < s.len() ==> s[i].0 != s[j].0
}

proof fn lemma_insert_sorted_multiset(s: Seq<EntryView>, e: EntryView)
    ensures
        insert_sorted(s, e).to_multiset() == s.to_multiset().insert(e),
    decreases s.len(),
{
    broadcast use vstd::seq_lib::group_to_multiset_ensures, vstd::multiset::group_multiset_axioms;

    if s.len() == 0 {
        assert(seq![e] =~= s.push(e));
    } else if lex_lt(e.0, s.last().0) {
        lemma_insert_sorted_multiset(s.drop_last(), e);
        assert(s =~= s.drop_last().push(s.last()));
        assert(insert_sorted(s, e).to_multiset() =~= s.to_multiset().insert(e));
    }
}

pub(crate) proof fn lemma_sort_multiset(x: Seq<EntryView>)
    ensures
        sort_by_id(x).to_multiset() == x.to_multiset(),
    decreases x.len(),
{
    broadcast use vstd::seq_lib::group_to_multiset_ensures, vstd::multiset::group_multiset_axioms;

    if x.len() > 0 {
        lemma_sort_multiset(x.drop_last());
        lemma_insert_sorted_multiset(sort_by_id(x.drop_last()), x.last());
        assert(x =~= x.drop_last().push(x.last()));
    }
}

/// What a sequence holds, it holds as one of its multiset's elements.
pub(crate) proof fn lemma_member_of_same_multiset(s: Seq<EntryView>, t: Seq<EntryView>, k: int) -> (m: int)
    requires
        s.to_multiset() == t.to_multiset(),
        0 <= k < t.len(),
    ensures
        0 <= m < s.len(),
        s[m] == t[k],
{
    broadcast use vstd::seq_lib::group_to_multiset_ensures;

    assert(t.contains(t[k]));
    assert(s.to_multiset().count(t[k]) > 0);
    assert(s.contains(t[k]));
    choose|m: int| 0 <= m < s.len() && s[m] == t[k]
}

proof fn lemma_insert_sorted_sorted(s: Seq<EntryView>, e: EntryView)
    requires
        sorted_by_id(s),
    ensures
        sorted_by_id(insert_sorted(s, e)),
    decreases s.len(),
{
    if s.len() == 0 {
    } else if lex_lt(e.0, s.last().0) {
        let sd = s.drop_last();
        let last = s.last();
        assert(sorted_by_id(sd)) by {
            assert forall|i: int, j: int| 0 <= i < j < sd.len() implies !lex_lt(sd[j].0, sd[i].0) by {
                assert(sd[i] == s[i] && sd[j] == s[j]);
            }
        }
        lemma_insert_sorted_sorted(sd, e);
        lemma_insert_sorted_multiset(sd, e);
        let r = insert_sorted(sd, e);
        assert forall|i: int| 0 <= i < r.len() implies !lex_lt(last.0, #[trigger] r[i].0) by {
            broadcast use vstd::seq_lib::group_to_multiset_ensures, vstd::multiset::group_multiset_axioms;

            assert(r.contains(r[i]));
            assert(r.to_multiset().count(r[i]) > 0);
            if r[i] == e {
                crate::text::lemma_lex_asym(e.0, last.0);
            } else {
                assert(sd.to_multiset().count(r[i]) > 0);
                assert(sd.contains(r[i]));
                let k = choose|k: int| 0 <= k < sd.len() && sd[k] == r[i];
                assert(s[k] == sd[k] && s[s.len() - 1] == last);
            }
        }
        let rr = r.push(last);
        assert forall|i: int, j: int| 0 <= i < j < rr.len() implies !lex_lt(
            #[trigger] rr[j].0,
            #[trigger] rr[i].0,
        ) by {
            if j == r.len() {
                assert(rr[i] == r[i]);
            } else {
                assert(rr[i] == r[i] && rr[j] == r[j]);
            }
        }
    } else {
        let last = s.last();
        let rr = s.push(e);
        assert forall|i: int, j: int| 0 <= i < j < rr.len() implies !lex_lt(
            #[trigger] rr[j].0,
            #[trigger] rr[i].0,
        ) by {
            if j == s.len() {
                assert(rr[i] == s[i] && rr[j] == e);
                if i < s.len() - 1 {
                    assert(!lex_lt(s[s.len() - 1].0, s[i].0));
                }
                if lex_lt(e.0, s[i].0) {
                    if last.0 != e.0 {
                        crate::text::lemma_lex_total(last.0, e.0);
                        crate::text::lemma_lex_trans(last.0, e.0, s[i].0);
                    }
                }
            } else {
                assert(rr[i] == s[i] && rr[j] == s[j]);
            }
        }
    }
}

proof fn lemma_sort_sorted(x: Seq<EntryView>)
    ensures
        sorted_by_id(sort_by_id(x)),
    decreases x.len(),
{
    if x.len() > 0 {
        lemma_sort_sorted(x.drop_last());
        lemma_insert_sorted_sorted(sort_by_id(x.drop_last()), x.last());
    }
}

proof fn lemma_insert_sorted_distinct(s: Seq<EntryView>, e: EntryView)
    requires
        ids_distinct(s),
        forall|k: int| 0 <= k < s.len() ==> (#[trigger] s[k]).0 != e.0,
    ensures
        ids_distinct(insert_sorted(s, e)),
    decreases s.len(),
{
    if s.len() == 0 {
    } else if lex_lt(e.0, s.last().0) {
        let sd = s.drop_last();
        let last = s.last();
        assert(ids_distinct(sd)) by {
            assert forall|i: int, j: int| 0 <= i < j < sd.len() implies sd[i].0 != sd[j].0 by {
                assert(sd[i] == s[i] && sd[j] == s[j]);
            }
        }
        assert forall|k: int| 0 <= k < sd.len() implies (#[trigger] sd[k]).0 != e.0 by {
            assert(sd[k] == s[k]);
        }
        lemma_insert_sorted_distinct(sd, e);
        lemma_insert_sorted_multiset(sd, e);
        let r = insert_sorted(sd, e);
        assert forall|i: int| 0 <= i < r.len() implies (#[trigger] r[i]).0 != last.0 by {
            broadcast use vstd::seq_lib::group_to_multiset_ensures, vstd::multiset::group_multiset_axioms;

            assert(r.contains(r[i]));
            assert(r.to_multiset().count(r[i]) > 0);
            if r[i] == e {
                assert(s[s.len() - 1] == last);
            } else {
                assert(sd.to_multiset().count(r[i]) > 0);
                assert(sd.contains(r[i]));
                let k = choose|k: int| 0 <= k < sd.len() && sd[k] == r[i];
                assert(s[k] == sd[k] && s[s.len() - 1] == last);
            }
        }
        let rr = r.push(last);
        assert forall|i: int, j: int| 0 <= i < j < rr.len() implies #[trigger] rr[i].0
            != #[trigger] rr[j].0 by {
            if j == r.len() {
                assert(rr[i] == r[i]);
            } else {
                assert(rr[i] == r[i] && rr[j] == r[j]);
            }
        }
    } else {
        let rr = s.push(e);
        assert forall|i: int, j: int| 0 <= i < j < rr.len() implies #[trigger] rr[i].0
            != #[trigger] rr[j].0 by {
            if j == s.len() {
                assert(rr[i] == s[i] && rr[j] == e);
            } else {
                assert(rr[i] == s[i] && rr[j] == s[j]);
            }
        }
    }
}

proof fn lemma_sort_distinct(x: Seq<EntryView>)
    requires
        ids_distinct(x),
    ensures
        ids_distinct(sort_by_id(x)),
    decreases x.len(),
{
    if x.len() > 0 {
        let xd = x.drop_last();
        assert(ids_distinct(xd)) by {
            assert forall|i: int, j: int| 0 <= i < j < xd.len() implies xd[i].0 != xd[j].0 by {
                assert(xd[i] == x[i] && xd[j] == x[j]);
            }
        }
        lemma_sort_distinct(xd);
        lemma_sort_multiset(xd);
        let sd = sort_by_id(xd);
        assert forall|k: int| 0 <= k < sd.len() implies (#[trigger] sd[k]).0 != x.last().0 by {
            let m = lemma_member_of_same_multiset(xd, sd, k);
            assert(xd[m] == x[m] && x[x.len() - 1] == x.last());
        }
        lemma_insert_sorted_distinct(sd, x.last());
    }
}

/// Two id-sorted sequences with the same entries are equal when the first
/// has no id twice.
proof fn lemma_sorted_same_entries_equal(s: Seq<EntryView>, t: Seq<EntryView>)
    requires
        sorted_by_id(s),
        ids_distinct(s),
        sorted_by_id(t),
        s.to_multiset() == t.to_multiset(),
    ensures
        s == t,
    decreases s.len(),
{
    broadcast use vstd::seq_lib::group_to_multiset_ensures, vstd::multiset::group_multiset_axioms;

    assert(s.len() == s.to_multiset().len());
    assert(t.len() == t.to_multiset().len());
    if s.len() == 0 {
        assert(s =~= t);
    } else {
        let n = s.len() - 1;
        let a = s[n];
        let b = t[n];
        let k = lemma_member_of_same_multiset(s, t, n);
        let m = lemma_member_of_same_multiset(t, s, n);
        if k < n {
            assert(!lex_lt(s[n].0, s[k].0));
        }
        if m < n {
            assert(!lex_lt(t[n].0, t[m].0));
        }
        if a.0 != b.0 {
            crate::text::lemma_lex_total(a.0, b.0);
        }
        if k < n {
            assert(s[k].0 != s[n].0);
        }
        assert(a == b);
        let sd = s.drop_last();
        let td = t.drop_last();
        assert(s.remove(n) =~= sd);
        assert(t.remove(n) =~= td);
        assert(sd.to_multiset() == td.to_multiset());
        assert(sorted_by_id(sd)) by {
            assert forall|i: int, j: int| 0 <= i < j < sd.len() implies !lex_lt(sd[j].0, sd[i].0) by {
                assert(sd[i] == s[i] && sd[j] == s[j]);
            }
        }
        assert(ids_distinct(sd)) by {
            assert forall|i: int, j: int| 0 <= i < j < sd.len() implies sd[i].0 != sd[j].0 by {
                assert(sd[i] == s[i] && sd[j] == s[j]);
            }
        }
        assert(sorted_by_id(td)) by {
            assert forall|i: int, j: int| 0 <= i < j < td.len() implies !lex_lt(td[j].0, td[i].0) by {
                assert(td[i] == t[i] && td[j] == t[j]);
            }
        }
        lemma_sorted_same_entries_equal(sd, td);
        assert(s =~= sd.push(a));
        assert(t =~= td.push(b));
    }
}

proof fn lemma_collect_concat(p: Seq<JCommandsList>, q: Seq<JCommandsList>, lang: Seq<char>)
    ensures
        collect_entries(p + q, lang) == collect_entries(p, lang) + collect_entries(q, lang),
    decreases q.len(),
{
    if q.len() == 0 {
        assert(p + q =~= p);
        assert(collect_entries(p, lang) + collect_entries(q, lang) =~= collect_entries(p, lang));
    } else {
        lemma_collect_concat(p, q.drop_last(), lang);
        assert((p + q).drop_last() =~= p + q.drop_last());
        assert((p + q).last() == q.last());
        let f = |c: crate::commands::JCommand|
            (c.id@, lang_entry(c.phrases@, lang).map_values(|s: String| s@));
        assert(collect_entries(p + q, lang) =~= collect_entries(p, lang) + collect_entries(
            q.drop_last(),
            lang,
        ) + q.last().commands@.map_values(f));
    }
}

proof fn lemma_collect_permutation(a: Seq<JCommandsList>, b: Seq<JCommandsList>, lang: Seq<char>)
    requires
        a.to_multiset() == b.to_multiset(),
    ensures
        collect_entries(a, lang).to_multiset() == collect_entries(b, lang).to_multiset(),
    decreases a.len(),
{
    broadcast use vstd::seq_lib::group_to_multiset_ensures, vstd::multiset::group_multiset_axioms;

    assert(a.len() == a.to_multiset().len());
    assert(b.len() == b.to_multiset().len());
    if a.len() == 0 {
        assert(a =~= b);
    } else {
        let x = a.last();
        let ad = a.drop_last();
        let k = {
            assert(a.contains(x)) by {
                assert(a[a.len() - 1] == x);
            }
            assert(b.to_multiset().count(x) > 0);
            assert(b.contains(x));
            choose|k: int| 0 <= k < b.len() && b[k] == x
        };
        let b1 = b.subrange(0, k);
        let b2 = b.subrange(k + 1, b.len() as int);
        let bd = b.remove(k);
        assert(bd =~= b1 + b2);
        assert(b =~= b1 + seq![x] + b2);
        assert(a.remove(a.len() - 1) =~= ad);
        assert(ad.to_multiset() == bd.to_multiset());
        lemma_collect_permutation(ad, bd, lang);
        let ex = collect_entries(seq![x], lang);
        assert(seq![x].drop_last() =~= Seq::<JCommandsList>::empty());
        lemma_collect_concat(b1, b2, lang);
        lemma_collect_concat(b1 + seq![x], b2, lang);
        lemma_collect_concat(b1, seq![x], lang);
        lemma_collect_concat(ad, seq![x], lang);
        assert(a =~= ad + seq![x]);
        let c1 = collect_entries(b1, lang);
        let c2 = collect_entries(b2, lang);
        vstd::seq_lib::lemma_multiset_commutative(c1 + ex, c2);
        vstd::seq_lib::lemma_multiset_commutative(c1, ex);
        vstd::seq_lib::lemma_multiset_commutative(c1, c2);
        vstd::seq_lib::lemma_multiset_commutative(collect_entries(ad, lang), ex);
        assert(collect_entries(a, lang).to_multiset() =~= collect_entries(b, lang).to_multiset());
    }
}

/// The fingerprint does not depend on the order in which the packs come:
/// packs taken in any other order give the same bytes to hash, as long as no
/// command id occurs twice (entries with equal ids keep their load order).
pub proof fn law_hash_ignores_pack_order(
    a: Seq<JCommandsList>,
    b: Seq<JCommandsList>,
    lang: Seq<char>,
)
    requires
        a.to_multiset() == b.to_multiset(),
        ids_distinct(collect_entries(a, lang)),
    ensures
        hash_input(a, lang) == hash_input(b, lang),
{
    let ca = collect_entries(a, lang);
    let cb = collect_entries(b, lang);
    lemma_collect_permutation(a, b, lang);
    lemma_sort_multiset(ca);
    lemma_sort_multiset(cb);
    lemma_sort_sorted(ca);
    lemma_sort_sorted(cb);
    lemma_sort_distinct(ca);
    lemma_sorted_same_entries_equal(sort_by_id(ca), sort_by_id(cb));
}

} // verus!
