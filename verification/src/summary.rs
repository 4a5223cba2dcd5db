//! The count of address notes by kind, in the order of their labels.

use vstd::prelude::*;
use crate::address::before_first;
use crate::text::{chars_of, find_chars, lemma_find_from_occurs, slice_chars, string_of, string_views};

verus! {

/// The kind of a note: its text up to the first ` (`.
pub open spec fn note_label(note: Seq<char>) -> Seq<char> {
    before_first(note, " ("@)
}

/// Lexicographic order of character sequences, by code point (the order of
/// `String`s).
pub open spec fn text_lt(a: Seq<char>, b: Seq<char>) -> bool
    decreases a.len(),
{
    if a.len() == 0 {
        b.len() > 0
    } else if b.len() == 0 {
        false
    } else if a[0] < b[0] {
        true
    } else if a[0] == b[0] {
        text_lt(a.drop_first(), b.drop_first())
    } else {
        false
    }
}

pub proof fn lemma_text_lt_irreflexive(a: Seq<char>)
    ensures
        !text_lt(a, a),
    decreases a.len(),
{
    if a.len() > 0 {
        lemma_text_lt_irreflexive(a.drop_first());
    }
}

pub proof fn lemma_text_lt_total(a: Seq<char>, b: Seq<char>)
    ensures
        a != b ==> text_lt(a, b) || text_lt(b, a),
    decreases a.len(),
{
    if a.len() > 0 && b.len() > 0 && a[0] == b[0] {
        lemma_text_lt_total(a.drop_first(), b.drop_first());
        if a.drop_first() == b.drop_first() {
            assert(a =~= seq![a[0]] + a.drop_first());
            assert(b =~= seq![b[0]] + b.drop_first());
        }
    } else if a.len() == 0 && b.len() == 0 {
        assert(a =~= b);
    }
}

pub proof fn lemma_text_lt_transitive(a: Seq<char>, b: Seq<char>, c: Seq<char>)
    requires
        text_lt(a, b),
        text_lt(b, c),
    ensures
        text_lt(a, c),
    decreases a.len(),
{
    if a.len() > 0 && a[0] == b[0] && b[0] == c[0] {
        lemma_text_lt_transitive(a.drop_first(), b.drop_first(), c.drop_first());
    }
}

/// The number of notes of kind `label`.
pub open spec fn label_count(notes: Seq<Seq<char>>, label: Seq<char>) -> nat
    decreases notes.len(),
{
    if notes.len() == 0 {
        0
    } else {
        label_count(notes.drop_last(), label) + if note_label(notes.last()) == label {
            1nat
        } else {
            0nat
        }
    }
}

pub proof fn lemma_label_count_bound(notes: Seq<Seq<char>>, label: Seq<char>)
    ensures
        label_count(notes, label) <= notes.len(),
    decreases notes.len(),
{
    if notes.len() > 0 {
        lemma_label_count_bound(notes.drop_last(), label);
    }
}

pub proof fn lemma_label_count_zero(notes: Seq<Seq<char>>, label: Seq<char>)
    requires
        forall|j: int| 0 <= j < notes.len() ==> note_label(#[trigger] notes[j]) != label,
    ensures
        label_count(notes, label) == 0,
    decreases notes.len(),
{
    if notes.len() > 0 {
        assert forall|j: int| 0 <= j < notes.drop_last().len() implies note_label(
            #[trigger] notes.drop_last()[j],
        ) != label by {
            assert(notes.drop_last()[j] == notes[j]);
        }
        lemma_label_count_zero(notes.drop_last(), label);
        assert(notes.last() == notes[notes.len() - 1]);
    }
}

/// The entries of a summary of `notes`: one per kind of note, in increasing
/// order of the labels, each with the number of notes of that kind.
pub open spec fn is_summary_of(entries: Seq<(Seq<char>, nat)>, notes: Seq<Seq<char>>) -> bool {
    &&& forall|i: int, j: int| 0 <= i < j < entries.len() ==> text_lt(#[trigger] entries[i].0, #[trigger] entries[j].0)
    &&& forall|i: int| 0 <= i < entries.len() ==> (#[trigger] entries[i]).1 == label_count(notes, entries[i].0)
        && entries[i].1 > 0
    &&& forall|k: int| 0 <= k < notes.len() ==> exists|i: int| 0 <= i < entries.len() && (#[trigger] entries[i]).0 == note_label(#[trigger] notes[k])
}

pub open spec fn entry_views(v: Seq<(String, usize)>) -> Seq<(Seq<char>, nat)> {
    v.map_values(|e: (String, usize)| (e.0@, e.1 as nat))
}

/// `a` comes before `b` in lexicographic order.
fn text_less(a: &[char], b: &[char]) -> (r: bool)
    ensures
        r == text_lt(a@, b@),
{
    let mut i: usize = 0;
    assert(a@.skip(0) =~= a@);
    assert(b@.skip(0) =~= b@);
    while i < a.len() && i < b.len() && a[i] == b[i]
        invariant
            i <= a@.len(),
            i <= b@.len(),
            text_lt(a@, b@) == text_lt(a@.skip(i as int), b@.skip(i as int)),
        decreases a@.len() - i,
    {
        assert(a@.skip(i as int).drop_first() =~= a@.skip(i + 1));
        assert(b@.skip(i as int).drop_first() =~= b@.skip(i + 1));
        i = i + 1;
    }
    assert(a@.skip(0) =~= a@);
    if i == a.len() {
        i < b.len()
    } else if i == b.len() {
        false
    } else {
        a[i] < b[i]
    }
}

/// The kind of a note.
fn label_of(note: &String) -> (r: Vec<char>)
    ensures
        r@ == note_label(note@),
{
    let v = chars_of(note.as_str());
    let sep = chars_of(" (");
    match find_chars(v.as_slice(), sep.as_slice()) {
        Some(k) => {
            proof {
                lemma_find_from_occurs(v@, sep@, 0);
            }
            let r = slice_chars(v.as_slice(), 0, k);
            assert(r@ =~= v@.take(k as int));
            r
        },
        None => v,
    }
}

/// Counts the notes by kind, in increasing order of the kinds' labels.
pub fn summarize(notes: &Vec<String>) -> (r: Vec<(String, usize)>)
    ensures
        is_summary_of(entry_views(r@), string_views(notes@)),
{
    let ghost nv = string_views(notes@);
    let mut entries: Vec<(String, usize)> = Vec::new();
    let mut k: usize = 0;
    while k < notes.len()
        invariant
            k <= notes@.len(),
            nv == string_views(notes@),
            is_summary_of(entry_views(entries@), nv.take(k as int)),
        decreases notes@.len() - k,
    {
        let ghost ev = entry_views(entries@);
        let ghost prev = nv.take(k as int);
        let ghost next = nv.take(k + 1);
        assert(next.drop_last() =~= prev);
        assert(next.last() == nv[k as int]);
        assert(nv[k as int] == notes@[k as int]@);
        let label = label_of(&notes[k]);
        let ghost l = label@;
        assert forall|x: Seq<char>| #[trigger] label_count(next, x) == label_count(prev, x) + if l == x {
            1nat
        } else {
            0nat
        } by {}
        let n = entries.len();
        let mut p: usize = 0;
        let mut go = entries.len() > 0 && text_less(chars_of(entries[0].0.as_str()).as_slice(), label.as_slice());
        while go
            invariant
                p <= entries@.len(),
                n == entries@.len(),
                ev == entry_views(entries@),
                l == label@,
                forall|i: int| 0 <= i < p ==> text_lt(#[trigger] ev[i].0, l),
                go ==> p < entries@.len() && text_lt(ev[p as int].0, l),
                !go ==> p == entries@.len() || !text_lt(ev[p as int].0, l),
            decreases entries@.len() - p,
        {
            p = p + 1;
            go = p < entries.len() && text_less(chars_of(entries[p].0.as_str()).as_slice(), label.as_slice());
            if p < entries.len() {
                assert(ev[p as int].0 == entries@[p as int].0@);
            }
        }
        let same = p < entries.len() && crate::text::chars_eq(chars_of(entries[p].0.as_str()).as_slice(), label.as_slice());
        if p < entries.len() {
            assert(ev[p as int].0 == entries@[p as int].0@);
            assert(!text_lt(ev[p as int].0, l));
        }
        if same {
            let c = entries[p].1;
            proof {
                lemma_label_count_bound(prev, l);
            }
            let name = entries[p].0.clone();
            entries.set(p, (name, c + 1));
            assert forall|i: int, j: int| 0 <= i < j < entry_views(entries@).len() implies text_lt(
                #[trigger] entry_views(entries@)[i].0,
                #[trigger] entry_views(entries@)[j].0,
            ) by {
                assert(entry_views(entries@)[i].0 == ev[i].0);
                assert(entry_views(entries@)[j].0 == ev[j].0);
            }
            assert forall|i: int| 0 <= i < entry_views(entries@).len() implies (#[trigger] entry_views(entries@)[i]).1
                == label_count(next, entry_views(entries@)[i].0) && entry_views(entries@)[i].1 > 0 by {
                if i != p {
                    assert(entry_views(entries@)[i] == ev[i]);
                    if ev[i].0 == l {
                        assert(!text_lt(ev[i].0, ev[p as int].0) || !text_lt(ev[p as int].0, ev[i].0));
                        if i < p {
                            lemma_text_lt_irreflexive(l);
                        } else {
                            lemma_text_lt_irreflexive(l);
                        }
                    }
                }
            }
            assert forall|m: int| 0 <= m < next.len() implies exists|i: int| 0 <= i < entry_views(entries@).len()
                && (#[trigger] entry_views(entries@)[i]).0 == note_label(#[trigger] next[m]) by {
                if m < prev.len() {
                    assert(next[m] == prev[m]);
                    let i = choose|i: int| 0 <= i < ev.len() && (#[trigger] ev[i]).0 == note_label(prev[m]);
                    assert(entry_views(entries@)[i].0 == ev[i].0);
                } else {
                    assert(entry_views(entries@)[p as int].0 == l);
                }
            }
        } else {
            proof {
                assert forall|j: int| 0 <= j < prev.len() implies note_label(#[trigger] prev[j]) != l by {
                    let i = choose|i: int| 0 <= i < ev.len() && (#[trigger] ev[i]).0 == note_label(prev[j]);
                    if ev[i].0 == l {
                        if i < p {
                            lemma_text_lt_irreflexive(l);
                        } else if i == p {
                        } else {
                            assert(text_lt(ev[p as int].0, ev[i].0));
                            lemma_text_lt_total(ev[p as int].0, l);
                            lemma_text_lt_irreflexive(l);
                        }
                    }
                }
                lemma_label_count_zero(prev, l);
            }
            let name = string_of(label.as_slice());
            entries.insert(p, (name, 1));
            let ghost nev = entry_views(entries@);
            assert(nev =~= ev.insert(p as int, (l, 1nat)));
            assert forall|i: int, j: int| 0 <= i < j < nev.len() implies text_lt(
                #[trigger] nev[i].0,
                #[trigger] nev[j].0,
            ) by {
                if p < ev.len() {
                    lemma_text_lt_total(ev[p as int].0, l);
                }
                if j < p {
                } else if i < p && j == p {
                } else if i < p && j > p {
                    assert(nev[j] == ev[j - 1]);
                } else if i == p {
                    assert(nev[j] == ev[j - 1]);
                    if j - 1 > p {
                        lemma_text_lt_transitive(l, ev[p as int].0, ev[j - 1].0);
                    }
                } else {
                    assert(nev[i] == ev[i - 1]);
                    assert(nev[j] == ev[j - 1]);
                }
            }
            assert forall|i: int| 0 <= i < nev.len() implies (#[trigger] nev[i]).1 == label_count(
                next,
                nev[i].0,
            ) && nev[i].1 > 0 by {
                if i < p {
                    lemma_text_lt_irreflexive(l);
                } else if i > p {
                    assert(nev[i] == ev[i - 1]);
                    if ev[i - 1].0 == l {
                        if p < ev.len() {
                            lemma_text_lt_total(ev[p as int].0, l);
                            if i - 1 > p {
                                assert(text_lt(ev[p as int].0, ev[i - 1].0));
                                lemma_text_lt_transitive(l, ev[p as int].0, ev[i - 1].0);
                            }
                        }
                        lemma_text_lt_irreflexive(l);
                    }
                }
            }
            assert forall|m: int| 0 <= m < next.len() implies exists|i: int| 0 <= i < nev.len()
                && (#[trigger] nev[i]).0 == note_label(#[trigger] next[m]) by {
                if m < prev.len() {
                    assert(next[m] == prev[m]);
                    let i = choose|i: int| 0 <= i < ev.len() && (#[trigger] ev[i]).0 == note_label(prev[m]);
                    if i < p {
                        assert(nev[i] == ev[i]);
                    } else {
                        assert(nev[i + 1] == ev[i]);
                    }
                } else {
                    assert(nev[p as int].0 == l);
                }
            }
        }
        k = k + 1;
    }
    assert(nv.take(notes@.len() as int) =~= nv);
    entries
}

} // verus!
