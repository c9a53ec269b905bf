//! The order in which the children of a directory are listed: by name, byte
//! for byte.

use vstd::prelude::*;
use vstd::seq_lib::{to_multiset_build, to_multiset_insert};
use crate::bytes::to_vec;
use crate::listing::{DirEntry, children};

verus! {

/// Whether `a` comes before `b`, or is `b`, in lexicographic order.
pub open spec fn lex_le(a: Seq<u8>, b: Seq<u8>) -> bool
    decreases a.len(),
{
    if a.len() == 0 {
        true
    } else if b.len() == 0 {
        false
    } else if a[0] != b[0] {
        a[0] < b[0]
    } else {
        lex_le(a.drop_first(), b.drop_first())
    }
}

/// Whether the names of `s` never go down.
pub open spec fn ordered(s: Seq<(Seq<u8>, bool)>) -> bool {
    forall|i: int, j: int| 0 <= i < j < s.len() ==> lex_le(#[trigger] s[i].0, #[trigger] s[j].0)
}

/// Where `x` goes in `s`: behind the last child whose name is not greater.
pub open spec fn place_of(s: Seq<(Seq<u8>, bool)>, x: (Seq<u8>, bool)) -> int
    decreases s.len(),
{
    if s.len() == 0 {
        0
    } else if lex_le(s.last().0, x.0) {
        s.len() as int
    } else {
        place_of(s.drop_last(), x)
    }
}

/// The children in the order of their names. Children of one name keep the
/// order in which they came.
pub open spec fn sorted_by_name(s: Seq<(Seq<u8>, bool)>) -> Seq<(Seq<u8>, bool)>
    decreases s.len(),
{
    if s.len() == 0 {
        Seq::empty()
    } else {
        let t = sorted_by_name(s.drop_last());
        t.insert(place_of(t, s.last()), s.last())
    }
}

/// Of two names, one comes before the other or is the other.
pub proof fn lemma_lex_total(a: Seq<u8>, b: Seq<u8>)
    ensures
        lex_le(a, b) || lex_le(b, a),
    decreases a.len(),
{
    if a.len() > 0 && b.len() > 0 && a[0] == b[0] {
        lemma_lex_total(a.drop_first(), b.drop_first());
    }
}

/// What comes before a name comes before all that the name comes before.
pub proof fn lemma_lex_transitive(a: Seq<u8>, b: Seq<u8>, c: Seq<u8>)
    requires
        lex_le(a, b),
        lex_le(b, c),
    ensures
        lex_le(a, c),
    decreases a.len(),
{
    if a.len() > 0 && b.len() > 0 && c.len() > 0 && a[0] == b[0] && b[0] == c[0] {
        lemma_lex_transitive(a.drop_first(), b.drop_first(), c.drop_first());
    }
}

/// The place of `x` in `s` lies behind a child that is not greater, where it
/// lies behind any, and before greater children only.
pub proof fn lemma_place_of(s: Seq<(Seq<u8>, bool)>, x: (Seq<u8>, bool))
    ensures
        0 <= place_of(s, x) <= s.len(),
        place_of(s, x) > 0 ==> lex_le(s[place_of(s, x) - 1].0, x.0),
        forall|j: int| place_of(s, x) <= j < s.len() ==> !lex_le((#[trigger] s[j]).0, x.0),
    decreases s.len(),
{
    if s.len() > 0 && !lex_le(s.last().0, x.0) {
        let t = s.drop_last();
        lemma_place_of(t, x);
        assert forall|j: int| place_of(s, x) <= j < s.len() implies !lex_le(
            (#[trigger] s[j]).0,
            x.0,
        ) by {
            if j < t.len() {
                assert(t[j] == s[j]);
            }
        }
    }
}

/// Sorting keeps every child, each as often as it came, and puts the names in
/// order.
pub proof fn lemma_sorted_by_name(s: Seq<(Seq<u8>, bool)>)
    ensures
        sorted_by_name(s).len() == s.len(),
        sorted_by_name(s).to_multiset() == s.to_multiset(),
        ordered(sorted_by_name(s)),
    decreases s.len(),
{
    if s.len() == 0 {
        assert(s =~= sorted_by_name(s));
    } else {
        let t = sorted_by_name(s.drop_last());
        let x = s.last();
        let p = place_of(t, x);
        let r = t.insert(p, x);
        lemma_sorted_by_name(s.drop_last());
        lemma_place_of(t, x);
        to_multiset_insert(t, p, x);
        to_multiset_build(s.drop_last(), x);
        assert(s.drop_last().push(x) =~= s);
        assert forall|i: int, j: int| 0 <= i < j < r.len() implies lex_le(
            #[trigger] r[i].0,
            #[trigger] r[j].0,
        ) by {
            if j == p && i < p - 1 {
                lemma_lex_transitive(t[i].0, t[p - 1].0, x.0);
            } else if j > p && i == p {
                lemma_lex_total(t[j - 1].0, x.0);
            }
        }
    }
}

/// Every child is among the sorted children.
pub proof fn lemma_sorted_holds_all(s: Seq<(Seq<u8>, bool)>, i: int)
    requires
        0 <= i < s.len(),
    ensures
        sorted_by_name(s).contains(s[i]),
    decreases s.len(),
{
    let t = sorted_by_name(s.drop_last());
    let p = place_of(t, s.last());
    let r = t.insert(p, s.last());
    lemma_place_of(t, s.last());
    if i == s.len() - 1 {
        assert(r[p] == s[i]);
    } else {
        lemma_sorted_holds_all(s.drop_last(), i);
        let k = choose|k: int| 0 <= k < t.len() && t[k] == s.drop_last()[i];
        if k < p {
            assert(r[k] == s[i]);
        } else {
            assert(r[k + 1] == s[i]);
        }
    }
}

/// Whether `a` comes before `b`, or is `b`, in lexicographic order.
pub fn name_le(a: &[u8], b: &[u8]) -> (r: bool)
    ensures
        r == lex_le(a@, b@),
{
    let mut i: usize = 0;
    assert(a@.subrange(0, a@.len() as int) =~= a@);
    assert(b@.subrange(0, b@.len() as int) =~= b@);
    while i < a.len() && i < b.len() && a[i] == b[i]
        invariant
            0 <= i <= a@.len(),
            i <= b@.len(),
            lex_le(a@, b@) == lex_le(
                a@.subrange(i as int, a@.len() as int),
                b@.subrange(i as int, b@.len() as int),
            ),
        decreases a@.len() - i,
    {
        assert(a@.subrange(i as int, a@.len() as int).drop_first() =~= a@.subrange(
            i + 1,
            a@.len() as int,
        ));
        assert(b@.subrange(i as int, b@.len() as int).drop_first() =~= b@.subrange(
            i + 1,
            b@.len() as int,
        ));
        i += 1;
    }
    if i == a.len() {
        true
    } else if i == b.len() {
        false
    } else {
        a[i] < b[i]
    }
}

/// The entries in the order of their names.
pub fn sort_entries(entries: &Vec<DirEntry>) -> (r: Vec<DirEntry>)
    ensures
        children(r@) == sorted_by_name(children(entries@)),
{
    let ghost kids = children(entries@);
    let mut out: Vec<DirEntry> = Vec::new();
    let mut i: usize = 0;
    while i < entries.len()
        invariant
            0 <= i <= entries@.len(),
            kids == children(entries@),
            children(out@) == sorted_by_name(kids.subrange(0, i as int)),
        decreases entries@.len() - i,
    {
        let ghost t = children(out@);
        let ghost x = kids[i as int];
        let mut p: usize = out.len();
        assert(t.subrange(0, p as int) =~= t);
        while p > 0 && !name_le(out[p - 1].name.as_slice(), entries[i].name.as_slice())
            invariant
                0 <= p <= out@.len(),
                0 <= i < entries@.len(),
                t == children(out@),
                x == kids[i as int],
                kids == children(entries@),
                place_of(t, x) == place_of(t.subrange(0, p as int), x),
            decreases p,
        {
            assert(t.subrange(0, p as int).drop_last() =~= t.subrange(0, p - 1));
            p -= 1;
        }
        let entry = DirEntry { name: to_vec(entries[i].name.as_slice()), is_dir: entries[i].is_dir };
        out.insert(p, entry);
        assert(kids.subrange(0, i + 1).drop_last() =~= kids.subrange(0, i as int));
        i += 1;
    }
    assert(kids.subrange(0, i as int) =~= kids);
    out
}

} // verus!
