//! Byte-string primitives shared by the rest of the library.
//!
//! Everything the server reads or writes is a sequence of bytes; the model of a
//! byte string is `Seq<u8>`.

use vstd::prelude::*;
use vstd::string::StringSliceAdditionalSpecFns;

verus! {

pub const LF: u8 = 10;

pub const CR: u8 = 13;

pub const SPACE: u8 = 32;

pub const QUOTE: u8 = 34;

pub const AMPERSAND: u8 = 38;

pub const DOT: u8 = 46;

pub const SLASH: u8 = 47;

pub const COLON: u8 = 58;

pub const EQUALS: u8 = 61;

pub const QUESTION: u8 = 63;

/// The bytes of a string literal (its UTF-8 encoding).
pub open spec fn lit(s: &str) -> Seq<u8> {
    s.spec_bytes()
}

/// What an optional slice holds.
pub open spec fn slice_view(o: Option<&[u8]>) -> Option<Seq<u8>> {
    match o {
        Some(s) => Some(s@),
        None => None,
    }
}

/// What an optional vector holds.
pub open spec fn vec_view(o: Option<Vec<u8>>) -> Option<Seq<u8>> {
    match o {
        Some(v) => Some(v@),
        None => None,
    }
}

/// Whether `b` is ASCII whitespace: space, tab, line feed, vertical tab, form
/// feed or carriage return.
pub open spec fn is_space(b: u8) -> bool {
    b == 32 || (9 <= b && b <= 13)
}

/// The least index `i >= start` with `s[i] == b`, or `s.len()` when there is none.
pub open spec fn find_from(s: Seq<u8>, b: u8, start: int) -> int
    decreases s.len() - start,
{
    if start >= s.len() {
        s.len() as int
    } else if s[start] == b {
        start
    } else {
        find_from(s, b, start + 1)
    }
}

/// The least index `i >= start` at which `s` holds whitespace (`want`) or holds
/// none (`!want`), or `s.len()` when there is no such index.
pub open spec fn scan_space(s: Seq<u8>, want: bool, start: int) -> int
    decreases s.len() - start,
{
    if start >= s.len() {
        s.len() as int
    } else if is_space(s[start]) == want {
        start
    } else {
        scan_space(s, want, start + 1)
    }
}

/// The number of bytes of `s` that remain once its trailing whitespace is cut.
pub open spec fn trimmed_end(s: Seq<u8>) -> int
    decreases s.len(),
{
    if s.len() == 0 {
        0
    } else if !is_space(s.last()) {
        s.len() as int
    } else {
        trimmed_end(s.drop_last())
    }
}

/// `s` without leading and trailing whitespace.
pub open spec fn trim(s: Seq<u8>) -> Seq<u8> {
    let a = scan_space(s, false, 0);
    let b = trimmed_end(s);
    if a >= b {
        Seq::empty()
    } else {
        s.subrange(a, b)
    }
}

/// Whether `s` begins with `p`.
pub open spec fn starts_with(s: Seq<u8>, p: Seq<u8>) -> bool {
    p.len() <= s.len() && s.subrange(0, p.len() as int) == p
}

/// Whether `p` occurs in `s` at index `i`.
pub open spec fn occurs_at(s: Seq<u8>, p: Seq<u8>, i: int) -> bool {
    0 <= i && i + p.len() <= s.len() && s.subrange(i, i + p.len()) == p
}

/// Whether `p` occurs somewhere in `s`.
pub open spec fn contains(s: Seq<u8>, p: Seq<u8>) -> bool {
    exists|i: int| occurs_at(s, p, i)
}

pub proof fn lemma_find_from(s: Seq<u8>, b: u8, start: int)
    requires
        0 <= start <= s.len(),
    ensures
        start <= find_from(s, b, start) <= s.len(),
        find_from(s, b, start) < s.len() ==> s[find_from(s, b, start)] == b,
        forall|j: int| start <= j < find_from(s, b, start) ==> s[j] != b,
    decreases s.len() - start,
{
    if start < s.len() && s[start] != b {
        lemma_find_from(s, b, start + 1);
    }
}

pub proof fn lemma_scan_space(s: Seq<u8>, want: bool, start: int)
    requires
        0 <= start <= s.len(),
    ensures
        start <= scan_space(s, want, start) <= s.len(),
        scan_space(s, want, start) < s.len() ==> is_space(s[scan_space(s, want, start)]) == want,
        forall|j: int| start <= j < scan_space(s, want, start) ==> is_space(s[j]) != want,
    decreases s.len() - start,
{
    if start < s.len() && is_space(s[start]) != want {
        lemma_scan_space(s, want, start + 1);
    }
}

pub proof fn lemma_trimmed_end(s: Seq<u8>)
    ensures
        0 <= trimmed_end(s) <= s.len(),
        trimmed_end(s) > 0 ==> !is_space(s[trimmed_end(s) - 1]),
        forall|j: int| trimmed_end(s) <= j < s.len() ==> is_space(s[j]),
    decreases s.len(),
{
    if s.len() > 0 && is_space(s.last()) {
        let t = s.drop_last();
        lemma_trimmed_end(t);
        assert forall|j: int| trimmed_end(s) <= j < s.len() implies is_space(s[j]) by {
            if j < t.len() {
                assert(t[j] == s[j]);
            }
        }
    }
}

/// What occurs in a string occurs in it with more put before and behind.
pub proof fn lemma_contains_inside(a: Seq<u8>, s: Seq<u8>, b: Seq<u8>, p: Seq<u8>)
    requires
        contains(s, p),
    ensures
        contains(a + s + b, p),
{
    let i = choose|i: int| occurs_at(s, p, i);
    assert((a + s + b).subrange(a.len() + i, a.len() + i + p.len()) =~= s.subrange(
        i,
        i + p.len(),
    ));
    assert(occurs_at(a + s + b, p, a.len() + i));
}

/// A string occurs in itself.
pub proof fn lemma_contains_self(s: Seq<u8>)
    ensures
        contains(s, s),
{
    assert(s.subrange(0, s.len() as int) =~= s);
    assert(occurs_at(s, s, 0));
}

/// Executable form of [`is_space`].
pub fn byte_is_space(b: u8) -> (r: bool)
    ensures
        r == is_space(b),
{
    b == 32 || (9 <= b && b <= 13)
}

/// Copies a string literal's bytes.
pub fn literal(s: &str) -> (r: Vec<u8>)
    ensures
        r@ == lit(s),
{
    to_vec(s.as_bytes())
}

/// Copies a slice.
pub fn to_vec(s: &[u8]) -> (r: Vec<u8>)
    ensures
        r@ == s@,
{
    copy_range(s, 0, s.len())
}

/// Copies the bytes of `s` from index `from` up to `to`.
pub fn copy_range(s: &[u8], from: usize, to: usize) -> (r: Vec<u8>)
    requires
        from <= to <= s@.len(),
    ensures
        r@ == s@.subrange(from as int, to as int),
{
    let mut r: Vec<u8> = Vec::new();
    let mut i: usize = from;
    while i < to
        invariant
            from <= i <= to <= s@.len(),
            r@ == s@.subrange(from as int, i as int),
        decreases to - i,
    {
        r.push(s[i]);
        i += 1;
    }
    r
}

/// Appends `s` to `out`.
pub fn append(out: &mut Vec<u8>, s: &[u8])
    ensures
        final(out)@ == old(out)@ + s@,
{
    let mut i: usize = 0;
    while i < s.len()
        invariant
            0 <= i <= s@.len(),
            out@ == old(out)@ + s@.subrange(0, i as int),
        decreases s@.len() - i,
    {
        out.push(s[i]);
        i += 1;
    }
}

/// Whether two byte strings are equal.
pub fn equal(a: &[u8], b: &[u8]) -> (r: bool)
    ensures
        r == (a@ == b@),
{
    if a.len() != b.len() {
        return false;
    }
    let mut i: usize = 0;
    while i < a.len()
        invariant
            a@.len() == b@.len(),
            0 <= i <= a@.len(),
            forall|j: int| 0 <= j < i ==> a@[j] == b@[j],
        decreases a@.len() - i,
    {
        if a[i] != b[i] {
            return false;
        }
        i += 1;
    }
    assert(a@ =~= b@);
    true
}

/// Whether `p` occurs in `s` at index `i`.
pub fn matches_at(s: &[u8], p: &[u8], i: usize) -> (r: bool)
    ensures
        r == occurs_at(s@, p@, i as int),
{
    if i > s.len() || p.len() > s.len() - i {
        return false;
    }
    let mut k: usize = 0;
    while k < p.len()
        invariant
            i + p.len() <= s.len(),
            0 <= k <= p@.len(),
            forall|j: int| 0 <= j < k ==> s@[i + j] == p@[j],
        decreases p@.len() - k,
    {
        if s[i + k] != p[k] {
            return false;
        }
        k += 1;
    }
    assert(s@.subrange(i as int, i + p@.len()) =~= p@);
    true
}

/// Whether `s` begins with `p`.
pub fn has_prefix(s: &[u8], p: &[u8]) -> (r: bool)
    ensures
        r == starts_with(s@, p@),
{
    matches_at(s, p, 0)
}

/// Whether `p` occurs somewhere in `s`.
pub fn has_infix(s: &[u8], p: &[u8]) -> (r: bool)
    ensures
        r == contains(s@, p@),
{
    if p.len() > s.len() {
        return false;
    }
    let last: usize = s.len() - p.len();
    let mut i: usize = 0;
    while i < last
        invariant
            last == s@.len() - p@.len(),
            0 <= i <= last,
            forall|j: int| 0 <= j < i ==> !occurs_at(s@, p@, j),
        decreases last - i,
    {
        if matches_at(s, p, i) {
            return true;
        }
        i += 1;
    }
    matches_at(s, p, last)
}

/// The first index at or after `start` that holds `b`, or the length of `s`.
pub fn find_byte(s: &[u8], b: u8, start: usize) -> (r: usize)
    requires
        start <= s@.len(),
    ensures
        r == find_from(s@, b, start as int),
        start <= r <= s@.len(),
{
    let mut i: usize = start;
    while i < s.len() && s[i] != b
        invariant
            start <= i <= s@.len(),
            find_from(s@, b, start as int) == find_from(s@, b, i as int),
        decreases s@.len() - i,
    {
        i += 1;
    }
    i
}

/// The first index at or after `start` whose byte is whitespace (`want`) or is
/// not (`!want`), or the length of `s`.
pub fn scan(s: &[u8], want: bool, start: usize) -> (r: usize)
    requires
        start <= s@.len(),
    ensures
        r == scan_space(s@, want, start as int),
        start <= r <= s@.len(),
{
    let mut i: usize = start;
    while i < s.len() && byte_is_space(s[i]) != want
        invariant
            start <= i <= s@.len(),
            scan_space(s@, want, start as int) == scan_space(s@, want, i as int),
        decreases s@.len() - i,
    {
        i += 1;
    }
    i
}

/// `s` without leading and trailing whitespace.
pub fn trimmed(s: &[u8]) -> (r: Vec<u8>)
    ensures
        r@ == trim(s@),
{
    let a: usize = scan(s, false, 0);
    let mut b: usize = s.len();
    assert(s@.subrange(0, b as int) =~= s@);
    while b > 0 && byte_is_space(s[b - 1])
        invariant
            0 <= b <= s@.len(),
            trimmed_end(s@) == trimmed_end(s@.subrange(0, b as int)),
        decreases b,
    {
        assert(s@.subrange(0, b as int).drop_last() =~= s@.subrange(0, b - 1));
        b -= 1;
    }
    if a >= b {
        Vec::new()
    } else {
        copy_range(s, a, b)
    }
}

} // verus!
