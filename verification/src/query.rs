//! Query strings and form bodies: `key=value` pairs joined by `&`, and the
//! environment that a script is started with.

use vstd::prelude::*;
use crate::bytes::{
    find_from, lit, lemma_find_from, find_byte, copy_range, literal, append, to_vec, slice_view,
    AMPERSAND, EQUALS,
};
use crate::table::{Table, pairs_map};

verus! {

/// The query string and the posted data as one string of pairs: both, joined
/// by `&`, where both are there and the query string is not empty; else the one
/// that is there; else nothing.
pub open spec fn combined(query: Option<Seq<u8>>, post: Option<Seq<u8>>) -> Seq<u8> {
    let q = match query {
        Some(q) => q,
        None => Seq::empty(),
    };
    match post {
        Some(p) => if q.len() > 0 {
            q + seq![AMPERSAND] + p
        } else {
            p
        },
        None => q,
    }
}

/// A parameter is split at its first `=` into key and value. One without `=`
/// is no pair.
pub open spec fn pair_of(param: Seq<u8>) -> Option<(Seq<u8>, Seq<u8>)> {
    let e = find_from(param, EQUALS, 0);
    if e < param.len() {
        Some((param.subrange(0, e), param.subrange(e + 1, param.len() as int)))
    } else {
        None
    }
}

/// The pairs of the parameters of `s` from index `start` on, in their order.
/// Parameters are separated by `&`.
pub open spec fn pairs_from(s: Seq<u8>, start: int) -> Seq<(Seq<u8>, Seq<u8>)>
    decreases s.len() - start,
{
    if start < 0 || start > s.len() {
        Seq::empty()
    } else {
        let e = find_from(s, AMPERSAND, start);
        proof {
            lemma_find_from(s, AMPERSAND, start);
        }
        let rest = if e < s.len() {
            pairs_from(s, e + 1)
        } else {
            Seq::empty()
        };
        match pair_of(s.subrange(start, e)) {
            Some(p) => seq![p] + rest,
            None => rest,
        }
    }
}

/// The pairs that a query string or a form body holds.
pub open spec fn form_pairs(s: Seq<u8>) -> Seq<(Seq<u8>, Seq<u8>)> {
    pairs_from(s, 0)
}

/// The variable that carries a parameter to a script: its key behind
/// `Query_`, and its value.
pub open spec fn query_variable(p: (Seq<u8>, Seq<u8>)) -> (Seq<u8>, Seq<u8>) {
    (lit("Query_") + p.0, p.1)
}

/// The writes that make up a script's environment, in their order: one per
/// header, then `Method` and `Path`, then one `Query_` variable per parameter
/// of the query string and of the body.
pub open spec fn environment_writes(
    headers: Seq<(Seq<u8>, Seq<u8>)>,
    method: Seq<u8>,
    path: Seq<u8>,
    query: Option<Seq<u8>>,
    body: Option<Seq<u8>>,
) -> Seq<(Seq<u8>, Seq<u8>)> {
    headers + seq![(lit("Method"), method), (lit("Path"), path)] + form_pairs(
        combined(query, body),
    ).map_values(|p: (Seq<u8>, Seq<u8>)| query_variable(p))
}

/// The environment of a script: a later write replaces an earlier one of the
/// same name.
pub open spec fn environment(
    headers: Seq<(Seq<u8>, Seq<u8>)>,
    method: Seq<u8>,
    path: Seq<u8>,
    query: Option<Seq<u8>>,
    body: Option<Seq<u8>>,
) -> Map<Seq<u8>, Seq<u8>> {
    pairs_map(environment_writes(headers, method, path, query, body))
}

/// The first `b` of `a + t` at or after an index within `t` is the first `b`
/// of `t`, moved by the length of `a`.
pub proof fn lemma_find_shift(a: Seq<u8>, t: Seq<u8>, b: u8, k: int)
    requires
        0 <= k <= t.len(),
    ensures
        find_from(a + t, b, a.len() + k) == a.len() + find_from(t, b, k),
    decreases t.len() - k,
{
    if k < t.len() {
        if t[k] != b {
            lemma_find_shift(a, t, b, k + 1);
        }
    }
}

/// The first `b` of `s` is the first `b` of `s + t` too, where `s` has one;
/// where it has none, the search goes on in `t`.
pub proof fn lemma_find_prefix(s: Seq<u8>, t: Seq<u8>, b: u8, start: int)
    requires
        0 <= start <= s.len(),
    ensures
        find_from(s, b, start) < s.len() ==> find_from(s + t, b, start) == find_from(s, b, start),
        find_from(s, b, start) >= s.len() ==> find_from(s + t, b, start) == find_from(
            s + t,
            b,
            s.len() as int,
        ),
    decreases s.len() - start,
{
    if start < s.len() {
        if s[start] != b {
            lemma_find_prefix(s, t, b, start + 1);
        }
    }
}

/// The pairs of `a + t` from an index within `t` on are the pairs of `t` from
/// there on.
pub proof fn lemma_pairs_shift(a: Seq<u8>, t: Seq<u8>, k: int)
    requires
        0 <= k <= t.len(),
    ensures
        pairs_from(a + t, a.len() + k) == pairs_from(t, k),
    decreases t.len() - k,
{
    let e = find_from(t, AMPERSAND, k);
    lemma_find_from(t, AMPERSAND, k);
    lemma_find_shift(a, t, AMPERSAND, k);
    assert((a + t).subrange(a.len() + k, a.len() + e) =~= t.subrange(k, e));
    if e < t.len() {
        lemma_pairs_shift(a, t, e + 1);
    }
}

/// The pairs of two strings joined by `&` are the pairs of the first and then
/// those of the second.
pub proof fn lemma_pairs_joined(q: Seq<u8>, b: Seq<u8>, start: int)
    requires
        0 <= start <= q.len(),
    ensures
        pairs_from(q + seq![AMPERSAND] + b, start) == pairs_from(q, start) + pairs_from(b, 0),
    decreases q.len() - start,
{
    let s = q + seq![AMPERSAND] + b;
    let tail = seq![AMPERSAND] + b;
    assert(s =~= q + tail);
    let e = find_from(q, AMPERSAND, start);
    lemma_find_from(q, AMPERSAND, start);
    lemma_find_prefix(q, tail, AMPERSAND, start);
    if e < q.len() {
        assert(s.subrange(start, e) =~= q.subrange(start, e));
        lemma_pairs_joined(q, b, e + 1);
    } else {
        assert(s.subrange(start, q.len() as int) =~= q.subrange(start, q.len() as int));
        lemma_pairs_shift(q + seq![AMPERSAND], b, 0);
    }
}

/// Joins the query string and the posted data into one string of pairs.
pub fn combine_query_and_post_data(query_string: Option<&[u8]>, post_data: Option<&[u8]>) -> (r:
    Vec<u8>)
    ensures
        r@ == combined(slice_view(query_string), slice_view(post_data)),
{
    let mut r: Vec<u8> = Vec::new();
    if let Some(q) = query_string {
        append(&mut r, q);
    }
    if let Some(p) = post_data {
        if r.len() > 0 {
            r.push(AMPERSAND);
        }
        append(&mut r, p);
    }
    r
}

/// Splits a parameter at its first `=`.
pub fn read_pair(param: &[u8]) -> (r: Option<(Vec<u8>, Vec<u8>)>)
    ensures
        pair_of(param@) == match r {
            Some(p) => Some((p.0@, p.1@)),
            None => None,
        },
{
    let e: usize = find_byte(param, EQUALS, 0);
    if e < param.len() {
        Some((copy_range(param, 0, e), copy_range(param, e + 1, param.len())))
    } else {
        None
    }
}

/// Writes into `env` one `Query_` variable per parameter of `s`, in their
/// order.
pub fn write_query_variables(env: &mut Table, s: &[u8])
    ensures
        final(env).pairs() == old(env).pairs() + form_pairs(s@).map_values(
            |p: (Seq<u8>, Seq<u8>)| query_variable(p),
        ),
{
    let ghost f = |p: (Seq<u8>, Seq<u8>)| query_variable(p);
    let ghost done = Seq::<(Seq<u8>, Seq<u8>)>::empty();
    let mut start: usize = 0;
    let mut more: bool = true;
    while more
        invariant
            0 <= start <= s@.len(),
            f == |p: (Seq<u8>, Seq<u8>)| query_variable(p),
            more ==> form_pairs(s@) == done + pairs_from(s@, start as int),
            !more ==> form_pairs(s@) == done,
            env.pairs() == old(env).pairs() + done.map_values(f),
        decreases s@.len() - start + (if more { 1int } else { 0int }),
    {
        let e: usize = find_byte(s, AMPERSAND, start);
        let param = copy_range(s, start, e);
        match read_pair(param.as_slice()) {
            Some((key, value)) => {
                let mut name = literal("Query_");
                append(&mut name, key.as_slice());
                env.insert(name, value);
                proof {
                    done = done.push((key@, value@));
                }
            },
            None => {},
        }
        if e < s.len() {
            start = e + 1;
        } else {
            more = false;
        }
    }
}

/// Builds the environment of a script.
pub fn build_environment(
    headers: &Table,
    method: &[u8],
    path: &[u8],
    query: Option<&[u8]>,
    body: Option<&[u8]>,
) -> (env: Table)
    ensures
        env.pairs() == environment_writes(
            headers.pairs(),
            method@,
            path@,
            slice_view(query),
            slice_view(body),
        ),
        env@ == environment(headers.pairs(), method@, path@, slice_view(query), slice_view(body)),
{
    let mut env = Table::new();
    let mut i: usize = 0;
    while i < headers.len()
        invariant
            0 <= i <= headers.pairs().len(),
            env.pairs() == headers.pairs().subrange(0, i as int),
        decreases headers.pairs().len() - i,
    {
        let key = to_vec(headers.entries[i].key.as_slice());
        let value = to_vec(headers.entries[i].value.as_slice());
        env.insert(key, value);
        i += 1;
    }
    env.insert(literal("Method"), to_vec(method));
    env.insert(literal("Path"), to_vec(path));
    let all = combine_query_and_post_data(query, body);
    write_query_variables(&mut env, all.as_slice());
    env
}

} // verus!
