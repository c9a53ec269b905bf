//! The guard that decides which paths may be served, and the classification
//! of a requested path.
//!
//! The file system itself is not read here. The caller resolves the joined
//! path to its absolute, symlink-free form and says what it found there; the
//! decisions are made on those answers. A path that resolves to nothing is
//! judged as it is written: what is missing is not forbidden on that account.

use vstd::prelude::*;
use crate::bytes::{
    find_from, lit, starts_with, contains, lemma_find_from, find_byte, has_prefix, has_infix,
    literal, append, to_vec, copy_range, slice_view, DOT, SLASH,
};
use crate::request::{leading_slashes, relative_path, strip_leading_slashes};

verus! {

/// What the file system holds at a path.
#[derive(Clone, Copy, Debug, PartialEq, Eq, Structural)]
pub enum Kind {
    Directory,
    File,
    /// Neither a directory nor a regular file, or nothing that can be examined.
    Other,
}

/// How a requested path is to be treated.
#[derive(Clone, Copy, Debug, PartialEq, Eq, Structural)]
pub enum Resolution {
    Forbidden,
    Directory,
    File,
    Missing,
}

/// A requested path after resolution: the path in the file system, and how it
/// is to be treated.
#[derive(Debug, PartialEq, Eq)]
pub struct ResolvedPath {
    pub path: Vec<u8>,
    pub tag: Resolution,
}

/// `rel` below `root`: the two joined by one `/`. An empty `rel` leaves `root`
/// as it is, and an empty `root` leaves `rel`.
pub open spec fn join(root: Seq<u8>, rel: Seq<u8>) -> Seq<u8> {
    if rel.len() == 0 {
        root
    } else if root.len() == 0 {
        rel
    } else if root.last() == SLASH {
        root + rel
    } else {
        root + seq![SLASH] + rel
    }
}

/// Whether `path` is `root` or lies below it: `root` is a prefix of `path` that
/// ends where a component of `path` ends.
pub open spec fn within(path: Seq<u8>, root: Seq<u8>) -> bool {
    root.len() == 0 || (starts_with(path, root) && (path.len() == root.len() || root.last()
        == SLASH || path[root.len() as int] == SLASH))
}

/// `path` as seen from `root`: without `root` and the `/` bytes after it. A
/// path that does not lie within `root` is left as it is.
pub open spec fn relative_to(path: Seq<u8>, root: Seq<u8>) -> Seq<u8> {
    if within(path, root) && root.len() <= path.len() {
        relative_path(path.subrange(root.len() as int, path.len() as int))
    } else {
        path
    }
}

/// Where the final component of `path` ends: before the `/` bytes and the `.`
/// components that `path` ends with, which name no entry of their own.
pub open spec fn name_end(path: Seq<u8>) -> int
    decreases path.len(),
{
    if path.len() == 0 {
        0
    } else if path.last() == SLASH {
        name_end(path.drop_last())
    } else if path.last() == DOT && (path.len() == 1 || path[path.len() - 2] == SLASH) {
        name_end(path.drop_last())
    } else {
        path.len() as int
    }
}

/// Where the component of `path` that ends at `end` begins.
pub open spec fn component_start(path: Seq<u8>, end: int) -> int
    decreases end,
{
    if end <= 0 || end > path.len() {
        0
    } else if path[end - 1] == SLASH {
        end
    } else {
        component_start(path, end - 1)
    }
}

/// The final component of `path`: the last one that names an entry.
pub open spec fn final_component(path: Seq<u8>) -> Seq<u8> {
    path.subrange(component_start(path, name_end(path)), name_end(path))
}

/// Whether the final component of `path` names a hidden entry: it begins with
/// a dot and is not `..`, which names the parent.
pub open spec fn final_component_hidden(path: Seq<u8>) -> bool {
    let name = final_component(path);
    name.len() > 0 && name[0] == DOT && name != seq![DOT, DOT]
}

/// Whether `path` is excluded by its name alone: it holds a reserved name
/// somewhere, or its final component is hidden.
pub open spec fn name_forbidden(path: Seq<u8>) -> bool {
    contains(path, lit("forbidden")) || contains(path, lit("restricted_area.txt")) || contains(
        path,
        lit("scripts/../"),
    ) || final_component_hidden(path)
}

/// The depth reached after the component `seg`: `..` goes up, an empty component
/// and `.` stay, any other goes down.
pub open spec fn step_depth(seg: Seq<u8>, depth: int) -> int {
    if seg == seq![DOT, DOT] {
        depth - 1
    } else if seg.len() == 0 || seg == seq![DOT] {
        depth
    } else {
        depth + 1
    }
}

/// Whether following the components of `rel` from index `start` on, at `depth`
/// components below a directory, ever leads above that directory.
pub open spec fn climbs_from(rel: Seq<u8>, start: int, depth: int) -> bool
    decreases rel.len() - start,
{
    if start < 0 || start >= rel.len() {
        false
    } else {
        let e = find_from(rel, SLASH, start);
        proof {
            lemma_find_from(rel, SLASH, start);
        }
        let d = step_depth(rel.subrange(start, e), depth);
        d < 0 || (e < rel.len() && climbs_from(rel, e + 1, d))
    }
}

/// Whether the relative path `rel`, read component by component, leads above
/// the directory that it starts in.
pub open spec fn climbs_out(rel: Seq<u8>) -> bool {
    climbs_from(rel, 0, 0)
}

/// Whether `path`, taken as it is written, leaves `root`: it does not lie
/// within `root`, or what follows `root` in it, read component by component,
/// climbs above `root`.
pub open spec fn leaves(path: Seq<u8>, root: Seq<u8>) -> bool {
    !within(path, root) || climbs_out(relative_to(path, root))
}

/// Whether the file at `file_path` must not be served. `canonical` is the
/// absolute, symlink-free form of `file_path`, where it has one. A path is
/// forbidden where it is excluded by its name, or where it leads out of
/// `root`: by its canonical form, or, where it has none, as it is written.
pub open spec fn forbidden(file_path: Seq<u8>, canonical: Option<Seq<u8>>, root: Seq<u8>) -> bool {
    name_forbidden(file_path) || match canonical {
        Some(c) => !within(c, root),
        None => leaves(file_path, root),
    }
}

/// How the request for `rel` below `root` is to be treated, given the canonical
/// form of the joined path, where it has one, and what the file system holds
/// there. What the guard forbids is `Forbidden`, whether or not it exists; of
/// the rest, a directory and a regular file are what they are, and anything
/// else is `Missing`.
pub open spec fn resolution(
    rel: Seq<u8>,
    root: Seq<u8>,
    canonical: Option<Seq<u8>>,
    kind: Kind,
) -> Resolution {
    if forbidden(join(root, rel), canonical, root) {
        Resolution::Forbidden
    } else {
        match canonical {
            Some(_) => match kind {
                Kind::Directory => Resolution::Directory,
                Kind::File => Resolution::File,
                Kind::Other => Resolution::Missing,
            },
            None => Resolution::Missing,
        }
    }
}

/// The path that a resolution names: the canonical form, or the joined path
/// where there is none.
pub open spec fn resolved_location(rel: Seq<u8>, root: Seq<u8>, canonical: Option<Seq<u8>>) -> Seq<
    u8,
> {
    match canonical {
        Some(c) => c,
        None => join(root, rel),
    }
}

/// Whether `path` lies in the `scripts` directory of `root`.
pub open spec fn under_scripts(path: Seq<u8>, root: Seq<u8>) -> bool {
    within(path, join(root, lit("scripts")))
}

/// The final component ends within the path.
pub proof fn lemma_name_end(path: Seq<u8>)
    ensures
        0 <= name_end(path) <= path.len(),
    decreases path.len(),
{
    if path.len() > 0 {
        lemma_name_end(path.drop_last());
    }
}

/// Where a component begins depends only on what stands before its end.
pub proof fn lemma_component_start_prefix(path: Seq<u8>, longer: Seq<u8>, end: int)
    requires
        0 <= end <= path.len() <= longer.len(),
        longer.subrange(0, path.len() as int) == path,
    ensures
        component_start(longer, end) == component_start(path, end),
        0 <= component_start(path, end) <= end,
    decreases end,
{
    if end > 0 {
        assert(longer[end - 1] == longer.subrange(0, path.len() as int)[end - 1]);
        if path[end - 1] != SLASH {
            lemma_component_start_prefix(path, longer, end - 1);
        }
    }
}

/// A path joined onto `root` lies within `root`, and seen from `root` it is
/// the path that was joined on, provided that this does not begin with `/`.
pub proof fn lemma_join_relative(root: Seq<u8>, rel: Seq<u8>)
    requires
        rel.len() == 0 || rel[0] != SLASH,
    ensures
        within(join(root, rel), root),
        relative_to(join(root, rel), root) == rel,
{
    let joined = join(root, rel);
    let rest = joined.subrange(root.len() as int, joined.len() as int);
    assert(joined.subrange(0, root.len() as int) =~= root);
    assert(leading_slashes(rel) == 0);
    if rel.len() > 0 && root.len() > 0 && root.last() != SLASH {
        assert(rest.drop_first() =~= rel);
        assert(leading_slashes(rest) == 1);
        assert(rest.subrange(1, rest.len() as int) =~= rel);
    } else {
        assert(rest =~= rel);
        assert(rel.subrange(0, rel.len() as int) =~= rel);
    }
}

/// Joins a relative path onto a root folder.
pub fn join_path(root: &[u8], rel: &[u8]) -> (r: Vec<u8>)
    ensures
        r@ == join(root@, rel@),
{
    if rel.len() == 0 {
        return to_vec(root);
    }
    if root.len() == 0 {
        return to_vec(rel);
    }
    let mut r = to_vec(root);
    if root[root.len() - 1] != SLASH {
        r.push(SLASH);
    }
    append(&mut r, rel);
    r
}

/// Whether `path` is `root` or lies below it.
pub fn is_within(path: &[u8], root: &[u8]) -> (r: bool)
    ensures
        r == within(path@, root@),
{
    if root.len() == 0 {
        return true;
    }
    if !has_prefix(path, root) {
        return false;
    }
    path.len() == root.len() || root[root.len() - 1] == SLASH || path[root.len()] == SLASH
}

/// `path` as seen from `root`.
pub fn relative_to_root(path: &[u8], root: &[u8]) -> (r: Vec<u8>)
    ensures
        r@ == relative_to(path@, root@),
{
    if is_within(path, root) && root.len() <= path.len() {
        let rest = copy_range(path, root.len(), path.len());
        strip_leading_slashes(rest.as_slice())
    } else {
        to_vec(path)
    }
}

/// Where the final component of `path` begins and ends.
pub fn find_final_component(path: &[u8]) -> (r: (usize, usize))
    ensures
        r.1 == name_end(path@),
        r.0 == component_start(path@, name_end(path@)),
        r.0 <= r.1 <= path@.len(),
{
    let mut end: usize = path.len();
    assert(path@.subrange(0, end as int) =~= path@);
    while end > 0 && (path[end - 1] == SLASH || (path[end - 1] == DOT && (end == 1 || path[end
        - 2] == SLASH)))
        invariant
            0 <= end <= path@.len(),
            name_end(path@) == name_end(path@.subrange(0, end as int)),
        decreases end,
    {
        assert(path@.subrange(0, end as int).drop_last() =~= path@.subrange(0, end - 1));
        end -= 1;
    }
    let mut start: usize = end;
    while start > 0 && path[start - 1] != SLASH
        invariant
            0 <= start <= end <= path@.len(),
            component_start(path@, end as int) == component_start(path@, start as int),
        decreases start,
    {
        start -= 1;
    }
    (start, end)
}

/// Whether the final component of `path` names a hidden entry.
pub fn is_hidden(path: &[u8]) -> (r: bool)
    ensures
        r == final_component_hidden(path@),
{
    let (start, end) = find_final_component(path);
    let ghost name = final_component(path@);
    if start < end && path[start] == DOT {
        if end - start == 2 && path[start + 1] == DOT {
            assert(name =~= seq![DOT, DOT]);
            false
        } else {
            assert(name != seq![DOT, DOT]) by {
                if name == seq![DOT, DOT] {
                    assert(name.len() == 2);
                    assert(name[1] == DOT);
                }
            }
            true
        }
    } else {
        false
    }
}

/// Whether `path` is excluded by its name alone.
pub fn has_forbidden_name(path: &[u8]) -> (r: bool)
    ensures
        r == name_forbidden(path@),
{
    has_infix(path, literal("forbidden").as_slice()) || has_infix(
        path,
        literal("restricted_area.txt").as_slice(),
    ) || has_infix(path, literal("scripts/../").as_slice()) || is_hidden(path)
}

/// Whether `path`, taken as it is written, leaves `root`.
pub fn leaves_root(path: &[u8], root: &[u8]) -> (r: bool)
    ensures
        r == leaves(path@, root@),
{
    if !is_within(path, root) {
        return true;
    }
    let rel = relative_to_root(path, root);
    climbs_above(rel.as_slice())
}

/// Whether the file at `file_path` must not be served, given its canonical
/// form, where it has one, and the root folder.
pub fn is_forbidden_file(file_path: &[u8], canonical: Option<&[u8]>, root_folder: &[u8]) -> (r:
    bool)
    ensures
        r == forbidden(file_path@, slice_view(canonical), root_folder@),
{
    if has_forbidden_name(file_path) {
        return true;
    }
    match canonical {
        Some(c) => !is_within(c, root_folder),
        None => leaves_root(file_path, root_folder),
    }
}

/// Whether a relative path leads above the directory that it starts in.
pub fn climbs_above(rel: &[u8]) -> (r: bool)
    ensures
        r == climbs_out(rel@),
{
    let mut start: usize = 0;
    let mut depth: usize = 0;
    while start < rel.len()
        invariant
            0 <= start <= rel@.len(),
            depth <= start,
            climbs_out(rel@) == climbs_from(rel@, start as int, depth as int),
        decreases rel@.len() - start,
    {
        let e: usize = find_byte(rel, SLASH, start);
        let ghost seg = rel@.subrange(start as int, e as int);
        let up: bool = e - start == 2 && rel[start] == DOT && rel[start + 1] == DOT;
        let stay: bool = e == start || (e - start == 1 && rel[start] == DOT);
        proof {
            if up {
                assert(seg =~= seq![DOT, DOT]);
            } else if seg == seq![DOT, DOT] {
                assert(seg.len() == 2 && seg[0] == DOT && seg[1] == DOT);
            }
            if e - start == 1 && rel[start as int] == DOT {
                assert(seg =~= seq![DOT]);
            } else if seg == seq![DOT] {
                assert(seg.len() == 1 && seg[0] == DOT);
            }
        }
        if up {
            if depth == 0 {
                return true;
            }
            depth -= 1;
        } else if !stay {
            depth += 1;
        }
        if e == rel.len() {
            return false;
        }
        start = e + 1;
    }
    false
}

/// Classifies the request for `rel` below `root`. `canonical` is the absolute,
/// symlink-free form of the joined path, where the file system gives one, and
/// `kind` says what it holds there.
pub fn resolve(rel: &[u8], root: &[u8], canonical: Option<&[u8]>, kind: Kind) -> (r: ResolvedPath)
    ensures
        r.tag == resolution(rel@, root@, slice_view(canonical), kind),
        r.path@ == resolved_location(rel@, root@, slice_view(canonical)),
        r.tag == Resolution::File || r.tag == Resolution::Directory ==> within(r.path@, root@),
{
    let joined = join_path(root, rel);
    let refused = is_forbidden_file(joined.as_slice(), canonical, root);
    match canonical {
        Some(c) => {
            let tag = if refused {
                Resolution::Forbidden
            } else {
                match kind {
                    Kind::Directory => Resolution::Directory,
                    Kind::File => Resolution::File,
                    Kind::Other => Resolution::Missing,
                }
            };
            ResolvedPath { path: to_vec(c), tag }
        },
        None => {
            let tag = if refused {
                Resolution::Forbidden
            } else {
                Resolution::Missing
            };
            ResolvedPath { path: joined, tag }
        },
    }
}

/// Whether `path` lies in the `scripts` directory of `root`.
pub fn is_under_scripts(path: &[u8], root: &[u8]) -> (r: bool)
    ensures
        r == under_scripts(path@, root@),
{
    let dir = join_path(root, literal("scripts").as_slice());
    is_within(path, dir.as_slice())
}

} // verus!
