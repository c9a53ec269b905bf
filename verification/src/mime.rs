//! Content types by file extension.

use vstd::prelude::*;
use crate::bytes::{lit, literal, equal, copy_range, vec_view, DOT};
use crate::guard::{final_component, find_final_component};

verus! {

/// The index of the last `b` in `s`, or -1 where `s` holds none.
pub open spec fn last_index_of(s: Seq<u8>, b: u8) -> int
    decreases s.len(),
{
    if s.len() == 0 {
        -1
    } else if s.last() == b {
        s.len() - 1
    } else {
        last_index_of(s.drop_last(), b)
    }
}

/// The extension of `path`: what follows the last dot of its final component. A
/// name without a dot has none, and neither has one whose only dot is its
/// first byte.
pub open spec fn extension(path: Seq<u8>) -> Option<Seq<u8>> {
    let name = final_component(path);
    let d = last_index_of(name, DOT);
    if d <= 0 {
        None
    } else {
        Some(name.subrange(d + 1, name.len() as int))
    }
}

/// The content type for an extension. Extensions are compared byte for byte,
/// so `HTML` is not `html`.
pub open spec fn mime_of(ext: Option<Seq<u8>>) -> Seq<u8> {
    match ext {
        Some(e) => if e == lit("txt") {
            lit("text/plain; charset=utf-8")
        } else if e == lit("html") || e == lit("htm") {
            lit("text/html; charset=utf-8")
        } else if e == lit("css") {
            lit("text/css; charset=utf-8")
        } else if e == lit("js") {
            lit("text/javascript; charset=utf-8")
        } else if e == lit("json") {
            lit("application/json")
        } else if e == lit("jpg") || e == lit("jpeg") {
            lit("image/jpeg")
        } else if e == lit("png") {
            lit("image/png")
        } else if e == lit("gif") {
            lit("image/gif")
        } else if e == lit("zip") {
            lit("application/zip")
        } else {
            lit("application/octet-stream")
        },
        None => lit("application/octet-stream"),
    }
}

/// The content type of the file at `path`.
pub open spec fn mime_type(path: Seq<u8>) -> Seq<u8> {
    mime_of(extension(path))
}

/// The extension of the file at `path`, if it has one.
pub fn get_extension(path: &[u8]) -> (r: Option<Vec<u8>>)
    ensures
        extension(path@) == vec_view(r),
{
    let (start, end) = find_final_component(path);
    let ghost name = final_component(path@);
    let mut d: usize = end;
    assert(name.subrange(0, d - start) =~= name);
    while d > start && path[d - 1] != DOT
        invariant
            start <= d <= end <= path@.len(),
            name == path@.subrange(start as int, end as int),
            name == final_component(path@),
            last_index_of(name, DOT) == last_index_of(name.subrange(0, d - start), DOT),
        decreases d,
    {
        assert(name.subrange(0, d - start).drop_last() =~= name.subrange(0, d - 1 - start));
        d -= 1;
    }
    if d - start <= 1 {
        None
    } else {
        Some(copy_range(path, d, end))
    }
}

/// The content type for an extension.
pub fn mime_for_extension(ext: &[u8]) -> (r: Vec<u8>)
    ensures
        r@ == mime_of(Some(ext@)),
{
    if equal(ext, literal("txt").as_slice()) {
        literal("text/plain; charset=utf-8")
    } else if equal(ext, literal("html").as_slice()) || equal(ext, literal("htm").as_slice()) {
        literal("text/html; charset=utf-8")
    } else if equal(ext, literal("css").as_slice()) {
        literal("text/css; charset=utf-8")
    } else if equal(ext, literal("js").as_slice()) {
        literal("text/javascript; charset=utf-8")
    } else if equal(ext, literal("json").as_slice()) {
        literal("application/json")
    } else if equal(ext, literal("jpg").as_slice()) || equal(ext, literal("jpeg").as_slice()) {
        literal("image/jpeg")
    } else if equal(ext, literal("png").as_slice()) {
        literal("image/png")
    } else if equal(ext, literal("gif").as_slice()) {
        literal("image/gif")
    } else if equal(ext, literal("zip").as_slice()) {
        literal("application/zip")
    } else {
        literal("application/octet-stream")
    }
}

/// The content type of the file at `path`, by its extension.
pub fn get_mime_type(path: &[u8]) -> (r: Vec<u8>)
    ensures
        r@ == mime_type(path@),
{
    match get_extension(path) {
        Some(e) => mime_for_extension(e.as_slice()),
        None => literal("application/octet-stream"),
    }
}

} // verus!
