//! The index page of a directory.

use vstd::prelude::*;
use crate::bytes::{lit, literal, append, to_vec, SLASH};
use crate::guard::{join, relative_to, join_path, relative_to_root};
use crate::order::{sorted_by_name, sort_entries};

verus! {

/// One child of a directory.
#[derive(Debug, PartialEq, Eq)]
pub struct DirEntry {
    pub name: Vec<u8>,
    pub is_dir: bool,
}

/// The children as plain values: each a name, and whether it is a directory.
pub open spec fn children(entries: Seq<DirEntry>) -> Seq<(Seq<u8>, bool)> {
    Seq::new(entries.len(), |i: int| (entries[i].name@, entries[i].is_dir))
}

/// The text shown for a child: its name, with a `/` behind it where it is a
/// directory.
pub open spec fn label(child: (Seq<u8>, bool)) -> Seq<u8> {
    if child.1 {
        child.0 + seq![SLASH]
    } else {
        child.0
    }
}

/// One list item that links to `href` and shows `text`.
pub open spec fn anchor(href: Seq<u8>, text: Seq<u8>) -> Seq<u8> {
    lit("<li><a href=\"") + href + lit("\">") + text + lit("</a></li>")
}

/// The list item of a child of the directory at `dir`, a path relative to
/// the root folder: it links to the child's own path relative to the root
/// folder.
pub open spec fn child_anchor(dir: Seq<u8>, child: (Seq<u8>, bool)) -> Seq<u8> {
    anchor(join(dir, label(child)), label(child))
}

/// The list items of all children, in their order.
pub open spec fn child_anchors(dir: Seq<u8>, kids: Seq<(Seq<u8>, bool)>) -> Seq<u8>
    decreases kids.len(),
{
    if kids.len() == 0 {
        Seq::empty()
    } else {
        child_anchors(dir, kids.drop_last()) + child_anchor(dir, kids.last())
    }
}

/// The list item that leads to the parent directory. The root folder has none.
pub open spec fn parent_anchor(dir: Seq<u8>) -> Seq<u8> {
    if dir.len() == 0 {
        Seq::empty()
    } else {
        anchor(join(dir, lit("..")), lit(".."))
    }
}

/// The index page of the directory at `dir`, a path relative to the root
/// folder, with the children `kids`.
pub open spec fn listing(dir: Seq<u8>, kids: Seq<(Seq<u8>, bool)>) -> Seq<u8> {
    lit("<html><body><h1>Directory listing</h1><ul>") + parent_anchor(dir) + child_anchors(
        dir,
        kids,
    ) + lit("</ul></body></html>")
}

/// The index page of the directory at `dir` as it is served: its children
/// are listed in the order of their names.
pub open spec fn directory_page(dir: Seq<u8>, kids: Seq<(Seq<u8>, bool)>) -> Seq<u8> {
    listing(dir, sorted_by_name(kids))
}

/// Appends the list item that links to `href` and shows `text`.
pub fn push_anchor(out: &mut Vec<u8>, href: &[u8], text: &[u8])
    ensures
        final(out)@ == old(out)@ + anchor(href@, text@),
{
    append(out, literal("<li><a href=\"").as_slice());
    append(out, href);
    append(out, literal("\">").as_slice());
    append(out, text);
    append(out, literal("</a></li>").as_slice());
}

/// Writes the index page of the directory at `path` below `root_folder`, with
/// one list item per entry, in the order of the entries' names.
pub fn generate_directory_listing(path: &[u8], root_folder: &[u8], entries: &Vec<DirEntry>) -> (r:
    Vec<u8>)
    ensures
        r@ == directory_page(relative_to(path@, root_folder@), children(entries@)),
{
    let dir = relative_to_root(path, root_folder);
    let sorted = sort_entries(entries);
    write_listing(dir.as_slice(), &sorted)
}

/// Writes the index page of the directory at `dir`, a path relative to the
/// root folder, with one list item per entry, in the order of `entries`.
pub fn write_listing(dir: &[u8], entries: &Vec<DirEntry>) -> (r: Vec<u8>)
    ensures
        r@ == listing(dir@, children(entries@)),
{
    let ghost kids = children(entries@);
    let mut out = literal("<html><body><h1>Directory listing</h1><ul>");
    if dir.len() > 0 {
        let up = literal("..");
        let href = join_path(dir, up.as_slice());
        push_anchor(&mut out, href.as_slice(), up.as_slice());
    }
    let ghost head = out@;
    let mut i: usize = 0;
    while i < entries.len()
        invariant
            0 <= i <= entries@.len(),
            kids == children(entries@),
            out@ == head + child_anchors(dir@, kids.subrange(0, i as int)),
        decreases entries@.len() - i,
    {
        let mut text = to_vec(entries[i].name.as_slice());
        if entries[i].is_dir {
            text.push(SLASH);
        }
        let href = join_path(dir, text.as_slice());
        push_anchor(&mut out, href.as_slice(), text.as_slice());
        assert(kids.subrange(0, i + 1).drop_last() =~= kids.subrange(0, i as int));
        i += 1;
    }
    assert(kids.subrange(0, i as int) =~= kids);
    append(&mut out, literal("</ul></body></html>").as_slice());
    out
}

} // verus!
