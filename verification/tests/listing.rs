use rustywebserver::listing::{generate_directory_listing, push_anchor, write_listing, DirEntry};

fn file(name: &str) -> DirEntry {
    DirEntry { name: name.as_bytes().to_vec(), is_dir: false }
}

fn dir(name: &str) -> DirEntry {
    DirEntry { name: name.as_bytes().to_vec(), is_dir: true }
}

#[test]
fn listing_of_a_subdirectory_links_relative_to_root() {
    let html = generate_directory_listing(b"/srv/docs", b"/srv", &vec![file("a.txt"), dir("sub")]);
    assert_eq!(
        html,
        b"<html><body><h1>Directory listing</h1><ul>\
<li><a href=\"docs/..\">..</a></li>\
<li><a href=\"docs/a.txt\">a.txt</a></li>\
<li><a href=\"docs/sub/\">sub/</a></li>\
</ul></body></html>"
            .to_vec()
    );
}

#[test]
fn listing_of_the_root_has_no_parent_entry() {
    let html = generate_directory_listing(b"/srv", b"/srv", &vec![dir("docs"), file("index.html")]);
    assert_eq!(
        html,
        b"<html><body><h1>Directory listing</h1><ul>\
<li><a href=\"docs/\">docs/</a></li>\
<li><a href=\"index.html\">index.html</a></li>\
</ul></body></html>"
            .to_vec()
    );
}

#[test]
fn listing_of_an_empty_directory_has_only_the_parent_entry() {
    let html = generate_directory_listing(b"/srv/a/b", b"/srv", &Vec::new());
    assert_eq!(
        html,
        b"<html><body><h1>Directory listing</h1><ul>\
<li><a href=\"a/b/..\">..</a></li>\
</ul></body></html>"
            .to_vec()
    );
    let html = generate_directory_listing(b"/srv", b"/srv", &Vec::new());
    assert_eq!(html, b"<html><body><h1>Directory listing</h1><ul></ul></body></html>".to_vec());
}

#[test]
fn listing_is_ordered_by_name() {
    let html = generate_directory_listing(
        b"/srv",
        b"/srv",
        &vec![file("b"), dir("c"), file("a"), file("B"), file("ab")],
    );
    assert_eq!(
        html,
        b"<html><body><h1>Directory listing</h1><ul>\
<li><a href=\"B\">B</a></li>\
<li><a href=\"a\">a</a></li>\
<li><a href=\"ab\">ab</a></li>\
<li><a href=\"b\">b</a></li>\
<li><a href=\"c/\">c/</a></li>\
</ul></body></html>"
            .to_vec()
    );
}

#[test]
fn listing_does_not_depend_on_the_order_of_enumeration() {
    let one = generate_directory_listing(b"/srv/d", b"/srv", &vec![file("b"), file("a"), dir("c")]);
    let two = generate_directory_listing(b"/srv/d", b"/srv", &vec![dir("c"), file("b"), file("a")]);
    assert_eq!(one, two);
}

#[test]
fn written_listing_keeps_the_order_given() {
    let html = write_listing(b"d", &vec![file("b"), file("a")]);
    assert_eq!(
        html,
        b"<html><body><h1>Directory listing</h1><ul>\
<li><a href=\"d/..\">..</a></li>\
<li><a href=\"d/b\">b</a></li>\
<li><a href=\"d/a\">a</a></li>\
</ul></body></html>"
            .to_vec()
    );
}

#[test]
fn listing_holds_one_anchor_per_child() {
    let entries = vec![file("x"), dir("y"), file("z.html")];
    let html = generate_directory_listing(b"/srv/d", b"/srv", &entries);
    let anchors = html.windows(9).filter(|w| *w == b"<a href=\"").count();
    assert_eq!(anchors, entries.len() + 1);
    for expected in [
        &b"<li><a href=\"d/x\">x</a></li>"[..],
        &b"<li><a href=\"d/y/\">y/</a></li>"[..],
        &b"<li><a href=\"d/z.html\">z.html</a></li>"[..],
    ] {
        assert!(html.windows(expected.len()).any(|w| w == expected));
    }
}

#[test]
fn anchor_is_appended_to_what_is_there() {
    let mut out = b"<ul>".to_vec();
    push_anchor(&mut out, b"a/b", b"b");
    assert_eq!(out, b"<ul><li><a href=\"a/b\">b</a></li>".to_vec());
}
