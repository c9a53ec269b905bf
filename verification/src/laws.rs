//! What holds of the server's decisions, whatever the request.

use vstd::prelude::*;
use crate::bytes::{
    lit, contains, is_space, trim, lemma_contains_inside, lemma_contains_self, lemma_scan_space,
    lemma_trimmed_end, CR, LF, DOT, SLASH,
};
use crate::decimal::{digits_of, parse_number, lemma_digits_of};
use crate::guard::{
    Kind, Resolution, within, name_forbidden, forbidden, join, climbs_out, under_scripts,
    resolution, relative_to, name_end, final_component, final_component_hidden, lemma_join_relative,
    lemma_name_end, lemma_component_start_prefix,
};
use crate::listing::{
    child_anchor, child_anchors, directory_page, listing, parent_anchor,
};
use crate::order::{ordered, sorted_by_name, lemma_sorted_by_name, lemma_sorted_holds_all};
use crate::mime::mime_type;
use crate::query::{
    environment, environment_writes, form_pairs, combined, lemma_pairs_joined,
};
use crate::request::{
    RequestModel, parse, line_at, token, token_start, token_end, relative_path, target_path,
    lemma_leading_slashes,
};
use crate::response::{
    Response, Status, bare, connection_close, content_type, content_length, well_formed,
    wire, status_line, header_lines, lemma_bare_well_formed, lemma_content_well_formed,
};
use crate::router::{
    Plan, decision, method_allowed, requested_relative, listing_outcome, file_outcome,
};
use crate::script::{script_outcome, describes_body, lemma_script_outcome_well_formed};
use crate::table::lemma_pairs_map_last;

verus! {

/// A request with a method other than `GET` and `POST` is answered with 405
/// and no body, whatever its target and whatever the file system holds there.
pub proof fn law_other_method_is_not_allowed(
    q: RequestModel,
    body: Option<Seq<u8>>,
    root: Seq<u8>,
    canonical: Option<Seq<u8>>,
    kind: Kind,
)
    requires
        !method_allowed(q.method),
    ensures
        decision(q, body, root, canonical, kind) == Plan::Respond(bare(Status::MethodNotAllowed)),
        bare(Status::MethodNotAllowed).body.len() == 0,
{
}

/// A `GET` or `POST` whose path resolves to a place outside the root folder is
/// answered with 403, whatever the file system holds there.
pub proof fn law_escape_is_forbidden(
    q: RequestModel,
    body: Option<Seq<u8>>,
    root: Seq<u8>,
    canonical: Seq<u8>,
    kind: Kind,
)
    requires
        method_allowed(q.method),
        !within(canonical, root),
    ensures
        decision(q, body, root, Some(canonical), kind) == Plan::Respond(bare(Status::Forbidden)),
{
}

/// A `GET` or `POST` for a path that resolves to nothing and that leads above
/// the root folder when read component by component is answered with 403 as
/// well.
pub proof fn law_climb_is_forbidden(
    q: RequestModel,
    body: Option<Seq<u8>>,
    root: Seq<u8>,
    kind: Kind,
)
    requires
        method_allowed(q.method),
        climbs_out(requested_relative(q.target)),
    ensures
        decision(q, body, root, None, kind) == Plan::Respond(bare(Status::Forbidden)),
{
    lemma_leading_slashes(target_path(q.target));
    lemma_join_relative(root, requested_relative(q.target));
}

/// A `GET` or `POST` for a path that resolves to nothing, that is not excluded
/// by its name and that stays below the root folder is answered with 404: what
/// is missing is not forbidden.
pub proof fn law_missing_is_not_found(
    q: RequestModel,
    body: Option<Seq<u8>>,
    root: Seq<u8>,
    kind: Kind,
)
    requires
        method_allowed(q.method),
        !name_forbidden(join(root, requested_relative(q.target))),
        !climbs_out(requested_relative(q.target)),
    ensures
        !forbidden(join(root, requested_relative(q.target)), None, root),
        decision(q, body, root, None, kind) == Plan::Respond(bare(Status::NotFound)),
{
    lemma_leading_slashes(target_path(q.target));
    lemma_join_relative(root, requested_relative(q.target));
}

/// Whatever the server reads, lists or runs lies within the root folder, and
/// is not excluded by the name that was asked for.
pub proof fn law_served_path_is_within_root(
    q: RequestModel,
    body: Option<Seq<u8>>,
    root: Seq<u8>,
    canonical: Option<Seq<u8>>,
    kind: Kind,
)
    ensures
        match decision(q, body, root, canonical, kind) {
            Plan::Respond(_) => true,
            Plan::ListDirectory(p) => within(p, root) && canonical == Some(p),
            Plan::ReadFile(p) => within(p, root) && canonical == Some(p),
            Plan::RunScript { script, writes, stdin } => within(script, root) && canonical == Some(
                script,
            ),
        },
        !(decision(q, body, root, canonical, kind) is Respond) ==> !name_forbidden(
            join(root, requested_relative(q.target)),
        ),
{
}

/// The classification of a path is `Forbidden` exactly where the guard
/// forbids the file, whether or not the file system resolves the path.
pub proof fn law_guard_decides(
    rel: Seq<u8>,
    root: Seq<u8>,
    canonical: Option<Seq<u8>>,
    kind: Kind,
)
    ensures
        (resolution(rel, root, canonical, kind) == Resolution::Forbidden) == forbidden(
            join(root, rel),
            canonical,
            root,
        ),
{
}

/// A `GET` or `POST` for a regular file within the root folder, outside the
/// `scripts` directory and not excluded by its name, has the file read; once
/// read, the response is 200, its body is the file's contents byte for byte,
/// its `Content-Length` is the number of those bytes, and its `Content-Type`
/// goes by the path `named`, whichever path the file is named by.
pub proof fn law_file_is_served_whole(
    q: RequestModel,
    body: Option<Seq<u8>>,
    root: Seq<u8>,
    canonical: Seq<u8>,
    named: Seq<u8>,
    contents: Seq<u8>,
    version: Seq<u8>,
)
    requires
        method_allowed(q.method),
        within(canonical, root),
        !under_scripts(canonical, root),
        !name_forbidden(join(root, requested_relative(q.target))),
    ensures
        decision(q, body, root, Some(canonical), Kind::File) == Plan::ReadFile(canonical),
        file_outcome(named, Some(contents)).status == Status::Success,
        file_outcome(named, Some(contents)).body == contents,
        file_outcome(named, Some(contents)).headers == seq![
            content_type(mime_type(named)),
            content_length(contents.len()),
            connection_close(),
        ],
        wire(version, file_outcome(named, Some(contents))) == status_line(
            version,
            Status::Success,
        ) + header_lines(file_outcome(named, Some(contents)).headers) + seq![CR, LF] + contents,
{
}

/// A `GET` or `POST` for a directory within the root folder that is not
/// excluded by its name has the directory read; once read, the response is 200
/// with an HTML body: the index page, on which the children stand in the order
/// of their names, each as often as it came.
pub proof fn law_directory_is_listed(
    q: RequestModel,
    body: Option<Seq<u8>>,
    root: Seq<u8>,
    canonical: Seq<u8>,
    kids: Seq<(Seq<u8>, bool)>,
)
    requires
        method_allowed(q.method),
        within(canonical, root),
        !name_forbidden(join(root, requested_relative(q.target))),
    ensures
        decision(q, body, root, Some(canonical), Kind::Directory) == Plan::ListDirectory(
            canonical,
        ),
        listing_outcome(canonical, root, Some(kids)).status == Status::Success,
        listing_outcome(canonical, root, Some(kids)).headers[0] == content_type(
            lit("text/html; charset=utf-8"),
        ),
        listing_outcome(canonical, root, Some(kids)).body == listing(
            relative_to(canonical, root),
            sorted_by_name(kids),
        ),
        sorted_by_name(kids).len() == kids.len(),
        sorted_by_name(kids).to_multiset() == kids.to_multiset(),
        ordered(sorted_by_name(kids)),
{
    lemma_sorted_by_name(kids);
}

/// The index page of a directory holds the list item of every child.
pub proof fn law_every_child_is_listed(dir: Seq<u8>, kids: Seq<(Seq<u8>, bool)>, i: int)
    requires
        0 <= i < kids.len(),
    ensures
        contains(directory_page(dir, kids), child_anchor(dir, kids[i])),
{
    let sorted = sorted_by_name(kids);
    lemma_sorted_holds_all(kids, i);
    let j = choose|j: int| 0 <= j < sorted.len() && sorted[j] == kids[i];
    lemma_child_anchor_listed(dir, sorted, j);
    lemma_contains_inside(
        lit("<html><body><h1>Directory listing</h1><ul>") + parent_anchor(dir),
        child_anchors(dir, sorted),
        lit("</ul></body></html>"),
        child_anchor(dir, kids[i]),
    );
}

/// The list items of all children hold the list item of each.
pub proof fn lemma_child_anchor_listed(dir: Seq<u8>, kids: Seq<(Seq<u8>, bool)>, i: int)
    requires
        0 <= i < kids.len(),
    ensures
        contains(child_anchors(dir, kids), child_anchor(dir, kids[i])),
    decreases kids.len(),
{
    let before = child_anchors(dir, kids.drop_last());
    let last = child_anchor(dir, kids.last());
    let none = Seq::<u8>::empty();
    if i == kids.len() - 1 {
        lemma_contains_self(last);
        lemma_contains_inside(before, last, none, last);
    } else {
        lemma_child_anchor_listed(dir, kids.drop_last(), i);
        lemma_contains_inside(none, before, last, child_anchor(dir, kids[i]));
    }
}

/// A `GET` or `POST` for a regular file in the `scripts` directory has that
/// file run. Once it has run, exit code 0 gives 200, and any other exit code
/// gives 500 with what the script wrote to its standard error as the body.
pub proof fn law_script_is_run(
    q: RequestModel,
    body: Option<Seq<u8>>,
    root: Seq<u8>,
    canonical: Seq<u8>,
    stdout: Seq<u8>,
    stderr: Seq<u8>,
)
    requires
        method_allowed(q.method),
        within(canonical, root),
        under_scripts(canonical, root),
        !name_forbidden(join(root, requested_relative(q.target))),
    ensures
        decision(q, body, root, Some(canonical), Kind::File) matches Plan::RunScript {
            script,
            writes,
            stdin,
        } && script == canonical && stdin == body,
        script_outcome(true, stdout, stderr).status == Status::Success,
        script_outcome(false, stdout, stderr).status == Status::InternalServerError,
        script_outcome(false, stdout, stderr).body == stderr,
{
}

/// Serving a file twice, with the file unchanged in between, sends the same
/// bytes twice: whatever two responses are made from one path and one content,
/// they are the same on the wire.
pub proof fn law_same_file_same_bytes(
    first: Response,
    second: Response,
    path: Seq<u8>,
    contents: Option<Seq<u8>>,
    version: Seq<u8>,
)
    requires
        first@ == file_outcome(path, contents),
        second@ == file_outcome(path, contents),
    ensures
        wire(version, first@) == wire(version, second@),
{
}

/// Every parameter of the query string and of the body reaches the script: the
/// environment holds, under `Query_` and the parameter's key, the value of the
/// last parameter with that key.
pub proof fn law_parameters_reach_script(
    headers: Seq<(Seq<u8>, Seq<u8>)>,
    method: Seq<u8>,
    path: Seq<u8>,
    query: Option<Seq<u8>>,
    body: Option<Seq<u8>>,
    i: int,
)
    requires
        0 <= i < form_pairs(combined(query, body)).len(),
        forall|j: int|
            i < j < form_pairs(combined(query, body)).len() ==> (#[trigger] form_pairs(
                combined(query, body),
            )[j]).0 != form_pairs(combined(query, body))[i].0,
    ensures
        environment(headers, method, path, query, body).contains_key(
            lit("Query_") + form_pairs(combined(query, body))[i].0,
        ),
        environment(headers, method, path, query, body)[lit("Query_") + form_pairs(
            combined(query, body),
        )[i].0] == form_pairs(combined(query, body))[i].1,
{
    let ps = form_pairs(combined(query, body));
    let writes = environment_writes(headers, method, path, query, body);
    let off = headers.len() + 2;
    let key = lit("Query_") + ps[i].0;
    assert forall|j: int| off + i < j < writes.len() implies (#[trigger] writes[j]).0 != key by {
        let a = lit("Query_") + ps[j - off].0;
        if a == key {
            assert(a.subrange(lit("Query_").len() as int, a.len() as int) =~= ps[j - off].0);
            assert(key.subrange(lit("Query_").len() as int, key.len() as int) =~= ps[i].0);
        }
    }
    lemma_pairs_map_last(writes, key, off + i);
}

/// Every response that the server makes of its own is fit to be sent: it
/// carries `Connection: close`, and where it has a body it announces the
/// body's length, exactly, or names its type. The response made from what a
/// script printed carries the script's headers and no other, so it is fit to
/// be sent where the script named the type of its body or printed none.
pub proof fn law_responses_are_well_formed(
    q: RequestModel,
    body: Option<Seq<u8>>,
    root: Seq<u8>,
    canonical: Option<Seq<u8>>,
    kind: Kind,
    path: Seq<u8>,
    kids: Option<Seq<(Seq<u8>, bool)>>,
    contents: Option<Seq<u8>>,
    success: bool,
    stdout: Seq<u8>,
    stderr: Seq<u8>,
)
    ensures
        decision(q, body, root, canonical, kind) matches Plan::Respond(r) ==> well_formed(r),
        well_formed(listing_outcome(path, root, kids)),
        well_formed(file_outcome(path, contents)),
        (success ==> describes_body(stdout)) ==> well_formed(
            script_outcome(success, stdout, stderr),
        ),
{
    lemma_bare_well_formed(Status::Forbidden);
    lemma_bare_well_formed(Status::MethodNotAllowed);
    lemma_bare_well_formed(Status::NotFound);
    lemma_bare_well_formed(Status::InternalServerError);
    match kids {
        Some(k) => lemma_content_well_formed(
            lit("text/html; charset=utf-8"),
            directory_page(relative_to(path, root), k),
        ),
        None => {},
    }
    match contents {
        Some(c) => lemma_content_well_formed(mime_type(path), c),
        None => {},
    }
    if success ==> describes_body(stdout) {
        lemma_script_outcome_well_formed(success, stdout, stderr);
    }
}

/// The length that a response announces reads back as that length.
pub proof fn law_length_reads_back(n: usize)
    ensures
        parse_number(digits_of(n as nat)) == Some(n),
{
    lemma_digits_of(n as nat);
}

/// What is left of a requested path once its leading `/` bytes are stripped
/// does not begin with `/`, so joining it onto the root folder never replaces
/// the root folder.
pub proof fn law_relative_path_is_relative(path: Seq<u8>)
    ensures
        relative_path(path).len() == 0 || relative_path(path)[0] != SLASH,
{
    lemma_leading_slashes(path);
}

/// A trimmed string neither begins nor ends with whitespace.
pub proof fn law_trim_is_tight(s: Seq<u8>)
    ensures
        trim(s).len() > 0 ==> !is_space(trim(s)[0]) && !is_space(trim(s).last()),
{
    lemma_scan_space(s, false, 0);
    lemma_trimmed_end(s);
}

/// The tokens of a parsed request line are not empty and hold no whitespace.
pub proof fn law_tokens_are_tight(buf: Seq<u8>)
    requires
        parse(buf) is Some,
    ensures
        ({
            let q = parse(buf)->Some_0;
            &&& q.method.len() > 0
            &&& q.target.len() > 0
            &&& q.version.len() > 0
            &&& forall|i: int| 0 <= i < q.method.len() ==> !is_space(#[trigger] q.method[i])
            &&& forall|i: int| 0 <= i < q.target.len() ==> !is_space(#[trigger] q.target[i])
            &&& forall|i: int| 0 <= i < q.version.len() ==> !is_space(#[trigger] q.version[i])
        }),
{
    let line = line_at(buf, 0);
    let a = token_end(line, 0);
    lemma_token(line, 0);
    lemma_token(line, a);
    let b = token_end(line, a);
    lemma_token(line, b);
}

/// A token starts at or after where it is looked for and ends within the
/// line; it holds no whitespace; and it is empty only where the line holds
/// nothing but whitespace from there on.
pub proof fn lemma_token(line: Seq<u8>, from: int)
    requires
        0 <= from <= line.len(),
    ensures
        from <= token_start(line, from) <= token_end(line, from) <= line.len(),
        forall|i: int| 0 <= i < token(line, from).len() ==> !is_space(#[trigger] token(line, from)[i]),
        token(line, from).len() == 0 <==> token_start(line, from) >= line.len(),
        token_start(line, token_end(line, from)) < line.len() ==> token_start(line, from)
            < line.len(),
{
    lemma_scan_space(line, false, from);
    let a = token_start(line, from);
    lemma_scan_space(line, true, a);
    let b = token_end(line, from);
    lemma_scan_space(line, false, b);
}

/// A path with a component named `forbidden` is excluded, wherever the
/// component stands.
pub proof fn law_forbidden_component(before: Seq<u8>, after: Seq<u8>)
    ensures
        name_forbidden(before + lit("forbidden") + after),
{
    lemma_contains_self(lit("forbidden"));
    lemma_contains_inside(before, lit("forbidden"), after, lit("forbidden"));
}

/// What a string holds, or nothing where there is no string.
pub open spec fn or_empty(s: Option<Seq<u8>>) -> Seq<u8> {
    match s {
        Some(s) => s,
        None => Seq::empty(),
    }
}

/// The parameters that reach a script are those of the query string and then
/// those of the body, so that of two parameters with one key the body's is
/// the one that counts.
pub proof fn law_body_follows_query(query: Option<Seq<u8>>, body: Option<Seq<u8>>)
    ensures
        form_pairs(combined(query, body)) == form_pairs(or_empty(query)) + form_pairs(
            or_empty(body),
        ),
{
    let q = or_empty(query);
    if body is Some && q.len() > 0 {
        lemma_pairs_joined(q, or_empty(body), 0);
    }
}

/// A `.` behind a path names the same entry as the path: its final component
/// is the path's, and it is hidden where the path's is.
pub proof fn law_trailing_dot_is_looked_through(path: Seq<u8>)
    ensures
        final_component(path + seq![SLASH, DOT]) == final_component(path),
        final_component_hidden(path + seq![SLASH, DOT]) == final_component_hidden(path),
{
    let longer = path + seq![SLASH, DOT];
    let middle = path + seq![SLASH];
    assert(longer.drop_last() =~= middle);
    assert(middle.drop_last() =~= path);
    assert(longer.last() == DOT && longer[longer.len() - 2] == SLASH);
    assert(name_end(longer) == name_end(middle));
    assert(middle.last() == SLASH);
    assert(name_end(middle) == name_end(path));
    lemma_name_end(path);
    assert(longer.subrange(0, path.len() as int) =~= path);
    lemma_component_start_prefix(path, longer, name_end(path));
    assert(final_component(longer) =~= final_component(path));
}

} // verus!
