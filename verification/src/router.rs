//! The decisions of request handling.
//!
//! Handling a request alternates between finding things out (the canonical
//! form of a path, the entries of a directory, what a script printed, the
//! contents of a file) and deciding what to do with them. The decisions are
//! here; whoever drives a connection finds things out and hands them in.

use vstd::prelude::*;
use crate::bytes::{lit, literal, append, to_vec, slice_view, vec_view, SPACE};
use crate::decimal::{digits_of, format_usize};
use crate::guard::{
    Kind, Resolution, join, resolution, resolved_location, under_scripts, join_path, resolve,
    is_under_scripts, relative_to,
};
use crate::listing::{
    DirEntry, children, directory_page, generate_directory_listing,
};
use crate::mime::{mime_type, get_mime_type};
use crate::query::{environment_writes, build_environment};
use crate::request::{
    Request, RequestModel, target_path, target_query, relative_path, split_target,
    strip_leading_slashes,
};
use crate::response::{Response, ResponseModel, Status, bare, content};
use crate::script::{ScriptInvocation, ScriptOutput, script_outcome, script_response};

verus! {

/// What is to be done next for a request.
#[derive(Debug, PartialEq, Eq)]
pub enum Step {
    /// Send this response.
    Respond(Response),
    /// Read the entries of the directory at this path.
    ListDirectory(Vec<u8>),
    /// Run a script.
    RunScript(ScriptInvocation),
    /// Read the file at this path.
    ReadFile(Vec<u8>),
}

/// A step as plain values.
pub ghost enum Plan {
    Respond(ResponseModel),
    ListDirectory(Seq<u8>),
    RunScript { script: Seq<u8>, writes: Seq<(Seq<u8>, Seq<u8>)>, stdin: Option<Seq<u8>> },
    ReadFile(Seq<u8>),
}

impl Step {
    pub open spec fn view(&self) -> Plan {
        match self {
            Step::Respond(r) => Plan::Respond(r@),
            Step::ListDirectory(p) => Plan::ListDirectory(p@),
            Step::RunScript(s) => Plan::RunScript {
                script: s.script@,
                writes: s.environment.pairs(),
                stdin: vec_view(s.stdin),
            },
            Step::ReadFile(p) => Plan::ReadFile(p@),
        }
    }
}

/// The path below the root folder that a target asks for.
pub open spec fn requested_relative(target: Seq<u8>) -> Seq<u8> {
    relative_path(target_path(target))
}

/// Whether a method is one that the server handles.
pub open spec fn method_allowed(method: Seq<u8>) -> bool {
    method == lit("GET") || method == lit("POST")
}

/// The step that a request calls for. `body` is the posted body, `canonical` the
/// absolute, symlink-free form of the requested file, where it has one, and
/// `kind` what the file system holds there. A method other than `GET` and
/// `POST` is not allowed, whatever the target. For the two that are, the first
/// rule that applies decides: a forbidden path is refused; a directory is
/// listed; a file in the `scripts` directory is run; any other file is read;
/// and what is left was not found.
pub open spec fn decision(
    q: RequestModel,
    body: Option<Seq<u8>>,
    root: Seq<u8>,
    canonical: Option<Seq<u8>>,
    kind: Kind,
) -> Plan {
    let rel = requested_relative(q.target);
    let place = resolved_location(rel, root, canonical);
    if !method_allowed(q.method) {
        Plan::Respond(bare(Status::MethodNotAllowed))
    } else {
        match resolution(rel, root, canonical, kind) {
            Resolution::Forbidden => Plan::Respond(bare(Status::Forbidden)),
            Resolution::Directory => Plan::ListDirectory(place),
            Resolution::File => if under_scripts(place, root) {
                Plan::RunScript {
                    script: place,
                    writes: environment_writes(
                        q.headers,
                        q.method,
                        target_path(q.target),
                        target_query(q.target),
                        body,
                    ),
                    stdin: body,
                }
            } else {
                Plan::ReadFile(place)
            },
            Resolution::Missing => Plan::Respond(bare(Status::NotFound)),
        }
    }
}

/// The response once a directory was read, or could not be read.
pub open spec fn listing_outcome(
    path: Seq<u8>,
    root: Seq<u8>,
    kids: Option<Seq<(Seq<u8>, bool)>>,
) -> ResponseModel {
    match kids {
        Some(k) => content(
            lit("text/html; charset=utf-8"),
            directory_page(relative_to(path, root), k),
        ),
        None => bare(Status::InternalServerError),
    }
}

/// The response once a file was read, or could not be read.
pub open spec fn file_outcome(path: Seq<u8>, contents: Option<Seq<u8>>) -> ResponseModel {
    match contents {
        Some(c) => content(mime_type(path), c),
        None => bare(Status::NotFound),
    }
}

/// The line that records a completed request: method, client address, path,
/// and the status.
pub open spec fn log_entry(
    method: Seq<u8>,
    client: Option<Seq<u8>>,
    path: Seq<u8>,
    status: Status,
) -> Seq<u8> {
    method + seq![SPACE] + (match client {
        Some(c) => c,
        None => lit("unknown"),
    }) + seq![SPACE] + path + lit(" -> ") + digits_of(status.code_of() as nat) + lit(" (")
        + status.text_of() + lit(")")
}

/// The file that a request asks for: its path joined onto the root folder.
pub fn requested_file(req: &Request, root: &[u8]) -> (r: Vec<u8>)
    ensures
        r@ == join(root@, requested_relative(req@.target)),
{
    let (path, _query) = split_target(req.target.as_slice());
    let rel = strip_leading_slashes(path.as_slice());
    join_path(root, rel.as_slice())
}

/// Decides the step that a request calls for.
pub fn route(
    req: &Request,
    body: Option<&[u8]>,
    root: &[u8],
    canonical: Option<&[u8]>,
    kind: Kind,
) -> (step: Step)
    ensures
        step@ == decision(req@, slice_view(body), root@, slice_view(canonical), kind),
{
    if !req.is_get() && !req.is_post() {
        return Step::Respond(Response::bare(Status::MethodNotAllowed));
    }
    let (path, query) = split_target(req.target.as_slice());
    let rel = strip_leading_slashes(path.as_slice());
    let resolved = resolve(rel.as_slice(), root, canonical, kind);
    match resolved.tag {
        Resolution::Forbidden => Step::Respond(Response::bare(Status::Forbidden)),
        Resolution::Directory => Step::ListDirectory(resolved.path),
        Resolution::File => {
            if is_under_scripts(resolved.path.as_slice(), root) {
                let environment = match &query {
                    Some(q) => build_environment(
                        &req.headers,
                        req.method.as_slice(),
                        path.as_slice(),
                        Some(q.as_slice()),
                        body,
                    ),
                    None => build_environment(
                        &req.headers,
                        req.method.as_slice(),
                        path.as_slice(),
                        None,
                        body,
                    ),
                };
                let stdin = match body {
                    Some(b) => Some(to_vec(b)),
                    None => None,
                };
                Step::RunScript(ScriptInvocation { script: resolved.path, environment, stdin })
            } else {
                Step::ReadFile(resolved.path)
            }
        },
        Resolution::Missing => Step::Respond(Response::bare(Status::NotFound)),
    }
}

/// The response once a directory was read (`Some`) or could not be read
/// (`None`).
pub fn listing_response(path: &[u8], root: &[u8], entries: Option<&Vec<DirEntry>>) -> (r: Response)
    ensures
        r@ == listing_outcome(
            path@,
            root@,
            match entries {
                Some(e) => Some(children(e@)),
                None => None,
            },
        ),
{
    match entries {
        Some(e) => Response::content(
            literal("text/html; charset=utf-8").as_slice(),
            generate_directory_listing(path, root, e),
        ),
        None => Response::bare(Status::InternalServerError),
    }
}

/// The response once a file was read (`Some`) or could not be read (`None`).
pub fn file_response(path: &[u8], contents: Option<Vec<u8>>) -> (r: Response)
    ensures
        r@ == file_outcome(path@, vec_view(contents)),
{
    match contents {
        Some(c) => Response::content(get_mime_type(path).as_slice(), c),
        None => Response::bare(Status::NotFound),
    }
}

/// The response once a script has run (`Some`) or could not be started
/// (`None`).
pub fn run_response(output: Option<&ScriptOutput>) -> (r: Response)
    ensures
        r@ == match output {
            Some(o) => script_outcome(o.success, o.stdout@, o.stderr@),
            None => bare(Status::InternalServerError),
        },
{
    match output {
        Some(o) => script_response(o),
        None => Response::bare(Status::InternalServerError),
    }
}

/// The line that records a completed request.
pub fn log_line(method: &[u8], client: Option<&[u8]>, path: &[u8], status: Status) -> (r: Vec<u8>)
    ensures
        r@ == log_entry(method@, slice_view(client), path@, status),
{
    let mut r = to_vec(method);
    r.push(SPACE);
    match client {
        Some(c) => append(&mut r, c),
        None => append(&mut r, literal("unknown").as_slice()),
    }
    r.push(SPACE);
    append(&mut r, path);
    append(&mut r, literal(" -> ").as_slice());
    append(&mut r, format_usize(status.code() as usize).as_slice());
    append(&mut r, literal(" (").as_slice());
    append(&mut r, status.text().as_slice());
    append(&mut r, literal(")").as_slice());
    r
}

} // verus!
