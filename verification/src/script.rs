//! Scripts: what one is started with, and how what it printed becomes a
//! response.

use vstd::prelude::*;
use crate::bytes::{lit, literal, copy_range, to_vec};
use crate::decimal::format_usize;
use crate::request::{headers_from, body_start, blank_line_from, read_head};
use crate::response::{
    Response, ResponseModel, Status, connection_close, content_length, well_formed,
};
use crate::table::{Table, pairs_map, lemma_pairs_map_last};

verus! {

/// What a script is started with.
#[derive(Debug, PartialEq, Eq)]
pub struct ScriptInvocation {
    /// The file to execute.
    pub script: Vec<u8>,
    /// The environment variables, in the order in which they are to be set.
    pub environment: Table,
    /// What the script finds on its standard input, if anything.
    pub stdin: Option<Vec<u8>>,
}

/// What a script left behind.
#[derive(Debug, PartialEq, Eq)]
pub struct ScriptOutput {
    /// Whether it exited with code 0.
    pub success: bool,
    pub stdout: Vec<u8>,
    pub stderr: Vec<u8>,
}

/// The headers that a script declares: the header lines of its output up to
/// the first blank line. Output without a blank line declares none.
pub open spec fn declared_headers(stdout: Seq<u8>) -> Seq<(Seq<u8>, Seq<u8>)> {
    if blank_line_from(stdout, 0) {
        headers_from(stdout, 0)
    } else {
        Seq::empty()
    }
}

/// The body that a script prints: what follows the first blank line of its
/// output, or all of the output where there is no blank line.
pub open spec fn printed_body(stdout: Seq<u8>) -> Seq<u8> {
    if blank_line_from(stdout, 0) {
        stdout.subrange(body_start(stdout, 0), stdout.len() as int)
    } else {
        stdout
    }
}

/// The response for a script that exited with code 0: its declared headers go
/// behind `Connection: close`, and no other header is added.
pub open spec fn script_success(stdout: Seq<u8>) -> ResponseModel {
    ResponseModel {
        status: Status::Success,
        headers: seq![connection_close()] + declared_headers(stdout),
        body: printed_body(stdout),
    }
}

/// Whether a script's output says what its body is: it declares a
/// `Content-Type`, or it prints no body.
pub open spec fn describes_body(stdout: Seq<u8>) -> bool {
    pairs_map(declared_headers(stdout)).contains_key(lit("Content-Type")) || printed_body(
        stdout,
    ).len() == 0
}

/// The response for a script that exited with another code: its body is what
/// the script wrote to its standard error.
pub open spec fn script_failure(stderr: Seq<u8>) -> ResponseModel {
    ResponseModel {
        status: Status::InternalServerError,
        headers: seq![connection_close(), content_length(stderr.len())],
        body: stderr,
    }
}

/// The response for a script that has run.
pub open spec fn script_outcome(success: bool, stdout: Seq<u8>, stderr: Seq<u8>) -> ResponseModel {
    if success {
        script_success(stdout)
    } else {
        script_failure(stderr)
    }
}

/// Writing `a` and then `b` leaves a key of `b` in the mapping.
pub proof fn lemma_pairs_map_concat_key(
    a: Seq<(Seq<u8>, Seq<u8>)>,
    b: Seq<(Seq<u8>, Seq<u8>)>,
    k: Seq<u8>,
)
    requires
        pairs_map(b).contains_key(k),
    ensures
        pairs_map(a + b).contains_key(k),
    decreases b.len(),
{
    if b.len() > 0 {
        assert((a + b).drop_last() =~= a + b.drop_last());
        if b.last().0 != k {
            lemma_pairs_map_concat_key(a, b.drop_last(), k);
        }
    }
}

/// The response for a script that has run is well formed, provided that a
/// script that succeeded said what its body is.
pub proof fn lemma_script_outcome_well_formed(success: bool, stdout: Seq<u8>, stderr: Seq<u8>)
    requires
        success ==> describes_body(stdout),
    ensures
        well_formed(script_outcome(success, stdout, stderr)),
{
    let r = script_outcome(success, stdout, stderr);
    assert(r.headers[0] == connection_close());
    if success {
        let declared = declared_headers(stdout);
        if pairs_map(declared).contains_key(lit("Content-Type")) {
            lemma_pairs_map_concat_key(seq![connection_close()], declared, lit("Content-Type"));
        }
    } else {
        lemma_pairs_map_last(r.headers, lit("Content-Length"), 1);
    }
}

/// The response for a script that has run.
pub fn script_response(output: &ScriptOutput) -> (r: Response)
    ensures
        r@ == script_outcome(output.success, output.stdout@, output.stderr@),
{
    let mut headers = Table::new();
    headers.insert(literal("Connection"), literal("close"));
    if output.success {
        let head = read_head(output.stdout.as_slice(), 0);
        let ghost declared = declared_headers(output.stdout@);
        let body = if head.closed {
            let mut i: usize = 0;
            while i < head.headers.len()
                invariant
                    0 <= i <= declared.len(),
                    declared == head.headers.pairs(),
                    headers.pairs() == seq![connection_close()] + declared.subrange(0, i as int),
                decreases declared.len() - i,
            {
                let key = to_vec(head.headers.entries[i].key.as_slice());
                let value = to_vec(head.headers.entries[i].value.as_slice());
                headers.insert(key, value);
                i += 1;
            }
            copy_range(output.stdout.as_slice(), head.body_at, output.stdout.len())
        } else {
            to_vec(output.stdout.as_slice())
        };
        let r = Response { status: Status::Success, headers, body };
        assert(r@.headers =~= script_success(output.stdout@).headers);
        r
    } else {
        let body = to_vec(output.stderr.as_slice());
        headers.insert(literal("Content-Length"), format_usize(body.len()));
        let r = Response { status: Status::InternalServerError, headers, body };
        assert(r@.headers =~= script_failure(output.stderr@).headers);
        r
    }
}

} // verus!
