//! Responses and their form on the wire.

use vstd::prelude::*;
use crate::bytes::{lit, literal, append, to_vec, CR, LF, SPACE, COLON};
use crate::decimal::{digits_of, format_usize};
use crate::table::{Table, pairs_map};

verus! {

/// The outcomes that the server reports.
#[derive(Clone, Copy, Debug, PartialEq, Eq, Structural)]
pub enum Status {
    Success,
    Forbidden,
    NotFound,
    MethodNotAllowed,
    InternalServerError,
}

impl Status {
    /// The three-digit code.
    pub open spec fn code_of(self) -> u16 {
        match self {
            Status::Success => 200,
            Status::Forbidden => 403,
            Status::NotFound => 404,
            Status::MethodNotAllowed => 405,
            Status::InternalServerError => 500,
        }
    }

    /// The text that goes with the code.
    pub open spec fn text_of(self) -> Seq<u8> {
        match self {
            Status::Success => lit("OK"),
            Status::Forbidden => lit("Forbidden"),
            Status::NotFound => lit("Not Found"),
            Status::MethodNotAllowed => lit("Method Not Allowed"),
            Status::InternalServerError => lit("Internal Server Error"),
        }
    }

    /// The three-digit code.
    pub fn code(self) -> (c: u16)
        ensures
            c == self.code_of(),
            100 <= c <= 999,
    {
        match self {
            Status::Success => 200,
            Status::Forbidden => 403,
            Status::NotFound => 404,
            Status::MethodNotAllowed => 405,
            Status::InternalServerError => 500,
        }
    }

    /// The text that goes with the code.
    pub fn text(self) -> (t: Vec<u8>)
        ensures
            t@ == self.text_of(),
    {
        match self {
            Status::Success => literal("OK"),
            Status::Forbidden => literal("Forbidden"),
            Status::NotFound => literal("Not Found"),
            Status::MethodNotAllowed => literal("Method Not Allowed"),
            Status::InternalServerError => literal("Internal Server Error"),
        }
    }
}

/// A response: status, headers in the order in which they are sent, and body.
#[derive(Debug, PartialEq, Eq)]
pub struct Response {
    pub status: Status,
    pub headers: Table,
    pub body: Vec<u8>,
}

/// What a response holds, as plain sequences.
pub ghost struct ResponseModel {
    pub status: Status,
    pub headers: Seq<(Seq<u8>, Seq<u8>)>,
    pub body: Seq<u8>,
}

impl Response {
    pub open spec fn view(&self) -> ResponseModel {
        ResponseModel { status: self.status, headers: self.headers.pairs(), body: self.body@ }
    }
}

/// The header that every response carries.
pub open spec fn connection_close() -> (Seq<u8>, Seq<u8>) {
    (lit("Connection"), lit("close"))
}

/// The header that announces a body of `n` bytes.
pub open spec fn content_length(n: nat) -> (Seq<u8>, Seq<u8>) {
    (lit("Content-Length"), digits_of(n))
}

/// The header that names the type of the body.
pub open spec fn content_type(mime: Seq<u8>) -> (Seq<u8>, Seq<u8>) {
    (lit("Content-Type"), mime)
}

/// A response without a body.
pub open spec fn bare(status: Status) -> ResponseModel {
    ResponseModel { status, headers: seq![connection_close()], body: Seq::empty() }
}

/// The response that carries `body` as content of type `mime`.
pub open spec fn content(mime: Seq<u8>, body: Seq<u8>) -> ResponseModel {
    ResponseModel {
        status: Status::Success,
        headers: seq![content_type(mime), content_length(body.len()), connection_close()],
        body,
    }
}

/// Whether a response is fit to be sent: it carries `Connection: close`, and
/// where it has a body it announces the body's length, exactly, or names its
/// type.
pub open spec fn well_formed(r: ResponseModel) -> bool {
    &&& exists|i: int| 0 <= i < r.headers.len() && r.headers[i] == connection_close()
    &&& r.body.len() > 0 ==> {
        let h = pairs_map(r.headers);
        ||| h.contains_key(lit("Content-Length")) && h[lit("Content-Length")] == digits_of(
            r.body.len(),
        )
        ||| h.contains_key(lit("Content-Type"))
    }
}

/// The lines that the headers make on the wire: for each, its name, a colon
/// and a space, its value, and the line ending.
pub open spec fn header_lines(headers: Seq<(Seq<u8>, Seq<u8>)>) -> Seq<u8>
    decreases headers.len(),
{
    if headers.len() == 0 {
        Seq::empty()
    } else {
        header_lines(headers.drop_last()) + headers.last().0 + seq![COLON, SPACE]
            + headers.last().1 + seq![CR, LF]
    }
}

/// The status line: the version that the client sent, the code and the text.
pub open spec fn status_line(version: Seq<u8>, status: Status) -> Seq<u8> {
    version + seq![SPACE] + digits_of(status.code_of() as nat) + seq![SPACE] + status.text_of()
        + seq![CR, LF]
}

/// A response as it is sent: status line, header lines, an empty line, body.
pub open spec fn wire(version: Seq<u8>, r: ResponseModel) -> Seq<u8> {
    status_line(version, r.status) + header_lines(r.headers) + seq![CR, LF] + r.body
}

/// A response without a body is well formed.
pub proof fn lemma_bare_well_formed(status: Status)
    ensures
        well_formed(bare(status)),
{
    assert(bare(status).headers[0] == connection_close());
}

/// A response with content is well formed, and the length that it announces
/// is the length of its body.
pub proof fn lemma_content_well_formed(mime: Seq<u8>, body: Seq<u8>)
    ensures
        well_formed(content(mime, body)),
        content(mime, body).body == body,
        content(mime, body).headers[1] == (lit("Content-Length"), digits_of(body.len())),
{
    reveal_with_fuel(pairs_map, 4);
}

impl Response {
    /// A response without a body.
    pub fn bare(status: Status) -> (r: Response)
        ensures
            r@ == bare(status),
    {
        let mut headers = Table::new();
        headers.insert(literal("Connection"), literal("close"));
        Response { status, headers, body: Vec::new() }
    }

    /// The response that carries `body` as content of type `mime`.
    pub fn content(mime: &[u8], body: Vec<u8>) -> (r: Response)
        ensures
            r@ == content(mime@, body@),
    {
        let mut headers = Table::new();
        headers.insert(literal("Content-Type"), to_vec(mime));
        headers.insert(literal("Content-Length"), format_usize(body.len()));
        headers.insert(literal("Connection"), literal("close"));
        let r = Response { status: Status::Success, headers, body };
        assert(r@.headers =~= content(mime@, body@).headers);
        r
    }

    /// The bytes to send for this response, to a client that spoke `version`.
    pub fn serialize(&self, version: &[u8]) -> (out: Vec<u8>)
        ensures
            out@ == wire(version@, self@),
    {
        let mut out = to_vec(version);
        out.push(SPACE);
        append(&mut out, format_usize(self.status.code() as usize).as_slice());
        out.push(SPACE);
        append(&mut out, self.status.text().as_slice());
        out.push(CR);
        out.push(LF);
        let mut i: usize = 0;
        while i < self.headers.len()
            invariant
                0 <= i <= self.headers.pairs().len(),
                out@ == status_line(version@, self.status) + header_lines(
                    self.headers.pairs().subrange(0, i as int),
                ),
            decreases self.headers.pairs().len() - i,
        {
            append(&mut out, self.headers.entries[i].key.as_slice());
            out.push(COLON);
            out.push(SPACE);
            append(&mut out, self.headers.entries[i].value.as_slice());
            out.push(CR);
            out.push(LF);
            assert(self.headers.pairs().subrange(0, i + 1).drop_last()
                =~= self.headers.pairs().subrange(0, i as int));
            i += 1;
        }
        assert(self.headers.pairs().subrange(0, i as int) =~= self.headers.pairs());
        out.push(CR);
        out.push(LF);
        append(&mut out, self.body.as_slice());
        out
    }
}

} // verus!
