//! The request as it arrives: a request line of three tokens, header lines up
//! to the first blank line, and whatever bytes follow.

use vstd::prelude::*;
use crate::bytes::{
    find_from, scan_space, trim, lit, lemma_find_from, lemma_scan_space, find_byte, scan,
    copy_range, trimmed, literal, equal, to_vec, append, vec_view, LF, CR, COLON, QUESTION,
    SLASH,
};
use crate::decimal::{parse_number, parse_usize};
use crate::table::{Table, pairs_map};

verus! {

/// A parsed request.
#[derive(Debug, PartialEq, Eq)]
pub struct Request {
    pub method: Vec<u8>,
    pub target: Vec<u8>,
    pub version: Vec<u8>,
    pub headers: Table,
    /// The bytes that followed the blank line.
    pub body: Vec<u8>,
}

/// What a request holds, as plain sequences. `headers` lists the header lines
/// in the order in which they came; the last one of a name is the one that
/// counts.
pub ghost struct RequestModel {
    pub method: Seq<u8>,
    pub target: Seq<u8>,
    pub version: Seq<u8>,
    pub headers: Seq<(Seq<u8>, Seq<u8>)>,
    pub body: Seq<u8>,
}

impl Request {
    pub open spec fn view(&self) -> RequestModel {
        RequestModel {
            method: self.method@,
            target: self.target@,
            version: self.version@,
            headers: self.headers.pairs(),
            body: self.body@,
        }
    }
}

/// The index of the line feed that ends the line starting at `start`, or the
/// length of `s` where the last line has none.
pub open spec fn line_end(s: Seq<u8>, start: int) -> int {
    find_from(s, LF, start)
}

/// The line that starts at `start`, without its line feed and without a
/// carriage return before that line feed.
pub open spec fn line_at(s: Seq<u8>, start: int) -> Seq<u8> {
    let e = line_end(s, start);
    if start < e && e < s.len() && s[e - 1] == CR {
        s.subrange(start, e - 1)
    } else {
        s.subrange(start, e)
    }
}

/// Where the line after the one starting at `start` begins.
pub open spec fn next_line(s: Seq<u8>, start: int) -> int {
    let e = line_end(s, start);
    if e < s.len() {
        e + 1
    } else {
        e
    }
}

/// Where the first token at or after `from` begins.
pub open spec fn token_start(line: Seq<u8>, from: int) -> int {
    scan_space(line, false, from)
}

/// Where the first token at or after `from` ends.
pub open spec fn token_end(line: Seq<u8>, from: int) -> int {
    scan_space(line, true, token_start(line, from))
}

/// The first whitespace-separated token of `line` at or after `from`.
pub open spec fn token(line: Seq<u8>, from: int) -> Seq<u8> {
    line.subrange(token_start(line, from), token_end(line, from))
}

/// A header line is split at its first colon, and both sides are trimmed. A
/// line without a colon is no header.
pub open spec fn header_of(line: Seq<u8>) -> Option<(Seq<u8>, Seq<u8>)> {
    let c = find_from(line, COLON, 0);
    if c < line.len() {
        Some((trim(line.subrange(0, c)), trim(line.subrange(c + 1, line.len() as int))))
    } else {
        None
    }
}

/// The headers read from the lines that start at `start`, up to the first
/// blank line or the end of `s`.
pub open spec fn headers_from(s: Seq<u8>, start: int) -> Seq<(Seq<u8>, Seq<u8>)>
    decreases s.len() - start,
{
    if start < 0 || start >= s.len() {
        Seq::empty()
    } else {
        let line = line_at(s, start);
        if line.len() == 0 {
            Seq::empty()
        } else {
            proof {
                lemma_find_from(s, LF, start);
            }
            let rest = headers_from(s, next_line(s, start));
            match header_of(line) {
                Some(h) => seq![h] + rest,
                None => rest,
            }
        }
    }
}

/// The index just past the first blank line at or after `start`, or the
/// length of `s` where there is none.
pub open spec fn body_start(s: Seq<u8>, start: int) -> int
    decreases s.len() - start,
{
    if start < 0 || start >= s.len() {
        s.len() as int
    } else if line_at(s, start).len() == 0 {
        next_line(s, start)
    } else {
        proof {
            lemma_find_from(s, LF, start);
        }
        body_start(s, next_line(s, start))
    }
}

/// Whether there is a blank line at or after `start`.
pub open spec fn blank_line_from(s: Seq<u8>, start: int) -> bool
    decreases s.len() - start,
{
    if start < 0 || start >= s.len() {
        false
    } else if line_at(s, start).len() == 0 {
        true
    } else {
        proof {
            lemma_find_from(s, LF, start);
        }
        blank_line_from(s, next_line(s, start))
    }
}

/// What a buffer parses to. The first line must hold three tokens at least:
/// method, target and version, in that order. With fewer there is no request.
pub open spec fn parse(buf: Seq<u8>) -> Option<RequestModel> {
    let line = line_at(buf, 0);
    let a = token_end(line, 0);
    let b = token_end(line, a);
    if token_start(line, b) >= line.len() {
        None
    } else {
        Some(
            RequestModel {
                method: token(line, 0),
                target: token(line, a),
                version: token(line, b),
                headers: headers_from(buf, next_line(buf, 0)),
                body: buf.subrange(body_start(buf, next_line(buf, 0)), buf.len() as int),
            },
        )
    }
}

/// Reads the line of `s` that starts at `start`: the line, and where the next
/// one begins.
pub fn read_line(s: &[u8], start: usize) -> (r: (Vec<u8>, usize))
    requires
        start <= s@.len(),
    ensures
        r.0@ == line_at(s@, start as int),
        r.1 == next_line(s@, start as int),
        start <= r.1 <= s@.len(),
        start < s@.len() ==> start < r.1,
{
    let e: usize = find_byte(s, LF, start);
    let stop: usize = if start < e && e < s.len() && s[e - 1] == CR {
        e - 1
    } else {
        e
    };
    let next: usize = if e < s.len() {
        e + 1
    } else {
        e
    };
    (copy_range(s, start, stop), next)
}

/// Reads the token of `line` at or after `from`: the token, and where it ends.
pub fn read_token(line: &[u8], from: usize) -> (r: (Vec<u8>, usize))
    requires
        from <= line@.len(),
    ensures
        r.0@ == token(line@, from as int),
        r.1 == token_end(line@, from as int),
        from <= r.1 <= line@.len(),
        r.0@.len() == 0 <==> token_start(line@, from as int) >= line@.len(),
{
    let a: usize = scan(line, false, from);
    let b: usize = scan(line, true, a);
    proof {
        lemma_scan_space(line@, false, from as int);
        lemma_scan_space(line@, true, a as int);
    }
    (copy_range(line, a, b), b)
}

/// Reads one header line.
pub fn read_header(line: &[u8]) -> (r: Option<(Vec<u8>, Vec<u8>)>)
    ensures
        header_of(line@) == match r {
            Some(h) => Some((h.0@, h.1@)),
            None => None,
        },
{
    let c: usize = find_byte(line, COLON, 0);
    if c < line.len() {
        let name = copy_range(line, 0, c);
        let value = copy_range(line, c + 1, line.len());
        Some((trimmed(name.as_slice()), trimmed(value.as_slice())))
    } else {
        None
    }
}

/// A block of header lines as it was read.
#[derive(Debug, PartialEq, Eq)]
pub struct Head {
    pub headers: Table,
    /// Where the bytes after the blank line begin.
    pub body_at: usize,
    /// Whether a blank line ended the block.
    pub closed: bool,
}

/// Reads header lines from `start` on, up to the first blank line or the end
/// of `buf`.
pub fn read_head(buf: &[u8], start: usize) -> (h: Head)
    requires
        start <= buf@.len(),
    ensures
        h.headers.pairs() == headers_from(buf@, start as int),
        h.body_at == body_start(buf@, start as int),
        h.closed == blank_line_from(buf@, start as int),
        start <= h.body_at <= buf@.len(),
{
    let mut headers = Table::new();
    let mut pos: usize = start;
    let mut blank: bool = false;
    while !blank && pos < buf.len()
        invariant
            start <= pos <= buf@.len(),
            !blank ==> headers_from(buf@, start as int) == headers.pairs() + headers_from(
                buf@,
                pos as int,
            ),
            !blank ==> body_start(buf@, start as int) == body_start(buf@, pos as int),
            !blank ==> blank_line_from(buf@, start as int) == blank_line_from(buf@, pos as int),
            blank ==> headers_from(buf@, start as int) == headers.pairs(),
            blank ==> body_start(buf@, start as int) == pos,
            blank ==> blank_line_from(buf@, start as int),
        decreases buf@.len() - pos + (if blank { 0int } else { 1int }),
    {
        let (l, next) = read_line(buf, pos);
        if l.len() == 0 {
            blank = true;
        } else {
            match read_header(l.as_slice()) {
                Some((name, value)) => {
                    headers.insert(name, value);
                },
                None => {},
            }
        }
        pos = next;
    }
    Head { headers, body_at: pos, closed: blank }
}

/// Parses one request from the bytes first read from a connection.
pub fn parse_request(buf: &[u8]) -> (r: Option<Request>)
    ensures
        parse(buf@) == match r {
            Some(q) => Some(q@),
            None => None,
        },
{
    let (line, first) = read_line(buf, 0);
    let (method, a) = read_token(line.as_slice(), 0);
    let (target, b) = read_token(line.as_slice(), a);
    let (version, _c) = read_token(line.as_slice(), b);
    if version.len() == 0 {
        return None;
    }
    let head = read_head(buf, first);
    let body = copy_range(buf, head.body_at, buf.len());
    Some(Request { method, target, version, headers: head.headers, body })
}

/// The path of a target: what stands before its first `?`.
pub open spec fn target_path(target: Seq<u8>) -> Seq<u8> {
    target.subrange(0, find_from(target, QUESTION, 0))
}

/// The query string of a target: what stands after its first `?`, where it
/// has one.
pub open spec fn target_query(target: Seq<u8>) -> Option<Seq<u8>> {
    let q = find_from(target, QUESTION, 0);
    if q < target.len() {
        Some(target.subrange(q + 1, target.len() as int))
    } else {
        None
    }
}

/// The number of `/` bytes that `path` begins with.
pub open spec fn leading_slashes(path: Seq<u8>) -> int
    decreases path.len(),
{
    if path.len() > 0 && path[0] == SLASH {
        1 + leading_slashes(path.drop_first())
    } else {
        0
    }
}

/// `path` without the `/` bytes that it begins with.
pub open spec fn relative_path(path: Seq<u8>) -> Seq<u8> {
    path.subrange(leading_slashes(path), path.len() as int)
}

pub proof fn lemma_leading_slashes(path: Seq<u8>)
    ensures
        0 <= leading_slashes(path) <= path.len(),
        forall|j: int| 0 <= j < leading_slashes(path) ==> path[j] == SLASH,
        leading_slashes(path) < path.len() ==> path[leading_slashes(path)] != SLASH,
    decreases path.len(),
{
    if path.len() > 0 && path[0] == SLASH {
        let t = path.drop_first();
        lemma_leading_slashes(t);
        assert forall|j: int| 0 <= j < leading_slashes(path) implies path[j] == SLASH by {
            if j > 0 {
                assert(t[j - 1] == path[j]);
            }
        }
    }
}

/// The body length that the headers announce: what the last `Content-Length`
/// header reads as, and 0 where there is none or it does not read as a number.
pub open spec fn announced_length(headers: Map<Seq<u8>, Seq<u8>>) -> usize {
    let name = lit("Content-Length");
    if headers.contains_key(name) {
        match parse_number(headers[name]) {
            Some(n) => n,
            None => 0,
        }
    } else {
        0
    }
}

/// The body of a request once `more` bytes have been read after the first
/// buffer. Only a `POST` has one: the bytes that followed the blank line and
/// then `more`, up to the announced length.
pub open spec fn posted_body(q: RequestModel, more: Seq<u8>) -> Option<Seq<u8>> {
    if q.method == lit("POST") {
        let all = q.body + more;
        let n = announced_length(pairs_map(q.headers));
        if n <= all.len() {
            Some(all.subrange(0, n as int))
        } else {
            Some(all)
        }
    } else {
        None
    }
}

/// The number of body bytes that are still to be read from the connection.
pub open spec fn body_missing(q: RequestModel) -> int {
    let n = announced_length(pairs_map(q.headers));
    if q.method == lit("POST") && n > q.body.len() {
        n - q.body.len()
    } else {
        0
    }
}

/// Splits a target at its first `?` into path and query string.
pub fn split_target(target: &[u8]) -> (r: (Vec<u8>, Option<Vec<u8>>))
    ensures
        r.0@ == target_path(target@),
        target_query(target@) == match r.1 {
            Some(q) => Some(q@),
            None => None,
        },
{
    let q: usize = find_byte(target, QUESTION, 0);
    let path = copy_range(target, 0, q);
    if q < target.len() {
        (path, Some(copy_range(target, q + 1, target.len())))
    } else {
        (path, None)
    }
}

/// Strips the `/` bytes that a path begins with.
pub fn strip_leading_slashes(path: &[u8]) -> (r: Vec<u8>)
    ensures
        r@ == relative_path(path@),
{
    let mut i: usize = 0;
    assert(path@.subrange(0, path@.len() as int) =~= path@);
    while i < path.len() && path[i] == SLASH
        invariant
            0 <= i <= path@.len(),
            leading_slashes(path@) == i + leading_slashes(path@.subrange(i as int, path@.len() as int)),
        decreases path@.len() - i,
    {
        assert(path@.subrange(i as int, path@.len() as int).drop_first() =~= path@.subrange(
            i + 1,
            path@.len() as int,
        ));
        i += 1;
    }
    copy_range(path, i, path.len())
}

impl Request {
    /// Whether the method is `GET`.
    pub fn is_get(&self) -> (r: bool)
        ensures
            r == (self@.method == lit("GET")),
    {
        equal(self.method.as_slice(), literal("GET").as_slice())
    }

    /// Whether the method is `POST`.
    pub fn is_post(&self) -> (r: bool)
        ensures
            r == (self@.method == lit("POST")),
    {
        equal(self.method.as_slice(), literal("POST").as_slice())
    }

    /// The number of body bytes that are still to be read from the connection.
    pub fn remaining_body(&self) -> (n: usize)
        ensures
            n == body_missing(self@),
    {
        let n: usize = self.content_length();
        if self.is_post() && n > self.body.len() {
            n - self.body.len()
        } else {
            0
        }
    }

    /// The body, once `more` bytes have been read after the first buffer.
    pub fn full_body(&self, more: &[u8]) -> (r: Option<Vec<u8>>)
        ensures
            posted_body(self@, more@) == vec_view(r),
    {
        if self.is_post() {
            let mut all = to_vec(self.body.as_slice());
            append(&mut all, more);
            let n: usize = self.content_length();
            if n <= all.len() {
                Some(copy_range(all.as_slice(), 0, n))
            } else {
                Some(all)
            }
        } else {
            None
        }
    }

    /// The body length that the headers announce.
    pub fn content_length(&self) -> (n: usize)
        ensures
            n == announced_length(self.headers@),
    {
        match self.headers.get(literal("Content-Length").as_slice()) {
            Some(v) => match parse_usize(v.as_slice()) {
                Some(n) => n,
                None => 0,
            },
            None => 0,
        }
    }
}

} // verus!
