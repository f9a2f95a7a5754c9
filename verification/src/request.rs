//! Request parsing: one bounded read's worth of bytes is parsed into a
//! structured request (method, path, protocol, headers, body), or
//! rejected with an error describing why.

use crate::ascii::{
    bytes_is, find_byte, lower, spec_find, spec_lines, spec_split, spec_trim, split_lines, split_on,
    trim, lower_bytes,
};
use crate::headers::Headers;
use vstd::prelude::*;
use vstd::slice::{slice_subrange, slice_to_vec};
use vstd::string::StringSliceAdditionalSpecFns;

verus! {

/// The request methods the server understands.
#[derive(Debug, Clone, Copy, PartialEq, Eq, Structural)]
pub enum Method {
    Get,
    Head,
    Post,
    Put,
    Delete,
    Connect,
    Options,
    Trace,
    Patch,
}

/// The method named by a token of the request line, if any.
pub open spec fn spec_method(s: Seq<u8>) -> Option<Method> {
    if s == "GET".spec_bytes() {
        Some(Method::Get)
    } else if s == "HEAD".spec_bytes() {
        Some(Method::Head)
    } else if s == "POST".spec_bytes() {
        Some(Method::Post)
    } else if s == "PUT".spec_bytes() {
        Some(Method::Put)
    } else if s == "DELETE".spec_bytes() {
        Some(Method::Delete)
    } else if s == "CONNECT".spec_bytes() {
        Some(Method::Connect)
    } else if s == "OPTIONS".spec_bytes() {
        Some(Method::Options)
    } else if s == "TRACE".spec_bytes() {
        Some(Method::Trace)
    } else if s == "PATCH".spec_bytes() {
        Some(Method::Patch)
    } else {
        None
    }
}

impl Method {
    /// Recognize a method token.
    pub fn from_bytes(s: &[u8]) -> (r: Option<Method>)
        ensures
            r == spec_method(s@),
    {
        if bytes_is(s, "GET") {
            Some(Method::Get)
        } else if bytes_is(s, "HEAD") {
            Some(Method::Head)
        } else if bytes_is(s, "POST") {
            Some(Method::Post)
        } else if bytes_is(s, "PUT") {
            Some(Method::Put)
        } else if bytes_is(s, "DELETE") {
            Some(Method::Delete)
        } else if bytes_is(s, "CONNECT") {
            Some(Method::Connect)
        } else if bytes_is(s, "OPTIONS") {
            Some(Method::Options)
        } else if bytes_is(s, "TRACE") {
            Some(Method::Trace)
        } else if bytes_is(s, "PATCH") {
            Some(Method::Patch)
        } else {
            None
        }
    }
}

/// Why a buffer failed to parse as a request.
#[derive(Debug, Clone, Copy, PartialEq, Eq, Structural)]
pub enum ErrorKind {
    IOError,
    InvalidData,
    BadFormat,
    NoData,
    TooLarge,
    Other,
}

/// A parse failure: its kind, and a short text for logs.
#[derive(Debug)]
pub struct Error {
    pub kind: ErrorKind,
    pub message: &'static str,
}

impl Error {
    pub fn new(kind: ErrorKind, message: &'static str) -> (r: Error)
        ensures
            r.kind == kind,
            r.message == message,
    {
        Error { kind, message }
    }
}

/// Largest number of bytes one request may occupy: a read that fills
/// the whole buffer is rejected as oversized.
pub const MAX_REQUEST_BYTES: usize = 4096;

/// Is the header/body separator (CRLF CRLF) at position `i`?
pub open spec fn spec_sep_at(data: Seq<u8>, i: int) -> bool {
    &&& 0 <= i
    &&& i + 4 <= data.len()
    &&& data[i] == 13
    &&& data[i + 1] == 10
    &&& data[i + 2] == 13
    &&& data[i + 3] == 10
}

/// Index of the first header/body separator, or `-1` if none occurs.
pub open spec fn spec_find_sep(data: Seq<u8>) -> int
    decreases data.len(),
{
    if data.len() < 4 {
        -1
    } else if spec_sep_at(data, 0) {
        0
    } else {
        let r = spec_find_sep(data.drop_first());
        if r < 0 {
            -1
        } else {
            1 + r
        }
    }
}

proof fn lemma_find_sep_at(data: Seq<u8>, i: int)
    requires
        spec_sep_at(data, i),
        forall|j: int| 0 <= j < i ==> !spec_sep_at(data, j),
    ensures
        spec_find_sep(data) == i,
    decreases data.len(),
{
    if i > 0 {
        assert(forall|j: int| 0 <= j < i - 1 ==> !spec_sep_at(data, j + 1) && !spec_sep_at(
            data.drop_first(),
            j,
        ));
        assert(spec_sep_at(data.drop_first(), i - 1));
        lemma_find_sep_at(data.drop_first(), i - 1);
    }
}

proof fn lemma_find_sep_none(data: Seq<u8>)
    requires
        forall|j: int| 0 <= j ==> !spec_sep_at(data, j),
    ensures
        spec_find_sep(data) == -1,
    decreases data.len(),
{
    if data.len() >= 4 {
        assert forall|j: int| 0 <= j implies !spec_sep_at(data.drop_first(), j) by {
            if spec_sep_at(data.drop_first(), j) {
                assert(data.drop_first()[j] == data[j + 1]);
                assert(data.drop_first()[j + 1] == data[j + 2]);
                assert(data.drop_first()[j + 2] == data[j + 3]);
                assert(data.drop_first()[j + 3] == data[j + 4]);
                assert(spec_sep_at(data, j + 1));
            }
        }
        lemma_find_sep_none(data.drop_first());
    }
}

/// Find the first CRLF CRLF separator.
fn find_sep(data: &[u8]) -> (r: Option<usize>)
    ensures
        match r {
            Some(i) => spec_find_sep(data@) == i && spec_sep_at(data@, i as int),
            None => spec_find_sep(data@) == -1,
        },
{
    if data.len() < 4 {
        proof {
            lemma_find_sep_none(data@);
        }
        return None;
    }
    let mut i: usize = 0;
    while i <= data.len() - 4
        invariant
            data@.len() >= 4,
            i <= data@.len() - 3,
            forall|j: int| 0 <= j < i ==> !spec_sep_at(data@, j),
        decreases data.len() - i,
    {
        if data[i] == 13 && data[i + 1] == 10 && data[i + 2] == 13 && data[i + 3] == 10 {
            proof {
                lemma_find_sep_at(data@, i as int);
            }
            return Some(i);
        }
        i = i + 1;
    }
    proof {
        lemma_find_sep_none(data@);
    }
    None
}

/// The name/value pair a header line denotes: the text left of the
/// first colon (the whole line without one), trimmed and lower-cased,
/// and the trimmed text right of it.
pub open spec fn spec_header_pair(line: Seq<u8>) -> (Seq<u8>, Seq<u8>) {
    let i = spec_find(line, 58);
    if i < 0 || i >= line.len() {
        (lower(spec_trim(line)), Seq::<u8>::empty())
    } else {
        (lower(spec_trim(line.take(i))), spec_trim(line.skip(i + 1)))
    }
}

/// The header map denoted by a run of header lines, later lines
/// overwriting earlier ones of the same name.
pub open spec fn spec_headers_map(lines: Seq<Seq<u8>>) -> Map<Seq<u8>, Seq<u8>>
    decreases lines.len(),
{
    if lines.len() == 0 {
        Map::<Seq<u8>, Seq<u8>>::empty()
    } else {
        spec_headers_map(lines.drop_last()).insert(
            spec_header_pair(lines.last()).0,
            spec_header_pair(lines.last()).1,
        )
    }
}

/// What the header section (request line and header lines) denotes:
/// method, path, protocol and the header map; or why it is malformed.
pub open spec fn spec_parse_header(header: Seq<u8>) -> Result<
    (Method, Seq<u8>, Seq<u8>, Map<Seq<u8>, Seq<u8>>),
    ErrorKind,
> {
    let lines = spec_lines(header);
    if lines.len() == 0 {
        Err(ErrorKind::BadFormat)
    } else {
        let parts = spec_split(lines[0], 32);
        if parts.len() != 3 {
            Err(ErrorKind::BadFormat)
        } else {
            match spec_method(parts[0]) {
                None => Err(ErrorKind::BadFormat),
                Some(m) => Ok((m, parts[1], parts[2], spec_headers_map(lines.drop_first()))),
            }
        }
    }
}

/// A parsed request.
pub struct RequestModel {
    pub method: Method,
    pub path: Seq<u8>,
    pub protocol: Seq<u8>,
    pub headers: Map<Seq<u8>, Seq<u8>>,
    pub body: Seq<u8>,
}

/// What a whole read buffer denotes: a request, or why it is rejected.
/// An empty read carries no data; a full buffer is oversized; a buffer
/// without the CRLF CRLF separator is malformed.
pub open spec fn spec_parse_request(data: Seq<u8>) -> Result<RequestModel, ErrorKind> {
    if data.len() == 0 {
        Err(ErrorKind::NoData)
    } else if data.len() >= MAX_REQUEST_BYTES {
        Err(ErrorKind::TooLarge)
    } else {
        let sep = spec_find_sep(data);
        if sep < 0 {
            Err(ErrorKind::BadFormat)
        } else {
            match spec_parse_header(data.take(sep)) {
                Err(k) => Err(k),
                Ok((m, p, pr, hm)) => Ok(
                    RequestModel {
                        method: m,
                        path: p,
                        protocol: pr,
                        headers: hm,
                        body: data.skip(sep + 4),
                    },
                ),
            }
        }
    }
}

/// A structured request: method, path, protocol token, header map and
/// raw body bytes.
#[derive(Debug)]
pub struct Request {
    pub method: Method,
    pub path: Vec<u8>,
    pub protocol: Vec<u8>,
    pub headers: Headers,
    pub body: Vec<u8>,
}

impl Request {
    /// Does this request agree with a parsed model?
    pub open spec fn matches(&self, m: RequestModel) -> bool {
        &&& self.method == m.method
        &&& self.path@ == m.path
        &&& self.protocol@ == m.protocol
        &&& self.headers.wf()
        &&& self.headers.as_map() == m.headers
        &&& self.body@ == m.body
    }

    /// Parse one read's worth of bytes into a request.
    pub fn parse(data: &[u8]) -> (r: Result<Request, Error>)
        ensures
            r is Ok <==> spec_parse_request(data@) is Ok,
            r is Ok ==> r->Ok_0.matches(spec_parse_request(data@)->Ok_0),
            r is Err ==> r->Err_0.kind == spec_parse_request(data@)->Err_0,
    {
        if data.len() == 0 {
            return Err(Error::new(ErrorKind::NoData, "Request did not contain data"));
        }
        if data.len() >= MAX_REQUEST_BYTES {
            return Err(Error::new(ErrorKind::TooLarge, "Request contains too much data"));
        }
        let sep = match find_sep(data) {
            None => {
                return Err(Error::new(ErrorKind::BadFormat, "Missing body separator"));
            },
            Some(i) => i,
        };
        let header = slice_subrange(data, 0, sep);
        let body = slice_to_vec(slice_subrange(data, sep + 4, data.len()));
        let mut req = Request {
            method: Method::Get,
            path: Vec::new(),
            protocol: Vec::new(),
            headers: Headers::new(),
            body,
        };
        match Self::parse_header(&mut req, header) {
            Ok(()) => Ok(req),
            Err(e) => Err(e),
        }
    }

    /// Parse the header section (request line and header lines) into
    /// `req`, leaving the body alone; on failure `req` is unchanged.
    pub fn parse_header(req: &mut Request, data: &[u8]) -> (r: Result<(), Error>)
        ensures
            r is Ok <==> spec_parse_header(data@) is Ok,
            r is Ok ==> ({
                let t = spec_parse_header(data@)->Ok_0;
                &&& final(req).method == t.0
                &&& final(req).path@ == t.1
                &&& final(req).protocol@ == t.2
                &&& final(req).headers.wf()
                &&& final(req).headers.as_map() == t.3
                &&& final(req).body == old(req).body
            }),
            r is Err ==> r->Err_0.kind == spec_parse_header(data@)->Err_0 && *final(req) == *old(
                req,
            ),
    {
        let lines = split_lines(data);
        let ghost lv = lines@.map_values(|v: Vec<u8>| v@);
        if lines.len() == 0 {
            return Err(Error::new(ErrorKind::BadFormat, "Missing Status Line"));
        }
        let parts = split_on(lines[0].as_slice(), 32);
        let ghost pv = parts@.map_values(|v: Vec<u8>| v@);
        if parts.len() != 3 {
            return Err(Error::new(ErrorKind::BadFormat, "Invalid Status Line"));
        }
        let method = match Method::from_bytes(parts[0].as_slice()) {
            None => {
                return Err(Error::new(ErrorKind::BadFormat, "Invalid Request Method"));
            },
            Some(m) => m,
        };
        let mut headers = Headers::new();
        let ghost hl = lv.drop_first();
        let mut i: usize = 1;
        proof {
            assert(hl.take(0) =~~= Seq::<Seq<u8>>::empty());
        }
        while i < lines.len()
            invariant
                1 <= i <= lines.len(),
                lv == lines@.map_values(|v: Vec<u8>| v@),
                hl == lv.drop_first(),
                headers.wf(),
                headers.as_map() == spec_headers_map(hl.take(i - 1)),
            decreases lines.len() - i,
        {
            let line = lines[i].as_slice();
            let ghost pair = spec_header_pair(line@);
            let (key, value) = match find_byte(line, 58) {
                Some(ci) => {
                    let n = line.len();
                    assert(ci < n);
                    let left = trim(slice_subrange(line, 0, ci));
                    let right = trim(slice_subrange(line, ci + 1, n));
                    (lower_bytes(left.as_slice()), right)
                },
                None => {
                    let left = trim(line);
                    (lower_bytes(left.as_slice()), Vec::new())
                },
            };
            assert(key@ == pair.0 && value@ == pair.1);
            headers.insert(key, value);
            i = i + 1;
            proof {
                assert(hl.take(i - 1).drop_last() =~~= hl.take(i - 2));
                assert(hl.take(i - 1).last() == lv[i - 1]);
            }
        }
        proof {
            assert(hl.take(lines@.len() - 1) =~~= hl);
        }
        req.method = method;
        req.path = slice_to_vec(parts[1].as_slice());
        req.protocol = slice_to_vec(parts[2].as_slice());
        req.headers = headers;
        Ok(())
    }
}

} // verus!
