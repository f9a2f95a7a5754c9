//! Response building and serialization: a builder collects status,
//! headers and body; serialization writes the status line, the headers
//! (with `Content-Length` always present) and the body.

use crate::ascii::{spec_decimal, usize_to_decimal};
use crate::headers::{has_key, key_index, Headers};
use crate::status::{spec_status_line, Status};
use vstd::prelude::*;
use vstd::string::StringSliceAdditionalSpecFns;

verus! {

/// Upper-case a single ASCII byte; other bytes are unchanged.
pub open spec fn spec_to_upper(b: u8) -> u8 {
    if 97 <= b <= 122 {
        (b - 32) as u8
    } else {
        b
    }
}

/// Title-case a header name: the first byte and every byte after a `-`
/// are upper-cased, everything else is kept.
pub open spec fn spec_title_case(s: Seq<u8>) -> Seq<u8> {
    Seq::new(
        s.len(),
        |i: int|
            if i == 0 || s[i - 1] == 45 {
                spec_to_upper(s[i])
            } else {
                s[i]
            },
    )
}

/// Canonicalize a header name to title case, for clients that scan
/// header names case-sensitively.
pub fn title_case(s: &[u8]) -> (r: Vec<u8>)
    ensures
        r@ == spec_title_case(s@),
{
    let mut out: Vec<u8> = Vec::new();
    let mut next_upper = true;
    let mut i: usize = 0;
    while i < s.len()
        invariant
            i <= s.len(),
            out@ == spec_title_case(s@).subrange(0, i as int),
            next_upper == (i == 0 || s@[i as int - 1] == 45),
        decreases s.len() - i,
    {
        let b = s[i];
        if next_upper {
            if 97 <= b && b <= 122 {
                out.push(b - 32);
            } else {
                out.push(b);
            }
            next_upper = false;
        } else {
            out.push(b);
        }
        if b == 45 {
            next_upper = true;
        }
        i = i + 1;
        assert(out@ =~= spec_title_case(s@).subrange(0, i as int));
    }
    assert(out@ =~= spec_title_case(s@));
    out
}

/// The body bytes a response will carry: its body if set, nothing
/// otherwise.
pub open spec fn spec_body_view(b: Option<Vec<u8>>) -> Seq<u8> {
    match b {
        Some(v) => v@,
        None => Seq::<u8>::empty(),
    }
}

/// Accumulates the parts of a response; consumed by `into_response`.
#[derive(Debug)]
pub struct ResponseBuilder {
    pub version: &'static str,
    pub status: Status,
    pub headers: Headers,
    pub body: Option<Vec<u8>>,
}

/// A finished response, ready to serialize.
#[derive(Debug)]
pub struct Response {
    pub version: &'static str,
    pub status: Status,
    pub headers: Headers,
    pub body: Option<Vec<u8>>,
}

impl ResponseBuilder {
    pub fn new() -> (r: ResponseBuilder)
        ensures
            r.version@ == "HTTP/1.1"@,
            r.status == Status::OK,
            r.headers.entries_seq() == Seq::<(Seq<u8>, Seq<u8>)>::empty(),
            r.headers.wf(),
            r.body is None,
    {
        ResponseBuilder {
            version: "HTTP/1.1",
            status: Status::OK,
            headers: Headers::new(),
            body: None,
        }
    }

    /// Replace the protocol version written on the status line.
    pub fn version(self, version: &'static str) -> (r: ResponseBuilder)
        ensures
            r.version == version,
            r.status == self.status,
            r.headers == self.headers,
            r.body == self.body,
    {
        ResponseBuilder { version, ..self }
    }

    /// Replace the response status.
    pub fn status(self, status: Status) -> (r: ResponseBuilder)
        ensures
            r.version == self.version,
            r.status == status,
            r.headers == self.headers,
            r.body == self.body,
    {
        ResponseBuilder { status, ..self }
    }

    /// Add a header; the name is canonicalized to title case, and an
    /// existing header of the same canonical name is overwritten.
    pub fn header(self, key: &[u8], value: &[u8]) -> (r: ResponseBuilder)
        requires
            self.headers.wf(),
        ensures
            r.version == self.version,
            r.status == self.status,
            r.body == self.body,
            r.headers.wf(),
            r.headers.as_map() == self.headers.as_map().insert(spec_title_case(key@), value@),
            has_key(self.headers.entries_seq(), spec_title_case(key@))
                ==> r.headers.entries_seq() == self.headers.entries_seq().update(
                key_index(self.headers.entries_seq(), spec_title_case(key@)),
                (spec_title_case(key@), value@),
            ),
            !has_key(self.headers.entries_seq(), spec_title_case(key@))
                ==> r.headers.entries_seq() == self.headers.entries_seq().push(
                (spec_title_case(key@), value@),
            ),
    {
        let mut headers = self.headers;
        let name = title_case(key);
        let mut v: Vec<u8> = Vec::new();
        v.extend_from_slice(value);
        assert(v@ =~= value@);
        headers.insert(name, v);
        ResponseBuilder { headers, ..self }
    }

    /// Add every header of the list in order.
    pub fn headers(self, headers: &Vec<(Vec<u8>, Vec<u8>)>) -> (r: ResponseBuilder)
        requires
            self.headers.wf(),
        ensures
            r.version == self.version,
            r.status == self.status,
            r.body == self.body,
            r.headers.wf(),
            r.headers.as_map() == spec_insert_all(
                self.headers.as_map(),
                headers@.map_values(|e: (Vec<u8>, Vec<u8>)| (e.0@, e.1@)),
            ),
    {
        let ghost hs = headers@.map_values(|e: (Vec<u8>, Vec<u8>)| (e.0@, e.1@));
        let mut b = self;
        let mut i: usize = 0;
        while i < headers.len()
            invariant
                i <= headers.len(),
                hs == headers@.map_values(|e: (Vec<u8>, Vec<u8>)| (e.0@, e.1@)),
                b.version == self.version,
                b.status == self.status,
                b.body == self.body,
                b.headers.wf(),
                b.headers.as_map() == spec_insert_all(self.headers.as_map(), hs.take(i as int)),
            decreases headers.len() - i,
        {
            b = b.header(headers[i].0.as_slice(), headers[i].1.as_slice());
            i = i + 1;
            assert(hs.take(i as int).drop_last() =~= hs.take(i as int - 1));
        }
        assert(hs.take(headers@.len() as int) =~= hs);
        b
    }

    /// Set the body and finish the response.
    pub fn body(self, body: Vec<u8>) -> (r: Response)
        requires
            self.headers.wf(),
        ensures
            r.version == self.version,
            r.status == self.status,
            r.body == Some(body),
            r.headers.wf(),
            has_key(self.headers.entries_seq(), "Content-Length".spec_bytes())
                ==> r.headers == self.headers,
            !has_key(self.headers.entries_seq(), "Content-Length".spec_bytes())
                ==> r.headers.entries_seq() == self.headers.entries_seq().push(
                ("Content-Length".spec_bytes(), spec_decimal(body@.len())),
            ),
    {
        let b = ResponseBuilder { body: Some(body), ..self };
        b.into_response()
    }

    /// Finish the response, adding a `Content-Length` header (from the
    /// body length, or zero without a body) unless one was set explicitly.
    pub fn into_response(self) -> (r: Response)
        requires
            self.headers.wf(),
        ensures
            r.version == self.version,
            r.status == self.status,
            r.body == self.body,
            r.headers.wf(),
            has_key(self.headers.entries_seq(), "Content-Length".spec_bytes())
                ==> r.headers == self.headers,
            !has_key(self.headers.entries_seq(), "Content-Length".spec_bytes())
                ==> r.headers.entries_seq() == self.headers.entries_seq().push(
                ("Content-Length".spec_bytes(), spec_decimal(spec_body_view(self.body).len())),
            ),
    {
        let mut headers = self.headers;
        proof {
            crate::headers::lemma_has_key_contains(headers.entries_seq(), "Content-Length".spec_bytes());
        }
        if headers.get("Content-Length".as_bytes()).is_none() {
            let body_len = match &self.body {
                Some(b) => b.len(),
                None => 0,
            };
            let mut name: Vec<u8> = Vec::new();
            name.extend_from_slice("Content-Length".as_bytes());
            assert(name@ =~= "Content-Length".spec_bytes());
            headers.insert(name, usize_to_decimal(body_len));
        }
        Response { version: self.version, status: self.status, headers, body: self.body }
    }
}

/// Insert a list of headers into a map, later entries winning.
pub open spec fn spec_insert_all(
    m: Map<Seq<u8>, Seq<u8>>,
    s: Seq<(Seq<u8>, Seq<u8>)>,
) -> Map<Seq<u8>, Seq<u8>>
    decreases s.len(),
{
    if s.len() == 0 {
        m
    } else {
        spec_insert_all(m, s.drop_last()).insert(spec_title_case(s.last().0), s.last().1)
    }
}

/// One serialized header line: `Name: value` and CRLF.
pub open spec fn spec_header_line(e: (Seq<u8>, Seq<u8>)) -> Seq<u8> {
    e.0 + seq![58u8, 32u8] + e.1 + seq![13u8, 10u8]
}

/// All header lines, in entry order.
pub open spec fn spec_header_block(s: Seq<(Seq<u8>, Seq<u8>)>) -> Seq<u8>
    decreases s.len(),
{
    if s.len() == 0 {
        Seq::<u8>::empty()
    } else {
        spec_header_block(s.drop_last()) + spec_header_line(s.last())
    }
}

/// The full wire form of a response: status line, header lines, a blank
/// line, then the body verbatim.
pub open spec fn spec_response_bytes(r: Response) -> Seq<u8> {
    r.version.spec_bytes() + seq![32u8] + vstd::utf8::encode_utf8(spec_status_line(r.status))
        + seq![13u8, 10u8] + spec_header_block(r.headers.entries_seq()) + seq![13u8, 10u8]
        + spec_body_view(r.body)
}

impl Response {
    /// Serialize the response for the wire.
    pub fn to_bytes(self) -> (r: Vec<u8>)
        ensures
            r@ == spec_response_bytes(self),
    {
        let mut out: Vec<u8> = Vec::new();
        out.extend_from_slice(self.version.as_bytes());
        out.push(32);
        out.extend_from_slice(self.status.as_str().as_bytes());
        out.push(13);
        out.push(10);
        let ghost prefix = self.version.spec_bytes() + seq![32u8] + vstd::utf8::encode_utf8(
            spec_status_line(self.status),
        ) + seq![13u8, 10u8];
        assert(out@ =~= prefix);
        let ghost s = self.headers.entries_seq();
        let mut i: usize = 0;
        while i < self.headers.entries.len()
            invariant
                i <= self.headers.entries.len(),
                s == self.headers.entries_seq(),
                out@ == prefix + spec_header_block(s.take(i as int)),
            decreases self.headers.entries.len() - i,
        {
            out.extend_from_slice(self.headers.entries[i].0.as_slice());
            out.push(58);
            out.push(32);
            out.extend_from_slice(self.headers.entries[i].1.as_slice());
            out.push(13);
            out.push(10);
            i = i + 1;
            assert(s.take(i as int).drop_last() =~= s.take(i as int - 1));
            assert(out@ =~= prefix + spec_header_block(s.take(i as int)));
        }
        assert(s.take(s.len() as int) =~= s);
        out.push(13);
        out.push(10);
        if let Some(body) = &self.body {
            out.extend_from_slice(body.as_slice());
        }
        assert(out@ =~= spec_response_bytes(self));
        out
    }
}

/// A header name or value that serializes cleanly: no line breaks.
pub open spec fn clean_text(s: Seq<u8>) -> bool {
    forall|i: int| 0 <= i < s.len() ==> s[i] != 13 && s[i] != 10
}

/// An entry whose serialized line parses back to itself: the name is
/// nonempty, free of colons, line breaks and edge whitespace; the
/// value is free of line breaks and edge whitespace.
pub open spec fn wf_header_entry(e: (Seq<u8>, Seq<u8>)) -> bool {
    &&& e.0.len() > 0
    &&& clean_text(e.0)
    &&& clean_text(e.1)
    &&& forall|i: int| 0 <= i < e.0.len() ==> e.0[i] != 58
    &&& !crate::ascii::is_ws(e.0[0])
    &&& !crate::ascii::is_ws(e.0.last())
    &&& (e.1.len() > 0 ==> !crate::ascii::is_ws(e.1[0]) && !crate::ascii::is_ws(e.1.last()))
}

proof fn lemma_block_unfold_front(entries: Seq<(Seq<u8>, Seq<u8>)>)
    requires
        entries.len() > 0,
    ensures
        spec_header_block(entries) == spec_header_line(entries[0]) + spec_header_block(
            entries.drop_first(),
        ),
    decreases entries.len(),
{
    if entries.len() == 1 {
        assert(entries.drop_last() =~= Seq::<(Seq<u8>, Seq<u8>)>::empty());
        assert(entries.drop_first() =~= Seq::<(Seq<u8>, Seq<u8>)>::empty());
        assert(spec_header_block(entries) =~= spec_header_line(entries[0]) + spec_header_block(
            entries.drop_first(),
        ));
    } else {
        lemma_block_unfold_front(entries.drop_last());
        assert(entries.drop_last()[0] == entries[0]);
        assert(entries.drop_last().drop_first() =~= entries.drop_first().drop_last());
        assert(spec_header_block(entries.drop_first()) == spec_header_block(
            entries.drop_first().drop_last(),
        ) + spec_header_line(entries.drop_first().last()));
        assert(entries.drop_first().last() == entries.last());
        assert(spec_header_block(entries) =~= spec_header_line(entries[0]) + spec_header_block(
            entries.drop_first(),
        ));
    }
}

/// The text of one header line, without its terminator.
pub open spec fn spec_line_text(e: (Seq<u8>, Seq<u8>)) -> Seq<u8> {
    e.0 + seq![58u8, 32u8] + e.1
}

proof fn lemma_lines_of_block(entries: Seq<(Seq<u8>, Seq<u8>)>)
    requires
        forall|i: int| 0 <= i < entries.len() ==> wf_header_entry(#[trigger] entries[i]),
    ensures
        crate::ascii::spec_lines(spec_header_block(entries)) == entries.map_values(
            |e: (Seq<u8>, Seq<u8>)| spec_line_text(e),
        ),
    decreases entries.len(),
{
    if entries.len() == 0 {
        assert(crate::ascii::spec_lines(spec_header_block(entries)) =~~= entries.map_values(
            |e: (Seq<u8>, Seq<u8>)| spec_line_text(e),
        ));
    } else {
        lemma_block_unfold_front(entries);
        let e = entries[0];
        let rest = entries.drop_first();
        assert(forall|i: int| 0 <= i < rest.len() ==> wf_header_entry(#[trigger] rest[i]));
        lemma_lines_of_block(rest);
        let block = spec_header_block(entries);
        let lf = e.0.len() + 2 + e.1.len() + 1;
        assert(block =~= spec_line_text(e) + seq![13u8, 10u8] + spec_header_block(rest));
        assert(block[lf as int] == 10);
        assert forall|j: int| 0 <= j < lf implies block[j] != 10 by {
            if j < e.0.len() {
                assert(block[j] == e.0[j]);
            } else if j == e.0.len() {
                assert(block[j] == 58);
            } else if j == e.0.len() + 1 {
                assert(block[j] == 32);
            } else if j < e.0.len() + 2 + e.1.len() {
                assert(block[j] == e.1[j - e.0.len() - 2]);
            } else {
                assert(block[j] == 13);
            }
        }
        crate::ascii::lemma_spec_find_at(block, 10, lf as int);
        assert(block.take(lf as int) =~= spec_line_text(e) + seq![13u8]);
        assert(crate::ascii::strip_cr(block.take(lf as int)) =~= spec_line_text(e));
        assert(block.skip(lf as int + 1) =~= spec_header_block(rest));
        assert(crate::ascii::spec_lines(block) =~~= seq![spec_line_text(e)]
            + crate::ascii::spec_lines(spec_header_block(rest)));
        assert(crate::ascii::spec_lines(block) =~~= entries.map_values(
            |e2: (Seq<u8>, Seq<u8>)| spec_line_text(e2),
        ));
    }
}

proof fn lemma_pair_of_line(e: (Seq<u8>, Seq<u8>))
    requires
        wf_header_entry(e),
    ensures
        crate::request::spec_header_pair(spec_line_text(e)) == (crate::ascii::lower(e.0), e.1),
{
    let line = spec_line_text(e);
    assert(line[e.0.len() as int] == 58);
    assert forall|j: int| 0 <= j < e.0.len() implies line[j] != 58 by {
        assert(line[j] == e.0[j]);
    }
    crate::ascii::lemma_spec_find_at(line, 58, e.0.len() as int);
    assert(line.take(e.0.len() as int) =~= e.0);
    assert(crate::ascii::spec_trim_start(e.0) == e.0);
    assert(crate::ascii::spec_trim_end(e.0) == e.0);
    let right = line.skip(e.0.len() as int + 1);
    assert(right =~= seq![32u8] + e.1);
    assert(right.drop_first() =~= e.1);
    assert(crate::ascii::spec_trim_start(right) == crate::ascii::spec_trim_start(e.1));
    assert(crate::ascii::spec_trim_start(e.1) == e.1);
    assert(crate::ascii::spec_trim_end(e.1) == e.1);
}

/// Round trip of the header section: serializing a header list and
/// parsing the bytes back as header lines recovers the same header
/// map, the names lower-cased by the parser. (A whole response's bytes
/// differ from a request only in the first line, so this covers all
/// the parser and serializer share.)
pub proof fn lemma_header_round_trip(entries: Seq<(Seq<u8>, Seq<u8>)>)
    requires
        forall|i: int| 0 <= i < entries.len() ==> wf_header_entry(#[trigger] entries[i]),
    ensures
        crate::request::spec_headers_map(crate::ascii::spec_lines(spec_header_block(entries)))
            == crate::headers::seq_to_map(
            entries.map_values(|e: (Seq<u8>, Seq<u8>)| (crate::ascii::lower(e.0), e.1)),
        ),
    decreases entries.len(),
{
    lemma_lines_of_block(entries);
    let lines = entries.map_values(|e: (Seq<u8>, Seq<u8>)| spec_line_text(e));
    let lowered = entries.map_values(|e: (Seq<u8>, Seq<u8>)| (crate::ascii::lower(e.0), e.1));
    if entries.len() == 0 {
        assert(crate::request::spec_headers_map(lines) =~~= crate::headers::seq_to_map(lowered));
    } else {
        let pre = entries.drop_last();
        assert(forall|i: int| 0 <= i < pre.len() ==> wf_header_entry(#[trigger] pre[i]));
        lemma_header_round_trip(pre);
        lemma_lines_of_block(pre);
        assert(lines.drop_last() =~~= pre.map_values(|e: (Seq<u8>, Seq<u8>)| spec_line_text(e)));
        assert(lowered.drop_last() =~~= pre.map_values(
            |e: (Seq<u8>, Seq<u8>)| (crate::ascii::lower(e.0), e.1),
        ));
        lemma_pair_of_line(entries.last());
        assert(lines.last() == spec_line_text(entries.last()));
        assert(lowered.last() == (crate::ascii::lower(entries.last().0), entries.last().1));
        assert(crate::request::spec_headers_map(lines) =~~= crate::headers::seq_to_map(lowered));
    }
}

/// Lower-casing undoes title-casing: the parser's lower-cased reading
/// of a canonicalized name is the lower-cased original name.
pub proof fn lemma_lower_title_case(k: Seq<u8>)
    ensures
        crate::ascii::lower(spec_title_case(k)) == crate::ascii::lower(k),
{
    assert(crate::ascii::lower(spec_title_case(k)) =~= crate::ascii::lower(k));
}

} // verus!
