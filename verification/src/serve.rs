//! Serving static files: the request path is percent-decoded, joined
//! under the root directory, given the index file when it names a
//! directory, rerouted through the override table, and the read
//! outcome becomes the response. The filesystem itself stays outside:
//! its two answers (is the candidate a directory; what did the read
//! return) come in as arguments.

use crate::ascii::{bytes_is, spec_rfind, rfind_byte, split_on, spec_split};
use crate::path::{join, spec_file_name, spec_join, PathMatch};
use crate::response::{Response, ResponseBuilder};
use crate::status::Status;
use vstd::prelude::*;
use vstd::slice::{slice_subrange, slice_to_vec};
use vstd::string::StringSliceAdditionalSpecFns;

verus! {

/// An ASCII hexadecimal digit.
pub open spec fn is_hex_digit(b: u8) -> bool {
    (48 <= b <= 57) || (65 <= b <= 70) || (97 <= b <= 102)
}

/// The value of a hexadecimal digit.
pub open spec fn hex_val(b: u8) -> int {
    if 48 <= b <= 57 {
        b - 48
    } else if 65 <= b <= 70 {
        b - 55
    } else if 97 <= b <= 102 {
        b - 87
    } else {
        0
    }
}

/// Percent-decoding: each `%` followed by two hexadecimal digits
/// becomes the byte they spell; every other byte passes through,
/// a stray `%` included.
pub open spec fn spec_percent_decode(s: Seq<u8>) -> Seq<u8>
    decreases s.len(),
{
    if s.len() == 0 {
        Seq::<u8>::empty()
    } else if s[0] == 37 && s.len() >= 3 && is_hex_digit(s[1]) && is_hex_digit(s[2]) {
        seq![(hex_val(s[1]) * 16 + hex_val(s[2])) as u8] + spec_percent_decode(s.skip(3))
    } else {
        seq![s[0]] + spec_percent_decode(s.skip(1))
    }
}

/// Relies on percent_encoding::percent_decode: a `%` starts an escape
/// exactly when two hexadecimal digits follow, which then yield one
/// byte; anything else is passed through unchanged.
#[verifier::external_body]
fn percent_decode_bytes(s: &[u8]) -> (r: Vec<u8>)
    ensures
        r@ == spec_percent_decode(s@),
{
    percent_encoding::percent_decode(s).collect()
}

/// Drop every leading `/` from a request path.
pub open spec fn spec_trim_slashes(s: Seq<u8>) -> Seq<u8>
    decreases s.len(),
{
    if s.len() > 0 && s[0] == 47 {
        spec_trim_slashes(s.drop_first())
    } else {
        s
    }
}

fn trim_slashes(s: &[u8]) -> (r: &[u8])
    ensures
        r@ == spec_trim_slashes(s@),
{
    let mut a: usize = 0;
    proof {
        assert(s@.skip(0) =~= s@);
    }
    while a < s.len() && s[a] == 47
        invariant
            a <= s.len(),
            spec_trim_slashes(s@) == spec_trim_slashes(s@.skip(a as int)),
        decreases s.len() - a,
    {
        proof {
            assert(s@.skip(a as int).drop_first() =~= s@.skip(a as int + 1));
        }
        a = a + 1;
    }
    let r = slice_subrange(s, a, s.len());
    proof {
        assert(s@.skip(a as int) =~= r@);
    }
    r
}

/// Does any `/`-separated segment of the path spell `..`? Such paths
/// could escape the root directory and are refused.
pub open spec fn spec_has_dotdot(p: Seq<u8>) -> bool {
    exists|k: int|
        0 <= k < spec_split(p, 47).len() && spec_split(p, 47)[k] == "..".spec_bytes()
}

fn has_dotdot(p: &[u8]) -> (r: bool)
    ensures
        r == spec_has_dotdot(p@),
{
    let parts = split_on(p, 47);
    let ghost pv = parts@.map_values(|v: Vec<u8>| v@);
    let mut i: usize = 0;
    while i < parts.len()
        invariant
            i <= parts.len(),
            pv == parts@.map_values(|v: Vec<u8>| v@),
            pv == spec_split(p@, 47),
            forall|k: int| 0 <= k < i ==> pv[k] != "..".spec_bytes(),
        decreases parts.len() - i,
    {
        if bytes_is(parts[i].as_slice(), "..") {
            assert(pv[i as int] == "..".spec_bytes());
            return true;
        }
        i = i + 1;
    }
    false
}

/// The file extension: the part of the file name after its last `.`,
/// absent when there is no dot or only a leading one.
pub open spec fn spec_extension(p: Seq<u8>) -> Option<Seq<u8>> {
    let f = spec_file_name(p);
    let d = spec_rfind(f, 46);
    if d <= 0 || d >= f.len() {
        None
    } else {
        Some(f.skip(d + 1))
    }
}

/// The `Content-Type` text for a path, derived from its extension; the
/// lookup covers the types the file server expects to ship.
pub open spec fn spec_mime_from_path(p: Seq<u8>) -> Option<Seq<char>> {
    match spec_extension(p) {
        None => None,
        Some(e) => {
            if e == "htm".spec_bytes() || e == "html".spec_bytes() {
                Some("text/html"@)
            } else if e == "css".spec_bytes() {
                Some("text/css"@)
            } else if e == "js".spec_bytes() {
                Some("text/javascript"@)
            } else if e == "mjs".spec_bytes() {
                Some("application/javascript"@)
            } else if e == "png".spec_bytes() {
                Some("image/png"@)
            } else if e == "jpg".spec_bytes() || e == "jpeg".spec_bytes() {
                Some("image/jpeg"@)
            } else if e == "ico".spec_bytes() {
                Some("image/x-icon"@)
            } else {
                None
            }
        },
    }
}

/// Derive the `Content-Type` for a path from its extension.
pub fn mime_from_path(path: &[u8]) -> (r: Option<&'static str>)
    ensures
        r is Some <==> spec_mime_from_path(path@) is Some,
        r is Some ==> r->0@ == spec_mime_from_path(path@)->0,
{
    let name = crate::path::file_name_of(path);
    let ext: &[u8] = match rfind_byte(name.as_slice(), 46) {
        None => {
            return None;
        },
        Some(d) => {
            if d == 0 {
                return None;
            }
            let n = name.len();
            assert(d < n);
            slice_subrange(name.as_slice(), d + 1, n)
        },
    };
    if bytes_is(ext, "htm") || bytes_is(ext, "html") {
        Some("text/html")
    } else if bytes_is(ext, "css") {
        Some("text/css")
    } else if bytes_is(ext, "js") {
        Some("text/javascript")
    } else if bytes_is(ext, "mjs") {
        Some("application/javascript")
    } else if bytes_is(ext, "png") {
        Some("image/png")
    } else if bytes_is(ext, "jpg") || bytes_is(ext, "jpeg") {
        Some("image/jpeg")
    } else if bytes_is(ext, "ico") {
        Some("image/x-icon")
    } else {
        None
    }
}

/// How a filesystem read failed.
#[derive(Debug, Clone, Copy, PartialEq, Eq, Structural)]
pub enum FsError {
    /// The path names nothing.
    NotFound,
    /// Any other I/O failure.
    Other,
}

/// The candidate path a request resolves to before the filesystem is
/// consulted, or nothing when the decoded path is refused for holding
/// a `..` segment.
pub open spec fn spec_candidate(root: Seq<u8>, path: Seq<u8>) -> Option<Seq<u8>> {
    let d = spec_percent_decode(spec_trim_slashes(path));
    if spec_has_dotdot(d) {
        None
    } else {
        Some(spec_join(root, d))
    }
}

/// The file server: a root directory and the route override table.
#[derive(Debug)]
pub struct ServeDir {
    pub path: Vec<u8>,
    pub routes: PathMatch<Vec<u8>>,
}

impl ServeDir {
    pub fn new(path: Vec<u8>, routes: PathMatch<Vec<u8>>) -> (r: ServeDir)
        ensures
            r.path == path,
            r.routes == routes,
    {
        ServeDir { path, routes }
    }

    /// Decode the request path and join it under the root; a path with
    /// a `..` segment after decoding is refused.
    pub fn candidate_path(&self, path: &[u8]) -> (r: Option<Vec<u8>>)
        ensures
            r is Some <==> spec_candidate(self.path@, path@) is Some,
            r is Some ==> r->0@ == spec_candidate(self.path@, path@)->0,
    {
        let decoded = percent_decode_bytes(trim_slashes(path));
        if has_dotdot(decoded.as_slice()) {
            return None;
        }
        Some(join(self.path.as_slice(), decoded.as_slice()))
    }

    /// The final filesystem path: the index file is appended when the
    /// candidate names a directory, then the route overrides apply.
    pub fn final_path(&self, candidate: &[u8], is_dir: bool, index_file: &[u8]) -> (r: Vec<u8>)
        ensures
            r@ == spec_final_path(self, candidate@, is_dir, index_file@),
    {
        let with_index: Vec<u8> = if is_dir {
            join(candidate, index_file)
        } else {
            slice_to_vec(candidate)
        };
        match self.routes.get(with_index.as_slice()) {
            Some(route) => route,
            None => with_index,
        }
    }

    /// The response for a read outcome: file bytes become `200 Ok`
    /// with the path's `Content-Type` when one is known; a missing
    /// file becomes `404`; any other failure becomes `500`. Every
    /// branch yields a well-formed response with a body.
    pub fn response_for(path: &[u8], read: Result<Vec<u8>, FsError>) -> (r: Response)
        ensures
            r.headers.wf(),
            read is Ok ==> r.status == Status::OK && r.body == Some(read->Ok_0),
            read is Ok ==> match spec_mime_from_path(path@) {
                Some(m) => r.headers.as_map().contains_key(
                    crate::response::spec_title_case("Content-Type".spec_bytes()),
                ) && r.headers.as_map()[crate::response::spec_title_case(
                    "Content-Type".spec_bytes(),
                )] == vstd::utf8::encode_utf8(m),
                None => r.headers.as_map() == Map::<Seq<u8>, Seq<u8>>::empty().insert(
                    "Content-Length".spec_bytes(),
                    crate::ascii::spec_decimal(read->Ok_0@.len()),
                ),
            },
            read == Result::<Vec<u8>, FsError>::Err(FsError::NotFound) ==> r.status
                == Status::NotFound && r.body->0@ == "Not Found".spec_bytes(),
            read == Result::<Vec<u8>, FsError>::Err(FsError::Other) ==> r.status
                == Status::InternalServerError && r.body->0@ == "Internal Server Error".spec_bytes(),
            r.body is Some,
    {
        match read {
            Ok(data) => {
                let mut res = ResponseBuilder::new().status(Status::OK);
                match mime_from_path(path) {
                    Some(mime) => {
                        res = res.header("Content-Type".as_bytes(), mime.as_bytes());
                        let ghost entries0 = res.headers.entries_seq();
                        let ghost map0 = res.headers.as_map();
                        let r = res.body(data);
                        proof {
                            let cl = "Content-Length".spec_bytes();
                            if crate::headers::has_key(entries0, cl) {
                                assert(r.headers.as_map() == map0);
                            } else {
                                assert(entries0[0].0 != cl);
                                assert(r.headers.entries_seq().drop_last() =~= entries0);
                                assert(r.headers.as_map() =~= map0.insert(
                                    cl,
                                    crate::ascii::spec_decimal(r.body->0@.len()),
                                ));
                            }
                        }
                        r
                    },
                    None => {
                        let ghost entries0 = res.headers.entries_seq();
                        let r = res.body(data);
                        proof {
                            let cl = "Content-Length".spec_bytes();
                            assert(entries0 =~~= Seq::<(Seq<u8>, Seq<u8>)>::empty());
                            assert(!crate::headers::has_key(entries0, cl));
                            assert(r.headers.entries_seq().drop_last() =~= entries0);
                            assert(crate::headers::seq_to_map(entries0) =~= Map::<
                                Seq<u8>,
                                Seq<u8>,
                            >::empty());
                            assert(r.headers.as_map() =~= Map::<Seq<u8>, Seq<u8>>::empty().insert(
                                cl,
                                crate::ascii::spec_decimal(r.body->0@.len()),
                            ));
                        }
                        r
                    },
                }
            },
            Err(FsError::NotFound) => {
                let mut body: Vec<u8> = Vec::new();
                body.extend_from_slice("Not Found".as_bytes());
                assert(body@ =~= "Not Found".spec_bytes());
                ResponseBuilder::new().status(Status::NotFound).body(body)
            },
            Err(FsError::Other) => {
                let mut body: Vec<u8> = Vec::new();
                body.extend_from_slice("Internal Server Error".as_bytes());
                assert(body@ =~= "Internal Server Error".spec_bytes());
                ResponseBuilder::new().status(Status::InternalServerError).body(body)
            },
        }
    }
}

/// The final path `final_path` computes: index file appended for a
/// directory, then the override table applied.
pub open spec fn spec_final_path(
    sd: &ServeDir,
    candidate: Seq<u8>,
    is_dir: bool,
    index_file: Seq<u8>,
) -> Seq<u8> {
    let with_index = if is_dir {
        spec_join(candidate, index_file)
    } else {
        candidate
    };
    match sd.routes.spec_get(with_index) {
        Some(route) => route,
        None => with_index,
    }
}

} // verus!
