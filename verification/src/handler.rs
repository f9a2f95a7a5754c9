//! The routing decision: a parsed request either gets a redirect, is
//! deliberately ignored, is refused for its method or its path, or
//! names a candidate file for the filesystem to probe. The caller
//! performs the filesystem steps and builds the response from the
//! answers.

use crate::headers::{has_key, Headers};
use crate::path::PathMatch;
use crate::request::{Method, Request};
use crate::response::{spec_title_case, Response, ResponseBuilder};
use crate::serve::{spec_candidate, ServeDir};
use crate::status::Status;
use vstd::prelude::*;
use vstd::slice::slice_to_vec;
use vstd::string::StringSliceAdditionalSpecFns;

verus! {

/// Everything the handler consults: the file server, the redirect map
/// and the ignore tables. Read-only after startup, so workers share it
/// freely.
#[derive(Debug)]
pub struct State {
    pub serve_dir: ServeDir,
    pub redirects: Headers,
    pub ignored: PathMatch<()>,
}

impl State {
    pub open spec fn wf(&self) -> bool {
        self.redirects.wf()
    }
}

/// What the handler decides for one request.
#[derive(Debug)]
pub enum Resolution {
    /// A non-GET request: answer `405` with `Allow: GET`.
    MethodNotAllowed,
    /// The path is redirected: answer `307` with this `Location`.
    Redirect(Vec<u8>),
    /// The path is ignored: send nothing at all.
    Ignored,
    /// The decoded path held a `..` segment: answer `400`.
    BadPath,
    /// Ask the filesystem about this candidate path.
    Probe(Vec<u8>),
}

/// The decision in the abstract: what `handler` returns, over views.
pub enum ResolutionModel {
    MethodNotAllowed,
    Redirect(Seq<u8>),
    Ignored,
    BadPath,
    Probe(Seq<u8>),
}

/// The routing decision: non-GET methods are refused; then the
/// redirect map is consulted on the exact request path; then the
/// ignore tables; what remains resolves to a filesystem candidate or
/// is refused for path traversal.
pub open spec fn spec_resolve(state: &State, method: Method, path: Seq<u8>) -> ResolutionModel {
    if method != Method::Get {
        ResolutionModel::MethodNotAllowed
    } else if state.redirects.as_map().contains_key(path) {
        ResolutionModel::Redirect(state.redirects.as_map()[path])
    } else if state.ignored.spec_contains(path) {
        ResolutionModel::Ignored
    } else {
        match spec_candidate(state.serve_dir.path@, path) {
            None => ResolutionModel::BadPath,
            Some(c) => ResolutionModel::Probe(c),
        }
    }
}

/// Does a returned resolution agree with the abstract decision?
pub open spec fn resolution_matches(r: &Resolution, m: ResolutionModel) -> bool {
    match m {
        ResolutionModel::MethodNotAllowed => r is MethodNotAllowed,
        ResolutionModel::Redirect(t) => r matches Resolution::Redirect(v) && v@ == t,
        ResolutionModel::Ignored => r is Ignored,
        ResolutionModel::BadPath => r is BadPath,
        ResolutionModel::Probe(c) => r matches Resolution::Probe(p) && p@ == c,
    }
}

/// For every request whose path stands in the redirect map, a GET
/// resolves to the redirect carrying exactly the mapped target — never
/// to a filesystem probe, so no filesystem access is performed; the
/// response for it is built by `redirect_response`, whose contract
/// gives status `307` and a `Location` equal to the target.
pub proof fn lemma_redirect_law(state: &State, path: Seq<u8>)
    requires
        state.redirects.as_map().contains_key(path),
    ensures
        spec_resolve(state, Method::Get, path) == ResolutionModel::Redirect(
            state.redirects.as_map()[path],
        ),
        !(spec_resolve(state, Method::Get, path) is Probe),
{
}

/// For every path matching an ignore entry — the exact file, or lying
/// under an ignored directory — and not redirected, a GET resolves to
/// the silent outcome: no response is built and no bytes are written.
pub proof fn lemma_ignore_law(state: &State, path: Seq<u8>)
    requires
        !state.redirects.as_map().contains_key(path),
        state.ignored.spec_contains(path),
    ensures
        spec_resolve(state, Method::Get, path) == ResolutionModel::Ignored,
{
}

/// Decide a request: no branch but `Probe` leads to the filesystem.
pub fn handler(state: &State, req: &Request) -> (r: Resolution)
    requires
        state.wf(),
    ensures
        resolution_matches(&r, spec_resolve(state, req.method, req.path@)),
        req.method != Method::Get ==> r is MethodNotAllowed,
        req.method == Method::Get && state.redirects.as_map().contains_key(req.path@) ==> (r
            matches Resolution::Redirect(t) && t@ == state.redirects.as_map()[req.path@]),
        req.method == Method::Get && !state.redirects.as_map().contains_key(req.path@)
            && state.ignored.spec_contains(req.path@) ==> r is Ignored,
        req.method == Method::Get && !state.redirects.as_map().contains_key(req.path@)
            && !state.ignored.spec_contains(req.path@) ==> match spec_candidate(
            state.serve_dir.path@,
            req.path@,
        ) {
            None => r is BadPath,
            Some(c) => (r matches Resolution::Probe(p) && p@ == c),
        },
{
    if !matches!(req.method, Method::Get) {
        return Resolution::MethodNotAllowed;
    }
    match state.redirects.get(req.path.as_slice()) {
        Some(target) => {
            return Resolution::Redirect(slice_to_vec(target.as_slice()));
        },
        None => {},
    }
    if state.ignored.contains(req.path.as_slice()) {
        return Resolution::Ignored;
    }
    match state.serve_dir.candidate_path(req.path.as_slice()) {
        None => Resolution::BadPath,
        Some(c) => Resolution::Probe(c),
    }
}

/// The `307 Temporary Redirect` response for a redirect target: its
/// `Location` header carries the target.
pub fn redirect_response(target: &[u8]) -> (r: Response)
    ensures
        r.status == Status::TemporaryRedirect,
        r.headers.wf(),
        r.headers.as_map().contains_key(spec_title_case("Location".spec_bytes())),
        r.headers.as_map()[spec_title_case("Location".spec_bytes())] == target@,
        r.body is None,
{
    let b = ResponseBuilder::new().status(Status::TemporaryRedirect).header(
        "Location".as_bytes(),
        target,
    );
    let ghost entries0 = b.headers.entries_seq();
    let ghost map0 = b.headers.as_map();
    let r = b.into_response();
    proof {
        let cl = "Content-Length".spec_bytes();
        let loc = spec_title_case("Location".spec_bytes());
        if has_key(entries0, cl) {
            assert(r.headers.as_map() == map0);
        } else {
            assert(entries0[0].0 != cl);
            assert(r.headers.entries_seq().drop_last() =~= entries0);
            assert(r.headers.as_map() =~= map0.insert(cl, crate::ascii::spec_decimal(0)));
            assert(loc != cl);
        }
    }
    r
}

/// The `405 Method Not Allowed` response: its `Allow` header says the
/// file router takes GET alone.
pub fn method_not_allowed_response() -> (r: Response)
    ensures
        r.status == Status::MethodNotAllowed,
        r.headers.wf(),
        r.headers.as_map().contains_key(spec_title_case("Allow".spec_bytes())),
        r.headers.as_map()[spec_title_case("Allow".spec_bytes())] == "GET".spec_bytes(),
        r.body is None,
{
    let b = ResponseBuilder::new().status(Status::MethodNotAllowed).header(
        "Allow".as_bytes(),
        "GET".as_bytes(),
    );
    let ghost entries0 = b.headers.entries_seq();
    let ghost map0 = b.headers.as_map();
    let r = b.into_response();
    proof {
        let cl = "Content-Length".spec_bytes();
        let allow = spec_title_case("Allow".spec_bytes());
        if has_key(entries0, cl) {
            assert(r.headers.as_map() == map0);
        } else {
            assert(entries0[0].0 != cl);
            assert(r.headers.entries_seq().drop_last() =~= entries0);
            assert(r.headers.as_map() =~= map0.insert(cl, crate::ascii::spec_decimal(0)));
            assert(allow != cl);
        }
    }
    r
}

/// The bare `400 Bad Request` response sent when a request cannot be
/// parsed or its path is refused.
pub fn bad_request_response() -> (r: Response)
    ensures
        r.status == Status::BadRequest,
        r.headers.wf(),
        r.headers.as_map() == Map::<Seq<u8>, Seq<u8>>::empty().insert(
            "Content-Length".spec_bytes(),
            crate::ascii::spec_decimal(0),
        ),
        r.body is None,
{
    let b = ResponseBuilder::new().status(Status::BadRequest);
    let ghost entries0 = b.headers.entries_seq();
    let r = b.into_response();
    proof {
        let cl = "Content-Length".spec_bytes();
        assert(entries0 =~~= Seq::<(Seq<u8>, Seq<u8>)>::empty());
        assert(!has_key(entries0, cl));
        assert(r.headers.entries_seq().drop_last() =~= entries0);
        assert(crate::headers::seq_to_map(entries0) =~= Map::<Seq<u8>, Seq<u8>>::empty());
        assert(r.headers.as_map() =~= Map::<Seq<u8>, Seq<u8>>::empty().insert(
            cl,
            crate::ascii::spec_decimal(0),
        ));
    }
    r
}

} // verus!
