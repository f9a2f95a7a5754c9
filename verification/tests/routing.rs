//! Routing tests: redirects, ignores, overrides, file serving and the
//! method check, with the filesystem's answers supplied by hand.

use wserver::handler::{
    bad_request_response, handler, method_not_allowed_response, redirect_response, Resolution,
    State,
};
use wserver::headers::Headers;
use wserver::mime::mime_from_ext;
use wserver::path::{file_name_of, join, parent_of, PathMatch};
use wserver::request::Request;
use wserver::routes::Routes;
use wserver::serve::{mime_from_path, FsError, ServeDir};
use wserver::status::Status;

fn plain_state() -> State {
    State {
        serve_dir: ServeDir::new(b"root".to_vec(), PathMatch::new()),
        redirects: Headers::new(),
        ignored: PathMatch::new(),
    }
}

fn get(path: &str) -> Request {
    let mut data = b"GET ".to_vec();
    data.extend_from_slice(path.as_bytes());
    data.extend_from_slice(b" HTTP/1.1\r\n\r\n");
    Request::parse(&data).expect("request should parse")
}

/// Scenario: `GET /about` with redirect map `{"/about": "/about.html"}`
/// draws status `307` with `Location: /about.html`.
#[test]
fn redirect_scenario() {
    let mut state = plain_state();
    state.redirects.insert(b"/about".to_vec(), b"/about.html".to_vec());
    let req = get("/about");
    let target = match handler(&state, &req) {
        Resolution::Redirect(t) => t,
        other => panic!("expected a redirect, got {:?}", other),
    };
    assert_eq!(target, b"/about.html".to_vec());
    let res = redirect_response(&target);
    assert!(matches!(res.status, Status::TemporaryRedirect));
    assert_eq!(res.headers.get(b"Location"), Some(&b"/about.html".to_vec()));
    let bytes = res.to_bytes();
    assert!(bytes.starts_with(b"HTTP/1.1 307 Temporary Redirect\r\n"));
}

/// Scenario: `GET /secret.txt` with the ignore set holding the file
/// `/secret.txt` yields the silent outcome: no response is built.
#[test]
fn ignore_file_scenario() {
    let mut state = plain_state();
    state.ignored.add(b"/secret.txt".to_vec(), false);
    let req = get("/secret.txt");
    assert!(matches!(handler(&state, &req), Resolution::Ignored));
}

#[test]
fn ignore_directory_covers_contents() {
    let mut state = plain_state();
    state.ignored.add(b"/private".to_vec(), true);
    assert!(matches!(handler(&state, &get("/private/notes.txt")), Resolution::Ignored));
    assert!(matches!(handler(&state, &get("/private")), Resolution::Ignored));
    assert!(matches!(handler(&state, &get("/public")), Resolution::Probe(_)));
}

#[test]
fn redirect_beats_ignore() {
    let mut state = plain_state();
    state.redirects.insert(b"/a".to_vec(), b"/b".to_vec());
    state.ignored.add(b"/a".to_vec(), false);
    assert!(matches!(handler(&state, &get("/a")), Resolution::Redirect(_)));
}

/// Scenario: `GET /images/` where `/images` is a directory and the
/// index file is `index.html`: the final path names the index file,
/// and the read's bytes come back as `200` with the HTML type.
#[test]
fn directory_index_scenario() {
    let state = plain_state();
    let req = get("/images/");
    let candidate = match handler(&state, &req) {
        Resolution::Probe(c) => c,
        other => panic!("expected a probe, got {:?}", other),
    };
    assert_eq!(candidate, b"root/images/".to_vec());
    let final_path = state.serve_dir.final_path(&candidate, true, b"index.html");
    assert_eq!(final_path, b"root/images/index.html".to_vec());
    let contents = b"<html>hi</html>".to_vec();
    let res = ServeDir::response_for(&final_path, Ok(contents.clone()));
    assert!(matches!(res.status, Status::OK));
    assert_eq!(res.body, Some(contents));
    assert_eq!(res.headers.get(b"Content-Type"), Some(&b"text/html".to_vec()));
}

/// Scenario: `GET /missing` with no matching file draws `404`.
#[test]
fn missing_file_scenario() {
    let state = plain_state();
    let candidate = match handler(&state, &get("/missing")) {
        Resolution::Probe(c) => c,
        other => panic!("expected a probe, got {:?}", other),
    };
    let final_path = state.serve_dir.final_path(&candidate, false, b"index.html");
    assert_eq!(final_path, b"root/missing".to_vec());
    let res = ServeDir::response_for(&final_path, Err(FsError::NotFound));
    assert!(matches!(res.status, Status::NotFound));
}

#[test]
fn other_read_error_draws_500() {
    let res = ServeDir::response_for(b"root/x", Err(FsError::Other));
    assert!(matches!(res.status, Status::InternalServerError));
}

/// Scenario: `POST /` against the GET-only file router draws `405`
/// with `Allow: GET`.
#[test]
fn post_method_scenario() {
    let state = plain_state();
    let req = Request::parse(b"POST / HTTP/1.1\r\n\r\n").unwrap();
    assert!(matches!(handler(&state, &req), Resolution::MethodNotAllowed));
    let res = method_not_allowed_response();
    assert!(matches!(res.status, Status::MethodNotAllowed));
    assert_eq!(res.headers.get(b"Allow"), Some(&b"GET".to_vec()));
    let bytes = res.to_bytes();
    assert!(bytes.starts_with(b"HTTP/1.1 405 Method Not Allowed\r\n"));
}

#[test]
fn bad_request_has_status_400() {
    let res = bad_request_response();
    assert!(matches!(res.status, Status::BadRequest));
}

/// Percent escapes in the request path are decoded before the path is
/// joined under the root.
#[test]
fn percent_decoding_applies() {
    let state = plain_state();
    let candidate = match handler(&state, &get("/a%41b%20c")) {
        Resolution::Probe(c) => c,
        other => panic!("expected a probe, got {:?}", other),
    };
    assert_eq!(candidate, b"root/aAb c".to_vec());
}

#[test]
fn stray_percent_passes_through() {
    let sd = ServeDir::new(b"root".to_vec(), PathMatch::new());
    assert_eq!(sd.candidate_path(b"/100%"), Some(b"root/100%".to_vec()));
}

#[test]
fn dotdot_paths_are_refused() {
    let state = plain_state();
    assert!(matches!(handler(&state, &get("/../etc/passwd")), Resolution::BadPath));
    // Even when the dots arrive percent-encoded.
    assert!(matches!(handler(&state, &get("/%2e%2e/etc")), Resolution::BadPath));
    assert!(matches!(handler(&state, &get("/a..b")), Resolution::Probe(_)));
}

/// Route-override precedence: an exact-file match wins over the
/// directory match, which wins over no override.
#[test]
fn override_precedence() {
    let mut pm: PathMatch<Vec<u8>> = PathMatch::new();
    pm.add(b"/site/a.txt".to_vec(), b"/exact.txt".to_vec(), false);
    pm.add(b"/site".to_vec(), b"/elsewhere".to_vec(), true);
    assert_eq!(pm.get(b"/site/a.txt"), Some(b"/exact.txt".to_vec()));
    assert_eq!(pm.get(b"/site/b.txt"), Some(b"/elsewhere/b.txt".to_vec()));
    assert_eq!(pm.get(b"/other/b.txt"), None);
}

#[test]
fn override_applies_in_final_path() {
    let mut routes: PathMatch<Vec<u8>> = PathMatch::new();
    routes.add(b"root/old.html".to_vec(), b"root/new.html".to_vec(), false);
    let sd = ServeDir::new(b"root".to_vec(), routes);
    assert_eq!(sd.final_path(b"root/old.html", false, b"index.html"), b"root/new.html".to_vec());
    assert_eq!(sd.final_path(b"root/other.html", false, b"index.html"), b"root/other.html".to_vec());
}

#[test]
fn routes_table_matches_parent_only() {
    let mut r = Routes::new();
    r.add(b"/docs".to_vec(), b"/srv/docs".to_vec(), true);
    r.add(b"/one.txt".to_vec(), b"/two.txt".to_vec(), false);
    assert_eq!(r.get(b"/one.txt"), Some(b"/two.txt".to_vec()));
    assert_eq!(r.get(b"/docs/page.html"), Some(b"/srv/docs/page.html".to_vec()));
    // A deeper path's direct parent is not `/docs`, so no match.
    assert_eq!(r.get(b"/docs/sub/page.html"), None);
}

#[test]
fn path_helpers() {
    assert_eq!(parent_of(b"/a/b"), Some(b"/a".to_vec()));
    assert_eq!(parent_of(b"/a"), Some(b"/".to_vec()));
    assert_eq!(parent_of(b"/"), None);
    assert_eq!(parent_of(b""), None);
    assert_eq!(parent_of(b"plain"), Some(b"".to_vec()));
    assert_eq!(file_name_of(b"/a/b.txt"), b"b.txt".to_vec());
    assert_eq!(file_name_of(b"plain"), b"plain".to_vec());
    assert_eq!(join(b"root", b"x"), b"root/x".to_vec());
    assert_eq!(join(b"root/", b"x"), b"root/x".to_vec());
    assert_eq!(join(b"root", b"/abs"), b"/abs".to_vec());
    assert_eq!(join(b"", b"x"), b"x".to_vec());
}

#[test]
fn mime_lookup_by_extension() {
    assert_eq!(mime_from_ext("txt", None), "text/plain");
    assert_eq!(mime_from_ext("svg", None), "image/svg+xml");
    assert_eq!(mime_from_ext("zzz", Some("application/octet-stream")), "application/octet-stream");
    assert_eq!(mime_from_ext("zzz", None), "");
}

#[test]
fn mime_lookup_by_path() {
    assert_eq!(mime_from_path(b"root/index.html"), Some("text/html"));
    assert_eq!(mime_from_path(b"root/pic.jpeg"), Some("image/jpeg"));
    assert_eq!(mime_from_path(b"root/noext"), None);
    assert_eq!(mime_from_path(b"root/.hidden"), None);
}
