//! Client-table tests: key assignment and recycling, time decay,
//! eviction of idle connections, and the event-loop decisions.

use wserver::client::{ClientError, Clients};
use wserver::handler::{Resolution, State};
use wserver::headers::Headers;
use wserver::path::PathMatch;
use wserver::reactor::{housekeeping, on_client_data, wants_keep_alive, DataOutcome};
use wserver::request::Request;
use wserver::serve::ServeDir;

#[test]
fn keys_are_assigned_lowest_first() {
    let mut c = Clients::new(4, 5000);
    assert_eq!(c.add(100), Ok(1));
    assert_eq!(c.add(101), Ok(2));
    assert_eq!(c.add(102), Ok(3));
    assert_eq!(c.get(1), Some(100));
    assert_eq!(c.get(2), Some(101));
    assert_eq!(c.get(9), None);
    assert_eq!(c.get(0), None);
}

/// Live entries plus free keys always cover the whole capacity: with
/// every key taken the next registration is refused, and freeing one
/// key admits exactly one more connection.
#[test]
fn capacity_is_conserved() {
    let mut c = Clients::new(2, 5000);
    assert_eq!(c.add(1), Ok(1));
    assert_eq!(c.add(2), Ok(2));
    assert_eq!(c.add(3), Err(ClientError::CapacityExceeded));
    assert_eq!(c.remove(1), Ok(1));
    assert_eq!(c.add(4), Ok(1));
    assert_eq!(c.add(5), Err(ClientError::CapacityExceeded));
}

#[test]
fn remove_returns_token_and_recycles_key() {
    let mut c = Clients::new(4, 5000);
    assert_eq!(c.add(7), Ok(1));
    assert_eq!(c.remove(1), Ok(7));
    assert_eq!(c.remove(1), Err(ClientError::NotFound));
    assert_eq!(c.remove(0), Err(ClientError::NotFound));
    assert_eq!(c.get(1), None);
    // The freed key tops the free list and is handed out next.
    assert_eq!(c.add(8), Ok(1));
}

#[test]
fn next_timeout_reports_smallest_remaining() {
    let mut c = Clients::new(4, 5000);
    assert_eq!(c.next_timeout(), None);
    c.add(1).unwrap();
    c.add(2).unwrap();
    assert_eq!(c.next_timeout(), Some(5000));
    c.sub_time(1000);
    assert_eq!(c.next_timeout(), Some(4000));
}

#[test]
fn sub_time_saturates_at_zero() {
    let mut c = Clients::new(2, 1000);
    c.add(1).unwrap();
    c.sub_time(5000);
    assert_eq!(c.next_timeout(), Some(0));
}

/// Idle timeout: a connection with no further bytes is evicted once
/// its remaining time reaches zero, and its key is available to the
/// very next registration.
#[test]
fn idle_connection_is_evicted_and_key_reused() {
    let mut c = Clients::new(4, 5000);
    assert_eq!(c.add(42), Ok(1));
    c.sub_time(5000);
    let evicted = c.remove_timed_out();
    assert_eq!(evicted, vec![1]);
    assert_eq!(c.get(1), None);
    assert_eq!(c.add(43), Ok(1));
}

#[test]
fn sweep_leaves_live_entries_alone() {
    let mut c = Clients::new(4, 5000);
    c.add(1).unwrap();
    c.add(2).unwrap();
    c.sub_time(2000);
    assert!(c.remove_timed_out().is_empty());
    assert_eq!(c.get(1), Some(1));
    assert_eq!(c.get(2), Some(2));
}

#[test]
fn refresh_restores_the_default_ttl() {
    let mut c = Clients::new(2, 5000);
    c.add(1).unwrap();
    c.sub_time(4000);
    assert_eq!(c.next_timeout(), Some(1000));
    assert!(c.refresh(1));
    assert_eq!(c.next_timeout(), Some(5000));
    assert!(!c.refresh(2));
}

#[test]
fn housekeeping_decays_then_sweeps() {
    let mut c = Clients::new(4, 3000);
    c.add(10).unwrap();
    c.add(20).unwrap();
    c.sub_time(1000);
    c.refresh(2);
    // Key 1 has 2000 ms left, key 2 has 3000 ms left.
    let evicted = housekeeping(&mut c, 2000);
    assert_eq!(evicted, vec![1]);
    assert_eq!(c.get(2), Some(20));
}

fn plain_state() -> State {
    State {
        serve_dir: ServeDir::new(b"root".to_vec(), PathMatch::new()),
        redirects: Headers::new(),
        ignored: PathMatch::new(),
    }
}

#[test]
fn empty_read_means_peer_closed() {
    let state = plain_state();
    assert!(matches!(on_client_data(&state, b""), DataOutcome::PeerClosed));
}

#[test]
fn garbage_read_draws_bad() {
    let state = plain_state();
    assert!(matches!(on_client_data(&state, b"not-http"), DataOutcome::Bad));
}

#[test]
fn parsed_request_is_routed_with_keep_alive_flag() {
    let state = plain_state();
    let out = on_client_data(&state, b"GET /x HTTP/1.1\r\nConnection: keep-alive\r\n\r\n");
    match out {
        DataOutcome::Route(Resolution::Probe(_), keep) => assert!(keep),
        other => panic!("expected a routed request, got {:?}", other),
    }
    let out2 = on_client_data(&state, b"GET /x HTTP/1.1\r\n\r\n");
    match out2 {
        DataOutcome::Route(_, keep) => assert!(!keep),
        other => panic!("expected a routed request, got {:?}", other),
    }
}

#[test]
fn keep_alive_header_is_case_insensitive_in_name() {
    let req = Request::parse(b"GET / HTTP/1.1\r\nCONNECTION: keep-alive\r\n\r\n").unwrap();
    assert!(wants_keep_alive(&req));
    let req2 = Request::parse(b"GET / HTTP/1.1\r\nConnection: close\r\n\r\n").unwrap();
    assert!(!wants_keep_alive(&req2));
}
