//! The event loop's decisions, separated from the I/O that drives
//! them: what one batch of bytes from a client means, and the timeout
//! housekeeping pass over the client table. The loop itself — waiting
//! for readiness, accepting, reading and writing sockets — stays
//! outside the library and only carries these answers out.

use crate::client::{spec_decay, spec_expired, spec_sweep, Clients};
use crate::handler::{handler, Resolution, State};
use crate::request::{spec_parse_request, Request};
use vstd::prelude::*;
use vstd::string::StringSliceAdditionalSpecFns;

verus! {

/// What one readable event on a client connection means.
#[derive(Debug)]
pub enum DataOutcome {
    /// The peer closed: zero bytes arrived. Remove the connection.
    PeerClosed,
    /// The bytes did not parse as a request: answer `400 Bad Request`.
    Bad,
    /// A parsed request and its routing decision, with whether the
    /// connection asked to be kept alive afterwards.
    Route(Resolution, bool),
}

/// Did the request ask for its connection to stay open?
pub open spec fn spec_keep_alive(headers: Map<Seq<u8>, Seq<u8>>) -> bool {
    headers.contains_key("connection".spec_bytes()) && headers["connection".spec_bytes()]
        == "keep-alive".spec_bytes()
}

/// Does this request ask for its connection to stay open? Header names
/// are stored lower-cased by the parser.
pub fn wants_keep_alive(req: &Request) -> (r: bool)
    requires
        req.headers.wf(),
    ensures
        r == spec_keep_alive(req.headers.as_map()),
{
    match req.headers.get("connection".as_bytes()) {
        None => false,
        Some(v) => crate::ascii::bytes_is(v.as_slice(), "keep-alive"),
    }
}

/// Decide what one batch of bytes from a client connection means: an
/// empty read is the peer closing; bytes that do not parse draw a
/// `400`; a parsed request is routed, and its `Connection` header
/// decides whether the connection stays registered afterwards.
pub fn on_client_data(state: &State, data: &[u8]) -> (r: DataOutcome)
    requires
        state.wf(),
    ensures
        data@.len() == 0 ==> r is PeerClosed,
        data@.len() > 0 && spec_parse_request(data@) is Err ==> r is Bad,
        data@.len() > 0 && spec_parse_request(data@) is Ok ==> (r matches DataOutcome::Route(
            res,
            keep,
        ) && crate::handler::resolution_matches(
            &res,
            crate::handler::spec_resolve(
                state,
                spec_parse_request(data@)->Ok_0.method,
                spec_parse_request(data@)->Ok_0.path,
            ),
        ) && keep == spec_keep_alive(spec_parse_request(data@)->Ok_0.headers)),
{
    if data.len() == 0 {
        return DataOutcome::PeerClosed;
    }
    match Request::parse(data) {
        Err(_e) => DataOutcome::Bad,
        Ok(req) => {
            let keep = wants_keep_alive(&req);
            DataOutcome::Route(handler(state, &req), keep)
        },
    }
}

/// The timeout housekeeping pass: charge the elapsed time to every
/// live connection, then evict the ones that ran out, returning their
/// keys so the caller can deregister and close the sockets.
pub fn housekeeping(clients: &mut Clients, elapsed_ms: u64) -> (r: Vec<usize>)
    requires
        old(clients).wf(),
    ensures
        final(clients).wf(),
        final(clients).slots@ == spec_sweep(spec_decay(old(clients).slots@, elapsed_ms)),
        r@ == spec_expired(spec_decay(old(clients).slots@, elapsed_ms)),
        final(clients).avail@ == old(clients).avail@ + r@,
        final(clients).default_ttl_ms == old(clients).default_ttl_ms,
{
    clients.sub_time(elapsed_ms);
    clients.remove_timed_out()
}

} // verus!
