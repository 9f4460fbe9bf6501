use vstd::prelude::*;
use vstd::string::StringExecFns;
use nanorand::WyRand;
use crate::config::SingleServer;
use crate::consistent_hashing::{ServerPool, generate_range};
use crate::ring_proofs::lemma_route_empty;
use crate::load_balancer::{decimal, decimal_string};

verus! {

/// Smallest request token drawn for an inbound request.
pub const TOKEN_MIN: usize = 100_000;

/// Bound (exclusive) of the request tokens drawn for inbound requests.
pub const TOKEN_MAX: usize = 999_999;

/// Status sent when no backend can take a request.
pub const SERVER_ERROR: u16 = 500;

/// Body of the home endpoint.
pub struct HomeResp {
    pub message: String,
    pub status: String,
}

/// What to do with an inbound request.
pub enum Dispatch {
    /// Proxy it to this backend.
    Forward(SingleServer),
    /// Answer it directly, with this status and body.
    Reject { status: u16, body: String },
}

/// `r` is the decision owed for a request whose chosen backend is `chosen`.
pub open spec fn decided(chosen: Option<SingleServer>, r: Dispatch) -> bool {
    match chosen {
        Some(s) => r == Dispatch::Forward(s),
        None => r matches Dispatch::Reject { status, body } && status == SERVER_ERROR && body@
            == "no backend server is up"@,
    }
}

/// Chooses the backend for one request: draws a token in
/// `[TOKEN_MIN, TOKEN_MAX)` and looks it up on the ring.
pub fn get_server(pool: &ServerPool, rng: &mut WyRand) -> (r: Option<SingleServer>)
    requires
        pool.wf(),
    ensures
        exists|t: int| TOKEN_MIN <= t < TOKEN_MAX && r == pool.lookup_spec(t),
{
    let token = generate_range(rng, TOKEN_MIN, TOKEN_MAX);
    pool.get_server_container(token)
}

/// The decision for a request once a backend has (or has not) been chosen:
/// proxy to it, or reject with a server error when there is none.
pub fn decide(chosen: Option<SingleServer>) -> (r: Dispatch)
    ensures
        decided(chosen, r),
{
    match chosen {
        Some(s) => Dispatch::Forward(s),
        None => Dispatch::Reject {
            status: SERVER_ERROR,
            body: String::from_str("no backend server is up"),
        },
    }
}

/// Routes one inbound request on `pool`.
pub fn dispatch(pool: &ServerPool, rng: &mut WyRand) -> (r: Dispatch)
    requires
        pool.wf(),
    ensures
        exists|t: int| TOKEN_MIN <= t < TOKEN_MAX && decided(#[trigger] pool.lookup_spec(t), r),
{
    let chosen = get_server(pool, rng);
    decide(chosen)
}

/// `http://host:port` followed by `path` (a path and query).
pub open spec fn url_of(server: SingleServer, path: Seq<char>) -> Seq<char> {
    "http://"@ + server.host@ + ":"@ + decimal(server.port as nat) + path
}

/// Where a request for `path_and_query` is proxied on `server`.
pub fn backend_url(server: &SingleServer, path_and_query: &str) -> (r: String)
    ensures
        r@ == url_of(*server, path_and_query@),
{
    let r = String::from_str("http://").concat(server.host.as_str()).concat(":").concat(
        decimal_string(server.port as u64).as_str(),
    ).concat(path_and_query);
    assert(r@ =~= url_of(*server, path_and_query@));
    r
}

/// The home endpoint's answer for the chosen backend, if any.
pub fn home_response(chosen: &Option<SingleServer>) -> (r: HomeResp)
    ensures
        match chosen {
            Some(s) => r.message@ == "Hello from Server: "@ + s.name@ && r.status@
                == "successful"@,
            None => r.message@ == "Could not get server"@ && r.status@ == "error"@,
        },
{
    match chosen {
        Some(s) => HomeResp {
            message: String::from_str("Hello from Server: ").concat(s.name.as_str()),
            status: String::from_str("successful"),
        },
        None => HomeResp {
            message: String::from_str("Could not get server"),
            status: String::from_str("error"),
        },
    }
}

/// With no backend live, every lookup finds none, and every request is
/// answered with a server error and the fixed diagnostic body.
pub proof fn lemma_empty_pool_rejects(pool: ServerPool, t: int, r: Dispatch)
    requires
        pool.wf(),
        pool.servers_view().len() == 0,
        decided(pool.lookup_spec(t), r),
    ensures
        pool.lookup_spec(t) is None,
        r matches Dispatch::Reject { status, body } && status == SERVER_ERROR && body@
            == "no backend server is up"@,
{
    assert(pool.servers_view() =~= Seq::<SingleServer>::empty());
    lemma_route_empty(t);
}

} // verus!
