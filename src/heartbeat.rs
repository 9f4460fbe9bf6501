use vstd::prelude::*;
use crate::config::SingleServer;
use crate::dispatch::{backend_url, url_of};

verus! {

/// Liveness of one backend, as one probe found it.
pub struct HeartBeatInfo {
    pub alive: bool,
    pub name: String,
    pub host: String,
    pub port: u16,
    pub status_code: Option<u16>,
    pub status_text: Option<String>,
    pub time_taken_ms: u64,
    pub error: Option<String>,
}

/// Liveness of every backend, with the time of the check in Unix seconds.
pub struct HeartBeatResp {
    pub request_time: u64,
    pub server_hb: Vec<HeartBeatInfo>,
}

/// The health path probed on every backend.
pub fn probe_url(server: &SingleServer) -> (r: String)
    ensures
        r@ == url_of(*server, "/heartbeat"@),
{
    backend_url(server, "/heartbeat")
}

} // verus!
