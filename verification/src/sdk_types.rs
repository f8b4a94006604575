use vstd::prelude::*;

verus! {

/// The server's answer to a login.
#[derive(Clone, Debug)]
pub struct LoginResponse {
    pub iuoc: u128,
    pub fwau: u128,
    pub quality_band: String,
    pub frame: String,
    pub message: String,
}

/// The server's status report.
#[derive(Clone, Debug)]
pub struct StatusResponse {
    pub tick: u64,
    pub dt_ms: u16,
    pub entities: usize,
    pub fwau_count: usize,
    pub ruleset: String,
}

/// The server's answer to a consent grant.
#[derive(Clone, Debug)]
pub struct ConsentResponse {
    pub pact: String,
    pub granted: bool,
    pub has_consent: bool,
}

} // verus!
