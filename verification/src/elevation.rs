//! The decisions around process privilege: reading the answer of a token
//! query, and requesting a relaunch with elevated privilege.
//!
//! The system calls themselves are the caller's; this module says what to
//! ask for and what the answers mean.

use vstd::prelude::*;

verus! {

/// The shell verb that makes the system ask for consent and start the
/// program elevated.
pub const ELEVATE_VERB: &'static str = "runas";

/// The largest launch code that still reports a failure.
pub const LAUNCH_FAILURE_MAX: isize = 32;

/// A relaunch to ask the system's shell for.
#[derive(Debug, Clone, PartialEq, Eq)]
pub struct ElevationRequest {
    pub verb: String,
    pub file: String,
    pub parameters: String,
}

/// The mathematical value of an [`ElevationRequest`].
pub struct RequestView {
    pub verb: Seq<char>,
    pub file: Seq<char>,
    pub parameters: Seq<char>,
}

impl View for ElevationRequest {
    type V = RequestView;

    open spec fn view(&self) -> RequestView {
        RequestView { verb: self.verb@, file: self.file@, parameters: self.parameters@ }
    }
}

/// What the requesting process does once the system has answered.
#[derive(Debug, Clone, Copy, PartialEq, Eq, Structural)]
pub enum ElevationOutcome {
    /// The elevated instance was started: this process must end at once,
    /// with status 0, so that only one instance stays alive. Control does
    /// not come back to whoever asked for elevation.
    Exit,
    /// The request failed or was declined: this process goes on
    /// unprivileged, and the request reports `false`.
    Stay,
}

/// The value of an optional request.
pub open spec fn opt_request(request: Option<ElevationRequest>) -> Option<RequestView> {
    match request {
        Some(r) => Some(r@),
        None => None,
    }
}

/// The relaunch to ask for, given the path of the running program.
pub open spec fn request_for(current_exe: Seq<char>) -> Option<RequestView> {
    if current_exe.len() == 0 {
        None
    } else {
        Some(RequestView { verb: ELEVATE_VERB@, file: current_exe, parameters: Seq::empty() })
    }
}

/// Whether the process is elevated, given the elevation flag of its token,
/// or `None` when the token could not be opened or queried. A failed query
/// counts as not elevated.
pub fn is_elevated(token_is_elevated: Option<u32>) -> (elevated: bool)
    ensures
        elevated == (token_is_elevated matches Some(flag) && flag != 0),
{
    match token_is_elevated {
        Some(flag) => flag != 0,
        None => false,
    }
}

/// Plans the relaunch of the running program with elevated privilege.
/// Without a program path there is nothing to launch and the request fails.
pub fn elevate_process(current_exe: &str) -> (request: Option<ElevationRequest>)
    ensures
        opt_request(request) == request_for(current_exe@),
{
    if current_exe.is_empty() {
        None
    } else {
        Some(
            ElevationRequest {
                verb: ELEVATE_VERB.to_owned(),
                file: current_exe.to_owned(),
                parameters: String::new(),
            },
        )
    }
}

/// Reads the code that the system's shell returned for the launch: a code
/// above 32 reports that the program was started.
pub fn launch_outcome(code: isize) -> (outcome: ElevationOutcome)
    ensures
        outcome == if code > LAUNCH_FAILURE_MAX {
            ElevationOutcome::Exit
        } else {
            ElevationOutcome::Stay
        },
{
    if code > LAUNCH_FAILURE_MAX {
        ElevationOutcome::Exit
    } else {
        ElevationOutcome::Stay
    }
}

} // verus!
