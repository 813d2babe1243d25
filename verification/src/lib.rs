//! Discover the IP address of a virtualization host from inside a guest and
//! check whether an X11 display server is reachable on a derived TCP port.
//!
//! The crate holds the verified logic of the tool: scanning resolver-file
//! contents for the first `nameserver` line, extracting the default route's
//! gateway from a structured route listing, parsing and formatting IP
//! addresses, computing the display port, and the retry policy of the TCP
//! probe. Reading files, running the route query and opening sockets are left
//! to the calling program, which hands this crate plain values.

use vstd::prelude::*;

pub mod errors;
pub mod ip;
pub mod probe;
pub mod render;
pub mod resolv;
pub mod route;

use crate::errors::ProbeOutcome;
use crate::errors::ResolveError;
use crate::ip::HostAddress;
use crate::probe::simulate_probe;
use crate::probe::spec_probe;
use crate::probe::AttemptOutcome;
use crate::render::is_display_output;
use crate::render::render_display;

verus! {

/// Exit code when the display was found and printed.
pub const EXIT_SUCCESS: i32 = 0;

/// Exit code reserved for "no server found": retries exhausted without a
/// hard error, nothing printed on standard output.
pub const EXIT_ABSENT: i32 = 1;

/// Exit code reserved for hard failures: resolution errors, invalid
/// configuration, unexpected faults.
pub const EXIT_FAILURE: i32 = 2;

/// The X11 protocol listens on TCP port 6000 plus the display number.
pub const DISPLAY_PORT_OFFSET: u16 = 6000;

/// Compute the TCP port for a display number, rejecting values that would
/// push the port past the 16-bit maximum.
pub fn display_port(display_number: u16) -> (r: Option<u16>)
    ensures
        DISPLAY_PORT_OFFSET + display_number <= u16::MAX ==> r == Some((DISPLAY_PORT_OFFSET + display_number) as u16),
        DISPLAY_PORT_OFFSET + display_number > u16::MAX ==> r is None,
{
    DISPLAY_PORT_OFFSET.checked_add(display_number)
}

/// Map the final probe outcome to what the process shows: the line for
/// standard output, if any, and the exit code. A reachable display prints
/// `"<address>:<display number>"` and exits with success; an unreachable
/// one prints nothing and exits with the reserved "absent" code; a hard
/// error prints nothing here (its detail goes to the error stream) and
/// exits with the failure code.
pub fn report(outcome: &ProbeOutcome, a: &HostAddress, display_number: u16) -> (r: (
    Option<String>,
    i32,
))
    ensures
        match *outcome {
            ProbeOutcome::Reachable => r.1 == EXIT_SUCCESS && (match r.0 {
                Some(s) => is_display_output(s@, *a, display_number),
                None => false,
            }),
            ProbeOutcome::Unreachable => r.0 is None && r.1 == EXIT_ABSENT,
            ProbeOutcome::Error(_) => r.0 is None && r.1 == EXIT_FAILURE,
        },
{
    match outcome {
        ProbeOutcome::Reachable => (Some(render_display(a, display_number)), EXIT_SUCCESS),
        ProbeOutcome::Unreachable => (None, EXIT_ABSENT),
        ProbeOutcome::Error(_) => (None, EXIT_FAILURE),
    }
}

/// The whole run as one decision, resolution and connection attempts given
/// as values: from the resolver's result, the display number, and how each
/// connection attempt went, to the line for standard output (if any) and
/// the exit code.
///
/// A resolver failure or a display number past the port space is a hard
/// failure; otherwise the retry policy decides over the attempts, and the
/// outcome is reported as [`report`] does.
pub fn run_decision(
    resolved: Result<HostAddress, ResolveError>,
    display_number: u16,
    outcomes: Vec<AttemptOutcome>,
    retries: u16,
) -> (r: (Option<String>, i32))
    requires
        1 <= retries,
        outcomes@.len() >= retries,
    ensures
        match resolved {
            Err(_) => r.0 is None && r.1 == EXIT_FAILURE,
            Ok(a) => if DISPLAY_PORT_OFFSET + display_number > u16::MAX {
                r.0 is None && r.1 == EXIT_FAILURE
            } else {
                match spec_probe(outcomes@, retries as nat).0 {
                    ProbeOutcome::Reachable => r.1 == EXIT_SUCCESS && (match r.0 {
                        Some(s) => is_display_output(s@, a, display_number),
                        None => false,
                    }),
                    ProbeOutcome::Unreachable => r.0 is None && r.1 == EXIT_ABSENT,
                    ProbeOutcome::Error(_) => r.0 is None && r.1 == EXIT_FAILURE,
                }
            },
        },
{
    match resolved {
        Err(_) => (None, EXIT_FAILURE),
        Ok(a) => {
            match display_port(display_number) {
                None => (None, EXIT_FAILURE),
                Some(_port) => {
                    let sim = simulate_probe(outcomes, retries);
                    report(&sim.0, &a, display_number)
                },
            }
        },
    }
}

} // verus!
