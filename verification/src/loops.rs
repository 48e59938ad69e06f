//! `break N` and `continue N` inside nested loops: a signal that leaves the
//! loop body, carrying the output gathered so far, and that each enclosing
//! loop either acts on or passes outward with one level fewer.
use vstd::prelude::*;
use crate::text::{append_str, owned};

verus! {

/// What a statement of a loop body ended with.
pub enum LoopSignal {
    /// `break levels`, with the output gathered inside the loops it leaves.
    Break { levels: usize, stdout: String, stderr: String },
    /// `continue levels`, likewise.
    Continue { levels: usize, stdout: String, stderr: String },
    /// Any other error, described.
    Other(String),
}

/// What a loop does with a signal from its body.
pub enum LoopControl {
    /// Leave this loop, with the output gathered so far and the exit status.
    Break { stdout: String, stderr: String, exit_code: i32 },
    /// Go on with the next iteration of this loop.
    Continue,
    /// Pass a signal on to the enclosing loop.
    Propagate(LoopSignal),
}

/// The levels a signal still has to go, if it is a loop signal.
pub open spec fn signal_levels(s: LoopSignal) -> Option<nat> {
    match s {
        LoopSignal::Break { levels, .. } => Some(levels as nat),
        LoopSignal::Continue { levels, .. } => Some(levels as nat),
        LoopSignal::Other(_) => None,
    }
}

/// A loop's answer to a signal from its body. A break or continue signal
/// adds the output it carries to what the loop has gathered; with one level
/// left it acts on this loop, else it passes outward with one level fewer
/// and all the output gathered. Any other error passes outward as it is.
pub fn handle_loop_signal(signal: LoopSignal, stdout: &mut String, stderr: &mut String, last_exit_code: i32) -> (r: LoopControl)
    requires
        signal_levels(signal) matches Some(n) ==> n >= 1,
    ensures
        match signal {
            LoopSignal::Break { levels, stdout: out, stderr: err } => {
                &&& final(stdout)@ == old(stdout)@ + out@
                &&& final(stderr)@ == old(stderr)@ + err@
                &&& if levels == 1 {
                    r matches LoopControl::Break { stdout: o, stderr: e, exit_code } && o@ == final(stdout)@
                        && e@ == final(stderr)@ && exit_code == last_exit_code
                } else {
                    r matches LoopControl::Propagate(LoopSignal::Break { levels: l, stdout: o, stderr: e }) && l
                        == levels - 1 && o@ == final(stdout)@ && e@ == final(stderr)@
                }
            },
            LoopSignal::Continue { levels, stdout: out, stderr: err } => {
                &&& final(stdout)@ == old(stdout)@ + out@
                &&& final(stderr)@ == old(stderr)@ + err@
                &&& if levels == 1 {
                    r is Continue
                } else {
                    r matches LoopControl::Propagate(LoopSignal::Continue { levels: l, stdout: o, stderr: e })
                        && l == levels - 1 && o@ == final(stdout)@ && e@ == final(stderr)@
                }
            },
            LoopSignal::Other(m) => {
                &&& final(stdout)@ == old(stdout)@
                &&& final(stderr)@ == old(stderr)@
                &&& r matches LoopControl::Propagate(LoopSignal::Other(m2)) && m2@ == m@
            },
        },
{
    match signal {
        LoopSignal::Break { levels, stdout: out, stderr: err } => {
            append_str(stdout, out.as_str());
            append_str(stderr, err.as_str());
            if levels == 1 {
                LoopControl::Break {
                    stdout: owned(stdout.as_str()),
                    stderr: owned(stderr.as_str()),
                    exit_code: last_exit_code,
                }
            } else {
                LoopControl::Propagate(
                    LoopSignal::Break {
                        levels: levels - 1,
                        stdout: owned(stdout.as_str()),
                        stderr: owned(stderr.as_str()),
                    },
                )
            }
        },
        LoopSignal::Continue { levels, stdout: out, stderr: err } => {
            append_str(stdout, out.as_str());
            append_str(stderr, err.as_str());
            if levels == 1 {
                LoopControl::Continue
            } else {
                LoopControl::Propagate(
                    LoopSignal::Continue {
                        levels: levels - 1,
                        stdout: owned(stdout.as_str()),
                        stderr: owned(stderr.as_str()),
                    },
                )
            }
        },
        LoopSignal::Other(m) => LoopControl::Propagate(LoopSignal::Other(m)),
    }
}

} // verus!
