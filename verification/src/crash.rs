//! Decision logic of the crash guard.
//!
//! The guard itself is installed by the surrounding program, because
//! signal interception is inherently unverifiable; everything the
//! handler decides — the printable signal name, whether reproducer
//! finalization must run, and the reserved exit code — is computed here.

use vstd::prelude::*;

verus! {

/// The reserved exit code used exclusively by the crash guard,
/// distinct from ordinary error exit codes.
pub const CRASH_EXIT_CODE: i32 = 255;

/// The fatal fault signals the crash guard intercepts.
#[derive(Clone, Copy, Debug, PartialEq, Eq, Structural)]
pub enum FaultSignal {
    SegmentationViolation,
    BusError,
    IllegalInstruction,
    FloatingPointException,
    AbnormalTermination,
}

/// The printable name of a fault signal, as written to the diagnostic
/// stream.
pub open spec fn fault_signal_name_spec(sig: FaultSignal) -> Seq<char> {
    match sig {
        FaultSignal::SegmentationViolation => "SIGSEGV"@,
        FaultSignal::BusError => "SIGBUS"@,
        FaultSignal::IllegalInstruction => "SIGILL"@,
        FaultSignal::FloatingPointException => "SIGFPE"@,
        FaultSignal::AbnormalTermination => "SIGABRT"@,
    }
}

/// What the crash handler must do for one delivered fault signal.
pub struct CrashPlan {
    /// The signal name to write to the diagnostic stream.
    pub signal_name: &'static str,
    /// Whether reproducer finalization must be invoked (true exactly
    /// when capture was active at the time of the fault).
    pub finalize_capture: bool,
    /// The process exit code; always the reserved crash code.
    pub exit_code: i32,
}

/// Computes the crash guard's response to a fault signal.
///
/// The handler always writes the signal name and a stack trace, runs
/// reproducer finalization only if capture was active, and terminates
/// with the reserved exit code; it never attempts ordinary cleanup.
pub fn crash_plan(sig: FaultSignal, capturing: bool) -> (plan: CrashPlan)
    ensures
        plan.signal_name@ == fault_signal_name_spec(sig),
        plan.finalize_capture == capturing,
        plan.exit_code == CRASH_EXIT_CODE,
{
    let name: &'static str = match sig {
        FaultSignal::SegmentationViolation => "SIGSEGV",
        FaultSignal::BusError => "SIGBUS",
        FaultSignal::IllegalInstruction => "SIGILL",
        FaultSignal::FloatingPointException => "SIGFPE",
        FaultSignal::AbnormalTermination => "SIGABRT",
    };
    CrashPlan { signal_name: name, finalize_capture: capturing, exit_code: CRASH_EXIT_CODE }
}

} // verus!
