//! The reproducer controller: process-wide optional deterministic
//! capture of engine interactions.
//!
//! The engine itself performs the capture; this module holds the
//! lifecycle state and decides, from that state and from the engine's
//! answers, what each step does. The surrounding program mirrors the
//! `capturing` flag into an atomic so a signal handler can read it.

use vstd::prelude::*;

verus! {

/// What the startup configuration asked of the reproducer.
#[derive(Clone, Debug, PartialEq)]
pub enum CaptureRequest {
    /// Capture was not requested.
    Off,
    /// Capture was requested at the engine's default path.
    DefaultPath,
    /// Capture was requested at an explicit path.
    AtPath(String),
}

impl CaptureRequest {
    /// Whether this request asks for capture to be initialized at all.
    pub fn wants_capture(&self) -> (r: bool)
        ensures
            r == !(*self == CaptureRequest::Off),
    {
        match self {
            CaptureRequest::Off => false,
            CaptureRequest::DefaultPath => true,
            CaptureRequest::AtPath(_) => true,
        }
    }

    /// The explicit capture path this request names, if any; the
    /// default-path request and no request name none, so the engine
    /// picks its own.
    pub fn explicit_path(&self) -> (r: Option<String>)
        ensures
            r is Some <==> self is AtPath,
            *self matches CaptureRequest::AtPath(p) ==> r == Option::Some(p),
    {
        match self {
            CaptureRequest::AtPath(p) => Option::Some(p.clone()),
            _ => Option::None,
        }
    }
}

/// The process-wide reproducer lifecycle state: set at most once,
/// read by both the normal shutdown path and the crash guard.
pub struct ReproducerState {
    /// Whether initialization was attempted.
    pub initialized: bool,
    /// Whether capture is active; set only by a successful
    /// initialization, never cleared.
    pub capturing: bool,
}

/// What a finalization step must do.
#[derive(Clone, Copy, Debug, PartialEq, Eq, Structural)]
pub enum FinalizeAction {
    /// Capture was never enabled: touch nothing, log nothing.
    NoOp,
    /// Capture is active: ask the engine to materialize the artifact.
    Generate,
}

/// What finalization reports once the engine has answered.
#[derive(Clone, Debug, PartialEq)]
pub enum FinalizeOutcome {
    /// The engine reported no capture path; nothing to report.
    NoPath,
    /// The artifact was materialized at this path.
    SavedAt(String),
    /// The engine failed to materialize the artifact.
    Failed,
}

impl ReproducerState {
    /// A fresh process has no capture.
    pub fn new() -> (s: Self)
        ensures
            !s.initialized,
            !s.capturing,
    {
        ReproducerState { initialized: false, capturing: false }
    }

    /// Records the outcome of the one initialization attempt: the
    /// engine's capture call either succeeded (capture becomes active)
    /// or failed (logged by the caller; capture stays disabled).
    pub fn on_initialize(&mut self, capture_ok: bool)
        requires
            !old(self).initialized,
        ensures
            final(self).initialized,
            final(self).capturing == capture_ok,
    {
        self.initialized = true;
        self.capturing = capture_ok;
    }

    /// Decides what finalization does: a no-op unless capture was
    /// enabled, in which case the engine must materialize the artifact.
    pub fn finalize_action(&self) -> (a: FinalizeAction)
        ensures
            a == FinalizeAction::NoOp <==> !self.capturing,
            a == FinalizeAction::Generate <==> self.capturing,
    {
        if self.capturing {
            FinalizeAction::Generate
        } else {
            FinalizeAction::NoOp
        }
    }
}

/// Turns the engine's answers during an active finalization into the
/// outcome to report: no configured path means nothing to report,
/// otherwise success is logged with the path and failure as an error.
pub fn finalize_report(path: Option<String>, generated: bool) -> (r: FinalizeOutcome)
    ensures
        path is None ==> r == FinalizeOutcome::NoPath,
        path is Some && generated ==> r == FinalizeOutcome::SavedAt(path->0),
        path is Some && !generated ==> r == FinalizeOutcome::Failed,
{
    match path {
        Option::None => FinalizeOutcome::NoPath,
        Option::Some(p) => {
            if generated {
                FinalizeOutcome::SavedAt(p)
            } else {
                FinalizeOutcome::Failed
            }
        }
    }
}

} // verus!
