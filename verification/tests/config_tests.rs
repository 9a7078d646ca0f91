use codelldb::crash::{crash_plan, FaultSignal, CRASH_EXIT_CODE};
use codelldb::error::AdapterError;
use codelldb::reproducer::{
    finalize_report, CaptureRequest, FinalizeAction, FinalizeOutcome, ReproducerState,
};
use codelldb::settings::{
    parse_settings, reproducer_choice, AdapterSettings, ReproducerOption,
};

#[test]
fn settings_absent_blob_gives_defaults() {
    let s = parse_settings(None);
    assert_eq!(s, AdapterSettings::default());
    assert_eq!(s.reproducer, ReproducerOption::Unset);
}

#[test]
fn settings_invalid_json_gives_defaults() {
    let s = parse_settings(Some("{not json"));
    assert_eq!(s, AdapterSettings::default());
}

#[test]
fn settings_non_object_gives_defaults() {
    let s = parse_settings(Some("[1, 2, 3]"));
    assert_eq!(s, AdapterSettings::default());
}

#[test]
fn settings_reproducer_flag_true() {
    let s = parse_settings(Some("{\"reproducer\": true}"));
    assert_eq!(s.reproducer, ReproducerOption::Flag(true));
}

#[test]
fn settings_reproducer_flag_false() {
    let s = parse_settings(Some("{\"reproducer\": false}"));
    assert_eq!(s.reproducer, ReproducerOption::Flag(false));
}

#[test]
fn settings_reproducer_path() {
    let s = parse_settings(Some("{\"reproducer\": \"/tmp/capture\"}"));
    assert_eq!(s.reproducer, ReproducerOption::Path("/tmp/capture".to_string()));
}

#[test]
fn settings_reproducer_missing_field() {
    let s = parse_settings(Some("{\"sourceLanguages\": [\"rust\"]}"));
    assert_eq!(s.reproducer, ReproducerOption::Unset);
}

#[test]
fn settings_reproducer_wrong_kind_gives_defaults() {
    let s = parse_settings(Some("{\"reproducer\": 5}"));
    assert_eq!(s, AdapterSettings::default());
}

#[test]
fn capture_choice_follows_the_field() {
    let off = AdapterSettings { reproducer: ReproducerOption::Unset };
    assert_eq!(reproducer_choice(&off), CaptureRequest::Off);
    let flag_off = AdapterSettings { reproducer: ReproducerOption::Flag(false) };
    assert_eq!(reproducer_choice(&flag_off), CaptureRequest::Off);
    let flag_on = AdapterSettings { reproducer: ReproducerOption::Flag(true) };
    assert_eq!(reproducer_choice(&flag_on), CaptureRequest::DefaultPath);
    let at = AdapterSettings { reproducer: ReproducerOption::Path("p".to_string()) };
    assert_eq!(reproducer_choice(&at), CaptureRequest::AtPath("p".to_string()));
}

#[test]
fn capture_request_wants_capture() {
    assert!(!CaptureRequest::Off.wants_capture());
    assert!(CaptureRequest::DefaultPath.wants_capture());
    assert!(CaptureRequest::AtPath("p".to_string()).wants_capture());
}

#[test]
fn finalize_is_noop_without_initialization() {
    let s = ReproducerState::new();
    assert_eq!(s.finalize_action(), FinalizeAction::NoOp);
}

#[test]
fn finalize_is_noop_after_failed_initialization() {
    let mut s = ReproducerState::new();
    s.on_initialize(false);
    assert_eq!(s.finalize_action(), FinalizeAction::NoOp);
}

#[test]
fn finalize_generates_after_successful_initialization() {
    let mut s = ReproducerState::new();
    s.on_initialize(true);
    assert_eq!(s.finalize_action(), FinalizeAction::Generate);
}

#[test]
fn finalize_report_outcomes() {
    assert_eq!(finalize_report(None, true), FinalizeOutcome::NoPath);
    assert_eq!(
        finalize_report(Some("/tmp/r".to_string()), true),
        FinalizeOutcome::SavedAt("/tmp/r".to_string())
    );
    assert_eq!(finalize_report(Some("/tmp/r".to_string()), false), FinalizeOutcome::Failed);
}

#[test]
fn crash_plan_uses_reserved_exit_code() {
    assert_eq!(CRASH_EXIT_CODE, 255);
    let plan = crash_plan(FaultSignal::SegmentationViolation, false);
    assert_eq!(plan.exit_code, 255);
    assert_eq!(plan.signal_name, "SIGSEGV");
    assert!(!plan.finalize_capture);
}

#[test]
fn crash_plan_finalizes_only_when_capturing() {
    let plan = crash_plan(FaultSignal::AbnormalTermination, true);
    assert!(plan.finalize_capture);
    assert_eq!(plan.signal_name, "SIGABRT");
    assert_eq!(plan.exit_code, 255);
}

#[test]
fn crash_plan_signal_names() {
    assert_eq!(crash_plan(FaultSignal::BusError, false).signal_name, "SIGBUS");
    assert_eq!(crash_plan(FaultSignal::IllegalInstruction, false).signal_name, "SIGILL");
    assert_eq!(crash_plan(FaultSignal::FloatingPointException, false).signal_name, "SIGFPE");
}

#[test]
fn error_names_and_scope() {
    assert_eq!(AdapterError::Protocol.name(), "protocol error");
    assert_eq!(AdapterError::ConnectionClosed.name(), "connection closed");
    assert_eq!(AdapterError::Transport.name(), "transport error");
    assert_eq!(AdapterError::Config.name(), "config error");
    assert_eq!(AdapterError::Bootstrap.name(), "bootstrap error");
    assert!(AdapterError::Protocol.is_connection_scoped());
    assert!(AdapterError::ConnectionClosed.is_connection_scoped());
    assert!(!AdapterError::Transport.is_connection_scoped());
    assert!(!AdapterError::Config.is_connection_scoped());
}

#[test]
fn capture_request_explicit_path() {
    assert_eq!(CaptureRequest::Off.explicit_path(), None);
    assert_eq!(CaptureRequest::DefaultPath.explicit_path(), None);
    assert_eq!(
        CaptureRequest::AtPath("/tmp/cap".to_string()).explicit_path(),
        Some("/tmp/cap".to_string())
    );
}
