//! The configuration snapshot and its parsing.
//!
//! The settings arrive as one JSON blob, parsed once at startup.
//! Malformed content is non-fatal: the caller logs it and the
//! documented defaults are used. Only the fields this layer consults
//! are modeled; the rest of the blob belongs to the session logic.

use crate::reproducer::CaptureRequest;
use vstd::prelude::*;

verus! {

/// The reproducer field of the settings blob: absent, a boolean
/// switch, or an explicit capture path.
#[derive(Clone, Debug, PartialEq)]
pub enum ReproducerOption {
    /// The field was not given.
    Unset,
    /// The field was a boolean.
    Flag(bool),
    /// The field was a string naming a capture path.
    Path(String),
}

/// The immutable configuration snapshot, parsed once at startup and
/// shared across all served sessions.
#[derive(Clone, Debug, PartialEq)]
pub struct AdapterSettings {
    /// Whether and where to capture a reproducer.
    pub reproducer: ReproducerOption,
}

/// The documented default configuration, used whenever no blob is
/// given or the blob does not parse.
pub open spec fn default_settings() -> AdapterSettings {
    AdapterSettings { reproducer: ReproducerOption::Unset }
}

impl Default for AdapterSettings {
    /// The default snapshot: no reproducer capture.
    fn default() -> (s: Self)
        ensures
            s == default_settings(),
    {
        AdapterSettings { reproducer: ReproducerOption::Unset }
    }
}

/// What probing the blob's reproducer field found.
#[derive(Clone, Debug, PartialEq)]
pub enum ReproducerField {
    /// No such field in the blob.
    Absent,
    /// The field held a boolean.
    Flag(bool),
    /// The field held a string.
    Path(String),
    /// The field held something else: the blob does not deserialize
    /// as settings at all.
    Invalid,
}

/// Whether a text parses as a JSON document; parsing depends on the
/// text alone.
pub uninterp spec fn json_doc_ok(s: Seq<char>) -> bool;

/// What the reproducer field of a valid JSON blob holds; for a fixed
/// text this is one fixed answer, since probing is a function of the
/// text alone.
pub uninterp spec fn reproducer_field_of(s: Seq<char>) -> ReproducerField;

/// Declares serde_json::Value, the parsed JSON document the probe
/// below walks; the value itself is opaque here.
#[verifier::external_type_specification]
#[verifier::external_body]
pub struct ExJsonValue(serde_json::Value);

/// Relies on serde_json::from_str for serde_json::Value: whether the
/// text is accepted as a JSON document is a function of the text
/// alone.
#[verifier::external_body]
fn parse_json(s: &str) -> (r: Option<serde_json::Value>)
    ensures
        r is Some <==> json_doc_ok(s@),
{
    match serde_json::from_str::<serde_json::Value>(s) {
        Ok(v) => Option::Some(v),
        Err(_) => Option::None,
    }
}

/// Relies on serde_json::from_str and serde_json::Value's is_object,
/// get, as_bool and as_str: what the blob's reproducer field holds
/// is a function of the text alone. A document that is not an object
/// folds into the invalid shape, as it does not deserialize as
/// settings.
#[verifier::external_body]
fn probe_reproducer_text(s: &str) -> (r: ReproducerField)
    requires
        json_doc_ok(s@),
    ensures
        r == reproducer_field_of(s@),
{
    match serde_json::from_str::<serde_json::Value>(s) {
        Ok(v) if v.is_object() => match v.get("reproducer") {
            None => ReproducerField::Absent,
            Some(rv) => match (rv.as_bool(), rv.as_str()) {
                (Some(b), _) => ReproducerField::Flag(b),
                (None, Some(p)) => ReproducerField::Path(String::from(p)),
                (None, None) => ReproducerField::Invalid,
            },
        },
        _ => ReproducerField::Invalid,
    }
}

/// The snapshot each shape of the reproducer field maps to: present
/// field values one-to-one, an absent field or a field of the wrong
/// kind to the defaults (the latter because the blob then does not
/// deserialize as settings).
pub open spec fn settings_of_field(field: ReproducerField) -> AdapterSettings {
    match field {
        ReproducerField::Absent => default_settings(),
        ReproducerField::Flag(b) => AdapterSettings { reproducer: ReproducerOption::Flag(b) },
        ReproducerField::Path(p) => AdapterSettings { reproducer: ReproducerOption::Path(p) },
        ReproducerField::Invalid => default_settings(),
    }
}

/// Builds the configuration snapshot from what the blob's reproducer
/// field held, exactly as `settings_of_field` maps it.
pub fn settings_from_reproducer_field(field: ReproducerField) -> (s: AdapterSettings)
    ensures
        s == settings_of_field(field),
{
    match field {
        ReproducerField::Absent => AdapterSettings { reproducer: ReproducerOption::Unset },
        ReproducerField::Flag(b) => AdapterSettings { reproducer: ReproducerOption::Flag(b) },
        ReproducerField::Path(p) => AdapterSettings { reproducer: ReproducerOption::Path(p) },
        ReproducerField::Invalid => AdapterSettings { reproducer: ReproducerOption::Unset },
    }
}

/// Parses the startup settings blob. No blob or a blob that is not
/// valid JSON produces the documented defaults and no fault; a valid
/// blob maps its reproducer field into the snapshot exactly as
/// `settings_of_field` says, with a non-object document or a field
/// of the wrong kind folding into the defaults.
pub fn parse_settings(blob: Option<&str>) -> (s: AdapterSettings)
    ensures
        blob is None ==> s == default_settings(),
        blob is Some && !json_doc_ok(blob->0@) ==> s == default_settings(),
        blob is Some && json_doc_ok(blob->0@) ==> s == settings_of_field(
            reproducer_field_of(blob->0@),
        ),
{
    match blob {
        Option::None => AdapterSettings { reproducer: ReproducerOption::Unset },
        Option::Some(text) => match parse_json(text) {
            Option::None => AdapterSettings { reproducer: ReproducerOption::Unset },
            Option::Some(_) => {
                let field = probe_reproducer_text(text);
                settings_from_reproducer_field(field)
            },
        },
    }
}

/// Decides from the snapshot whether reproducer capture is
/// initialized at startup, and at which path: a true flag asks for
/// the engine's default path, a path string for that path, and
/// anything else leaves capture off.
pub fn reproducer_choice(s: &AdapterSettings) -> (r: CaptureRequest)
    ensures
        s.reproducer == ReproducerOption::Unset ==> r == CaptureRequest::Off,
        s.reproducer matches ReproducerOption::Flag(b) ==> r == (if b {
            CaptureRequest::DefaultPath
        } else {
            CaptureRequest::Off
        }),
        s.reproducer matches ReproducerOption::Path(p) ==> r == CaptureRequest::AtPath(p),
{
    match &s.reproducer {
        ReproducerOption::Unset => CaptureRequest::Off,
        ReproducerOption::Flag(b) => {
            if *b {
                CaptureRequest::DefaultPath
            } else {
                CaptureRequest::Off
            }
        },
        ReproducerOption::Path(p) => CaptureRequest::AtPath(p.clone()),
    }
}

} // verus!
