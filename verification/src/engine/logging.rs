//! What the engine logs for operators.
use crate::application_logging::ApplicationLogLevel;
use crate::error::{Error, ErrorKind};
use crate::text::owned;
use vstd::prelude::*;

verus! {

/// Something that is logged: how important it is, who logs it, what it is, and more about it.
#[derive(Debug, PartialEq, Eq)]
pub struct ApplicationLogEvent {
    pub level: ApplicationLogLevel,
    pub target: String,
    pub message: String,
    pub fields: Vec<(String, String)>,
}

/// What the engine logs.
pub fn engine_log(
    level: ApplicationLogLevel,
    message: &str,
    fields: Vec<(String, String)>,
) -> (r: ApplicationLogEvent)
    ensures
        r.level == level,
        r.target@ == "wardrobe_engine"@,
        r.message@ == message@,
        r.fields == fields,
{
    ApplicationLogEvent {
        level,
        target: owned("wardrobe_engine"),
        message: owned(message),
        fields,
    }
}

/// The name of a kind of error.
pub open spec fn kind_name(kind: ErrorKind) -> Seq<char> {
    match kind {
        ErrorKind::NotFound => "NotFound"@,
        ErrorKind::PermissionDenied => "PermissionDenied"@,
        ErrorKind::InvalidInput => "InvalidInput"@,
        ErrorKind::InvalidData => "InvalidData"@,
        ErrorKind::UnexpectedEof => "UnexpectedEof"@,
        ErrorKind::Other => "Other"@,
    }
}

/// What is logged of an error.
pub open spec fn error_fields(error: Error) -> Seq<(Seq<char>, Seq<char>)> {
    seq![("error_kind"@, kind_name(error.kind)), ("error"@, error.message@)]
}

/// The texts of pairs of texts.
pub open spec fn pair_texts(pairs: Seq<(String, String)>) -> Seq<(Seq<char>, Seq<char>)> {
    pairs.map_values(|p: (String, String)| (p.0@, p.1@))
}

pub fn error_log_fields(error: &Error) -> (r: Vec<(String, String)>)
    ensures
        pair_texts(r@) == error_fields(*error),
{
    let kind = match error.kind {
        ErrorKind::NotFound => "NotFound",
        ErrorKind::PermissionDenied => "PermissionDenied",
        ErrorKind::InvalidInput => "InvalidInput",
        ErrorKind::InvalidData => "InvalidData",
        ErrorKind::UnexpectedEof => "UnexpectedEof",
        ErrorKind::Other => "Other",
    };
    let mut fields: Vec<(String, String)> = Vec::new();
    fields.push((owned("error_kind"), owned(kind)));
    fields.push((owned("error"), owned(error.message.as_str())));
    assert(pair_texts(fields@) =~= error_fields(*error));
    fields
}

/// What is logged of an error tells its kind, each kind under a name of its own, and its message.
pub proof fn law_logged_errors_are_told_apart(error: Error, other: Error)
    ensures
        error_fields(error).len() == 2,
        error_fields(error)[0].0 == "error_kind"@,
        error_fields(error)[0].1 == error_fields(other)[0].1 <==> error.kind == other.kind,
        error_fields(error)[1] == ("error"@, error.message@),
{
    reveal_strlit("NotFound");
    reveal_strlit("PermissionDenied");
    reveal_strlit("InvalidInput");
    reveal_strlit("InvalidData");
    reveal_strlit("UnexpectedEof");
    reveal_strlit("Other");
    assert("NotFound"@.len() == 8 && "PermissionDenied"@.len() == 16 && "InvalidInput"@.len() == 12);
    assert("InvalidData"@.len() == 11 && "UnexpectedEof"@.len() == 13 && "Other"@.len() == 5);
}

} // verus!
