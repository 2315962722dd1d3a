//! Decisions of the HTTP contract: which error a request meets, with which
//! status and stable code.

use vstd::prelude::*;

use crate::sampling::snapshot::Section;

verus! {

/// Errors surfaced by HTTP handlers, split by the status a caller can react
/// to.
#[derive(Debug, PartialEq, Eq)]
pub enum ApiError {
    /// The requested resource does not exist.
    NotFound,
    /// The resource exists but not for this method.
    MethodNotAllowed,
    /// No snapshot has been collected yet.
    NotReady,
    /// The requested metric could not be collected, for the reason given.
    Unavailable(String),
}

/// Stable error codes clients may match on.
#[derive(Clone, Copy, Debug, PartialEq, Eq)]
pub enum ErrorCode {
    /// The requested resource does not exist.
    NotFound,
    /// The method is not supported for this resource.
    MethodNotAllowed,
    /// No snapshot has been collected yet.
    NotReady,
    /// The requested metric is unavailable.
    Unavailable,
}

/// The HTTP status of an error.
pub open spec fn status_of(e: ApiError) -> u16 {
    match e {
        ApiError::NotFound => 404,
        ApiError::MethodNotAllowed => 405,
        ApiError::NotReady => 503,
        ApiError::Unavailable(_) => 503,
    }
}

/// The stable code of an error.
pub open spec fn code_of(e: ApiError) -> ErrorCode {
    match e {
        ApiError::NotFound => ErrorCode::NotFound,
        ApiError::MethodNotAllowed => ErrorCode::MethodNotAllowed,
        ApiError::NotReady => ErrorCode::NotReady,
        ApiError::Unavailable(_) => ErrorCode::Unavailable,
    }
}

/// The wire name of a code.
pub open spec fn code_name(c: ErrorCode) -> Seq<char> {
    match c {
        ErrorCode::NotFound => "not_found"@,
        ErrorCode::MethodNotAllowed => "method_not_allowed"@,
        ErrorCode::NotReady => "not_ready"@,
        ErrorCode::Unavailable => "unavailable"@,
    }
}

/// The human-readable message of an error; for an unavailable metric, the
/// reason it could not be collected.
pub open spec fn message_of(e: ApiError) -> Seq<char> {
    match e {
        ApiError::NotFound => "resource not found"@,
        ApiError::MethodNotAllowed => "method not allowed"@,
        ApiError::NotReady => "no snapshot has been collected yet"@,
        ApiError::Unavailable(reason) => reason@,
    }
}

impl ErrorCode {
    /// The machine-readable name of this code.
    pub fn as_str(&self) -> (r: &'static str)
        ensures
            r@ == code_name(*self),
    {
        match self {
            ErrorCode::NotFound => "not_found",
            ErrorCode::MethodNotAllowed => "method_not_allowed",
            ErrorCode::NotReady => "not_ready",
            ErrorCode::Unavailable => "unavailable",
        }
    }
}

impl ApiError {
    /// The HTTP status code of this error.
    pub fn status(&self) -> (r: u16)
        ensures
            r == status_of(*self),
    {
        match self {
            ApiError::NotFound => 404,
            ApiError::MethodNotAllowed => 405,
            ApiError::NotReady => 503,
            ApiError::Unavailable(_) => 503,
        }
    }

    /// The stable code of this error.
    pub fn code(&self) -> (r: ErrorCode)
        ensures
            r == code_of(*self),
    {
        match self {
            ApiError::NotFound => ErrorCode::NotFound,
            ApiError::MethodNotAllowed => ErrorCode::MethodNotAllowed,
            ApiError::NotReady => ErrorCode::NotReady,
            ApiError::Unavailable(_) => ErrorCode::Unavailable,
        }
    }

    /// The human-readable message of this error.
    pub fn message(&self) -> (r: String)
        ensures
            r@ == message_of(*self),
    {
        match self {
            ApiError::NotFound => "resource not found".to_owned(),
            ApiError::MethodNotAllowed => "method not allowed".to_owned(),
            ApiError::NotReady => "no snapshot has been collected yet".to_owned(),
            ApiError::Unavailable(reason) => reason.clone(),
        }
    }
}

/// The metric of an available section, or the unavailable error carrying its
/// reason.
pub fn section_value<T>(section: Section<T>) -> (r: Result<T, ApiError>)
    ensures
        match section {
            Section::Available { value } => r == Ok::<T, ApiError>(value),
            Section::Unavailable { reason } => r == Err::<T, ApiError>(
                ApiError::Unavailable(reason),
            ),
        },
{
    match section {
        Section::Available { value } => Ok(value),
        Section::Unavailable { reason } => Err(ApiError::Unavailable(reason)),
    }
}

/// The metric that a request for one section of the latest snapshot is
/// answered with: not ready while no snapshot exists, otherwise the section's
/// value or the reason it is unavailable.
pub fn metric_from_snapshot<T>(section: Option<Section<T>>) -> (r: Result<T, ApiError>)
    ensures
        match section {
            None => r == Err::<T, ApiError>(ApiError::NotReady),
            Some(Section::Available { value }) => r == Ok::<T, ApiError>(value),
            Some(Section::Unavailable { reason }) => r == Err::<T, ApiError>(
                ApiError::Unavailable(reason),
            ),
        },
{
    match section {
        None => Err(ApiError::NotReady),
        Some(s) => section_value(s),
    }
}

/// Every error of the same kind is answered with the same status and code,
/// and an unavailable metric is answered with its reason.
pub proof fn errors_map_to_stable_codes(e: ApiError)
    ensures
        code_of(e) == ErrorCode::NotFound <==> status_of(e) == 404,
        code_of(e) == ErrorCode::MethodNotAllowed <==> status_of(e) == 405,
        code_of(e) == ErrorCode::NotReady ==> status_of(e) == 503,
        code_of(e) == ErrorCode::Unavailable ==> status_of(e) == 503,
        e matches ApiError::Unavailable(reason) ==> message_of(e) == reason@,
{
}

/// Each kind of error has its documented status and code: a missing
/// resource 404 `not_found`, a wrong method 405 `method_not_allowed`, no
/// snapshot yet 503 `not_ready`, an unavailable metric 503 `unavailable`;
/// the four codes are distinct.
pub proof fn each_error_has_its_documented_status_and_code(e: ApiError)
    ensures
        e is NotFound ==> status_of(e) == 404 && code_name(code_of(e)) == "not_found"@,
        e is MethodNotAllowed ==> status_of(e) == 405 && code_name(code_of(e))
            == "method_not_allowed"@,
        e is NotReady ==> status_of(e) == 503 && code_name(code_of(e)) == "not_ready"@,
        e is Unavailable ==> status_of(e) == 503 && code_name(code_of(e)) == "unavailable"@,
        forall|c: ErrorCode, d: ErrorCode| #[trigger] code_name(c) == #[trigger] code_name(d) ==> c
            == d,
{
    reveal_strlit("not_found");
    reveal_strlit("method_not_allowed");
    reveal_strlit("not_ready");
    reveal_strlit("unavailable");
    assert forall|c: ErrorCode, d: ErrorCode| #[trigger] code_name(c) == #[trigger] code_name(d)
        implies c == d by {
        if code_name(c) == code_name(d) && c != d {
            assert(code_name(c).len() == code_name(d).len());
            assert(code_name(c)[4] == code_name(d)[4]);
        }
    }
}

} // verus!
