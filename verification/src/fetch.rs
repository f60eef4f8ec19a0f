//! What a download brought back, and what the library makes of it.
//!
//! The request itself is made by the caller; the library is handed the
//! outcome as plain values.

use vstd::prelude::*;
use vstd::string::StringExecFns;
use crate::text::{decimal, decimal_text};

verus! {

/// The name that identifies this client to the servers it asks.
pub const USER_AGENT: &'static str = "curator-app";

/// How long a request may take, in seconds.
pub const TIMEOUT_SECONDS: u64 = 30;

/// The outcome of one request.
#[derive(Debug)]
pub enum Fetched {
    /// The server answered.
    Reply { status: u16, body: String },
    /// No answer came: the transport failed or the time ran out.
    Failed { detail: String },
}

/// Why a template could not be had.
#[derive(Debug)]
pub enum FetchError {
    /// The server answered with a status outside 200 to 299.
    TemplateNotFound { identifier: String, status: u16, reason: String },
    /// No answer came.
    Network { identifier: String, detail: String },
}

/// The reason phrase that `StatusCode::canonical_reason` gives for the status
/// code `status`: `None` where it gives none, or where `status` is no status
/// code at all.
pub uninterp spec fn canonical_reason(status: u16) -> Option<Seq<char>>;

/// Calls `StatusCode::from_u16` and, on the status code that it gives,
/// `StatusCode::canonical_reason`, both of the crate `http` as `reqwest`
/// hands it on. The phrase is looked up in a fixed table; the contract gives
/// the result its name and claims nothing else about it.
#[verifier::external_body]
fn reason_phrase(status: u16) -> (reason: Option<String>)
    ensures
        reason is Some <==> canonical_reason(status) is Some,
        reason is Some ==> canonical_reason(status) == Some(reason->0@),
{
    let code = reqwest::StatusCode::from_u16(status).ok()?;
    code.canonical_reason().map(|phrase| phrase.to_string())
}

/// Whether a status says that the request succeeded.
pub open spec fn is_success(status: u16) -> bool {
    200 <= status < 300
}

/// The words for a status that has no reason phrase.
pub open spec fn unknown_reason() -> Seq<char> {
    "Unknown error"@
}

/// The reason recorded for a status.
pub open spec fn reason_of(status: u16) -> Seq<char> {
    match canonical_reason(status) {
        Some(phrase) => phrase,
        None => unknown_reason(),
    }
}

/// A `FetchError` as the contracts see it.
pub enum FetchErrorView {
    TemplateNotFound { identifier: Seq<char>, status: u16, reason: Seq<char> },
    Network { identifier: Seq<char>, detail: Seq<char> },
}

impl View for FetchError {
    type V = FetchErrorView;

    open spec fn view(&self) -> FetchErrorView {
        match self {
            FetchError::TemplateNotFound { identifier, status, reason } => {
                FetchErrorView::TemplateNotFound {
                    identifier: identifier@,
                    status: *status,
                    reason: reason@,
                }
            },
            FetchError::Network { identifier, detail } => FetchErrorView::Network {
                identifier: identifier@,
                detail: detail@,
            },
        }
    }
}

/// What a refused request is reported as, given the reason phrase that was
/// looked up for its status.
pub fn refusal(identifier: &str, status: u16, phrase: Option<String>) -> (error: FetchError)
    ensures
        error@ == (FetchErrorView::TemplateNotFound {
            identifier: identifier@,
            status,
            reason: match phrase {
                Some(words) => words@,
                None => unknown_reason(),
            },
        }),
{
    let reason = match phrase {
        Some(words) => words,
        None => "Unknown error".to_owned(),
    };
    FetchError::TemplateNotFound { identifier: identifier.to_owned(), status, reason }
}

/// The text of the template `identifier`, out of what the request for it
/// brought back: the body of a reply with a status from 200 to 299; else the
/// error that says what went wrong.
pub fn receive(identifier: &str, fetched: Fetched) -> (text: Result<String, FetchError>)
    ensures
        match fetched {
            Fetched::Reply { status, body } => if is_success(status) {
                text == Ok::<String, FetchError>(body)
            } else {
                text is Err && text->Err_0@ == (FetchErrorView::TemplateNotFound {
                    identifier: identifier@,
                    status,
                    reason: reason_of(status),
                })
            },
            Fetched::Failed { detail } => text is Err && text->Err_0@ == (FetchErrorView::Network {
                identifier: identifier@,
                detail: detail@,
            }),
        },
{
    match fetched {
        Fetched::Reply { status, body } => {
            if 200 <= status && status < 300 {
                Ok(body)
            } else {
                Err(refusal(identifier, status, reason_phrase(status)))
            }
        },
        Fetched::Failed { detail } => Err(
            FetchError::Network { identifier: identifier.to_owned(), detail },
        ),
    }
}

/// The message for an error, where `what` says what was asked for: for a
/// refused request `Failed to download `, `what`, the identifier in single
/// quotes, `: HTTP `, the status, ` - ` and the reason; for a request without
/// an answer, the transport's own words.
pub open spec fn message_text(error: FetchErrorView, what: Seq<char>) -> Seq<char> {
    match error {
        FetchErrorView::TemplateNotFound { identifier, status, reason } => {
            "Failed to download "@ + what + "'"@ + identifier + "': HTTP "@ + decimal_text(
                status as int,
            ) + " - "@ + reason
        },
        FetchErrorView::Network { identifier, detail } => detail,
    }
}

impl FetchError {
    /// The message to show for this error.
    pub fn message(&self, what: &str) -> (text: String)
        ensures
            text@ == message_text(self@, what@),
    {
        match self {
            FetchError::TemplateNotFound { identifier, status, reason } => {
                let mut text = "Failed to download ".to_owned();
                text.append(what);
                text.append("'");
                text.append(identifier.as_str());
                text.append("': HTTP ");
                text.append(decimal(*status as i64).as_str());
                text.append(" - ");
                text.append(reason.as_str());
                text
            },
            FetchError::Network { identifier, detail } => detail.clone(),
        }
    }
}

} // verus!
