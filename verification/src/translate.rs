//! The segment translator: one request per unit, one classified outcome
//! per request.
//!
//! This module builds the request URL for a unit and classifies what came
//! back. The network call itself happens outside the crate; its result is
//! handed in as an [`HttpReply`] of plain values. Classification follows a
//! fixed priority: transport failure is transient; status 403 is
//! rate-limited; any other error status is reported with the server's
//! status text; a success whose body cannot be read, is not JSON, or
//! lacks the translated text at the fixed index path is a malformed
//! response; otherwise the unit is translated, with a single trailing
//! space put back when the unit's span ended in whitespace.

use vstd::prelude::*;
use vstd::string::StringExecFns;
use crate::outcome::{FailureKind, SpecOutcome, UnitOutcome};
use crate::segment::Unit;

verus! {

/// What came back for one unit's request, as plain values.
pub enum HttpReply {
    /// No request went out: the unit's text could not be escaped into a
    /// URL.
    NotSent,
    /// The request got no response: transport failure or timeout.
    NoResponse,
    /// A response arrived. `body` is the response text, or nothing when
    /// it could not be read.
    Status { status: u16, status_text: String, body: Option<String> },
}

/// Mathematical form of an [`HttpReply`].
pub enum SpecReply {
    NotSent,
    NoResponse,
    Status { status: u16, status_text: Seq<char>, body: Option<Seq<char>> },
}

impl View for HttpReply {
    type V = SpecReply;

    open spec fn view(&self) -> SpecReply {
        match self {
            HttpReply::NotSent => SpecReply::NotSent,
            HttpReply::NoResponse => SpecReply::NoResponse,
            HttpReply::Status { status, status_text, body } => SpecReply::Status {
                status: *status,
                status_text: status_text@,
                body: match body {
                    Some(b) => Some(b@),
                    None => None,
                },
            },
        }
    }
}

/// The views of a list of replies.
pub open spec fn reply_views(rs: Seq<HttpReply>) -> Seq<SpecReply> {
    rs.map_values(|r: HttpReply| r@)
}

/// Description of a unit whose text could not be escaped into a URL.
pub open spec fn msg_escape_failed() -> Seq<char> {
    "URL message escaping failed."@
}

/// Description of a unit whose request got no response.
pub open spec fn msg_no_response() -> Seq<char> {
    "Failed to get response from translation server."@
}

/// Description of a unit whose response body could not be read.
pub open spec fn msg_body_unread() -> Seq<char> {
    "Failed to get text for HTTP response body."@
}

/// Description of a unit whose response body held no translation.
pub open spec fn msg_bad_format() -> Seq<char> {
    "Received invalid response format from server."@
}

/// Description of a unit refused because the translation quota is used up.
pub open spec fn msg_over_limit() -> Seq<char> {
    "Server translation limit reached."@
}

/// What `urlparse::quote` with an empty extra-safe set returns for this
/// text: the percent-escaped form, or nothing when assembling it back
/// into a string fails.
pub uninterp spec fn percent_quoted(s: Seq<char>) -> Option<Seq<char>>;

/// Relies on `urlparse::quote`: percent-escapes every byte of the text's
/// UTF-8 form except letters, digits and `_ . -`, with an empty extra
/// safe set here; the outcome depends on the text alone.
#[verifier::external_body]
fn quote_text(s: &str) -> (r: Option<String>)
    ensures
        (r is Some) == (percent_quoted(s@) is Some),
        r is Some ==> r->0@ == percent_quoted(s@)->0,
{
    urlparse::quote(s, b"").ok()
}

/// The translated text a response body holds: the string at the fixed
/// index path (first element of the first element of the top-level
/// array) of the parsed JSON, or nothing when the body is not JSON or
/// holds no string there; a function of the body alone.
pub uninterp spec fn extracted_translation(body: Seq<char>) -> Option<Seq<char>>;

/// Relies on `serde_json::from_str` and `serde_json::Value`: shared
/// indexing by `0` steps into an array and yields null anywhere else, and
/// `as_str` yields the string a value holds, so the call returns the
/// string at path 0,0,0 of the parsed body, if there is one.
#[verifier::external_body]
fn extract_translation(body: &str) -> (r: Option<String>)
    ensures
        (r is Some) == (extracted_translation(body@) is Some),
        r is Some ==> r->0@ == extracted_translation(body@)->0,
{
    match serde_json::from_str::<serde_json::Value>(body) {
        Ok(v) => v[0][0][0].as_str().map(|s| s.to_string()),
        Err(_) => None,
    }
}

/// The full request URL for one unit: the fixed endpoint and query
/// skeleton around the source code, target code and escaped text.
pub open spec fn request_url(source: Seq<char>, target: Seq<char>, escaped: Seq<char>) -> Seq<
    char,
> {
    "https://translate.googleapis.com/translate_a/single?client=gtx&sl="@ + source + "&tl="@
        + target + "&dt=t&q="@ + escaped
}

/// Builds the request URL for one unit's text, percent-escaping the text;
/// nothing is returned when escaping fails.
pub fn build_request_url(text: &str, source: &str, target: &str) -> (r: Option<String>)
    ensures
        (r is Some) == (percent_quoted(text@) is Some),
        r matches Some(u) ==> u@ == request_url(source@, target@, percent_quoted(text@)->0),
{
    match quote_text(text) {
        Some(escaped) => {
            let mut url = String::new();
            url.append("https://translate.googleapis.com/translate_a/single?client=gtx&sl=");
            url.append(source);
            url.append("&tl=");
            url.append(target);
            url.append("&dt=t&q=");
            url.append(escaped.as_str());
            Some(url)
        },
        None => None,
    }
}

/// A success status.
pub open spec fn is_success_status(status: u16) -> bool {
    200 <= status <= 299
}

/// The outcome for one unit, as a function of its trailing-space flag and
/// of what came back for it.
pub open spec fn spec_classify(trailing_space: bool, reply: SpecReply) -> SpecOutcome {
    match reply {
        SpecReply::NotSent => SpecOutcome::Failed(FailureKind::Malformed, msg_escape_failed()),
        SpecReply::NoResponse => SpecOutcome::Failed(FailureKind::Transient, msg_no_response()),
        SpecReply::Status { status, status_text, body } => {
            if !is_success_status(status) {
                if status == 403 {
                    SpecOutcome::Failed(FailureKind::RateLimited, msg_over_limit())
                } else {
                    SpecOutcome::Failed(FailureKind::Malformed, status_text)
                }
            } else {
                match body {
                    None => SpecOutcome::Failed(FailureKind::Malformed, msg_body_unread()),
                    Some(b) => match extracted_translation(b) {
                        None => SpecOutcome::Failed(FailureKind::Malformed, msg_bad_format()),
                        Some(t) => SpecOutcome::Translated(
                            if trailing_space {
                                t + " "@
                            } else {
                                t
                            },
                        ),
                    },
                }
            }
        },
    }
}

/// Classifies what came back for one unit, by the fixed priority order.
pub fn classify_reply(unit: &Unit, reply: &HttpReply) -> (o: UnitOutcome)
    ensures
        o@ == spec_classify(unit.trailing_space, reply@),
{
    match reply {
        HttpReply::NotSent => UnitOutcome::Failed(
            FailureKind::Malformed,
            "URL message escaping failed.".to_owned(),
        ),
        HttpReply::NoResponse => UnitOutcome::Failed(
            FailureKind::Transient,
            "Failed to get response from translation server.".to_owned(),
        ),
        HttpReply::Status { status, status_text, body } => {
            if !(200 <= *status && *status <= 299) {
                if *status == 403 {
                    UnitOutcome::Failed(
                        FailureKind::RateLimited,
                        "Server translation limit reached.".to_owned(),
                    )
                } else {
                    UnitOutcome::Failed(FailureKind::Malformed, status_text.clone())
                }
            } else {
                match body {
                    None => UnitOutcome::Failed(
                        FailureKind::Malformed,
                        "Failed to get text for HTTP response body.".to_owned(),
                    ),
                    Some(b) => match extract_translation(b.as_str()) {
                        None => UnitOutcome::Failed(
                            FailureKind::Malformed,
                            "Received invalid response format from server.".to_owned(),
                        ),
                        Some(t) => {
                            let mut t = t;
                            if unit.trailing_space {
                                t.append(" ");
                            }
                            UnitOutcome::Translated(t)
                        },
                    },
                }
            }
        },
    }
}

} // verus!
