//! Failures of the application as a whole and of single requests.

use std::sync::Arc;
use vstd::prelude::*;

use crate::text;

verus! {

/// Application-level failures that end the process, each with its message.
#[derive(Debug, PartialEq, Eq)]
pub enum AppError {
    /// The configuration cannot be used.
    Config(String),
    /// An input or output operation failed.
    Io(String),
    /// The metrics registry could not be set up.
    Metrics(String),
}

/// Request-scoped failures, answered to the client that sent the request.
#[derive(Debug, PartialEq, Eq)]
pub enum ProxyError {
    /// No route matches the path of the request.
    NoMatchingUpstream { path: String },
    /// The rewritten URI is not one.
    InvalidUri { reason: String },
    /// The exchange with the upstream failed.
    Upstream { upstream: Arc<str>, source: String },
    /// The request body could not be read.
    BodyRead { reason: String },
    /// The upstream did not answer in time.
    UpstreamTimeout { upstream: Arc<str> },
    /// The request body exceeds the limit of its route.
    BodyTooLarge { limit: usize },
}

impl AppError {
    /// A configuration failure for the given reason.
    pub open spec fn is_config(self, reason: Seq<char>) -> bool {
        self matches AppError::Config(text) && text@ == reason
    }

    /// The text of the failure, as it is logged.
    pub open spec fn message_text(self) -> Seq<char> {
        match self {
            AppError::Config(reason) => "configuration error: "@ + reason@,
            AppError::Io(reason) => reason@,
            AppError::Metrics(reason) => reason@,
        }
    }

    /// The text of the failure, as it is logged.
    pub fn message(&self) -> (r: String)
        ensures
            r@ == self.message_text(),
    {
        match self {
            AppError::Config(reason) => {
                let mut r = String::from_str("configuration error: ");
                r.append(reason.as_str());
                r
            },
            AppError::Io(reason) => reason.clone(),
            AppError::Metrics(reason) => reason.clone(),
        }
    }
}

impl ProxyError {
    /// The text of the failure, as it is logged.
    pub open spec fn message_text(self) -> Seq<char> {
        match self {
            ProxyError::NoMatchingUpstream { path } => "no upstream configured for path "@ + path@,
            ProxyError::InvalidUri { reason } => "failed to build upstream uri: "@ + reason@,
            ProxyError::Upstream { upstream, source } => "upstream '"@ + upstream@
                + "' request failed: "@ + source@,
            ProxyError::BodyRead { reason } => "failed to read request body: "@ + reason@,
            ProxyError::UpstreamTimeout { upstream } => "upstream '"@ + upstream@
                + "' timed out"@,
            ProxyError::BodyTooLarge { limit } => "request body too large (limit "@
                + text::decimal(limit as nat) + " bytes)"@,
        }
    }

    /// The HTTP status with which the client is answered.
    pub open spec fn status_code(self) -> u16 {
        match self {
            ProxyError::NoMatchingUpstream { .. } => 404,
            ProxyError::InvalidUri { .. } => 502,
            ProxyError::Upstream { .. } => 502,
            ProxyError::BodyRead { .. } => 400,
            ProxyError::UpstreamTimeout { .. } => 504,
            ProxyError::BodyTooLarge { .. } => 413,
        }
    }

    /// The response body with which the client is answered.
    pub open spec fn reply_text(self) -> Seq<char> {
        match self {
            ProxyError::NoMatchingUpstream { path } => "no upstream configured for path "@ + path@,
            ProxyError::InvalidUri { reason } => "invalid upstream uri: "@ + reason@,
            ProxyError::Upstream { .. } => "upstream request failed"@,
            ProxyError::BodyRead { reason } => "failed to read request body: "@ + reason@,
            ProxyError::UpstreamTimeout { .. } => "upstream timed out"@,
            ProxyError::BodyTooLarge { limit } => "request body exceeds limit of "@
                + text::decimal(limit as nat) + " bytes"@,
        }
    }

    /// The text of the failure, as it is logged.
    pub fn message(&self) -> (r: String)
        ensures
            r@ == self.message_text(),
    {
        match self {
            ProxyError::NoMatchingUpstream { path } => {
                let mut r = String::from_str("no upstream configured for path ");
                r.append(path.as_str());
                r
            },
            ProxyError::InvalidUri { reason } => {
                let mut r = String::from_str("failed to build upstream uri: ");
                r.append(reason.as_str());
                r
            },
            ProxyError::Upstream { upstream, source } => {
                let mut r = String::from_str("upstream '");
                r.append(&**upstream);
                r.append("' request failed: ");
                r.append(source.as_str());
                r
            },
            ProxyError::BodyRead { reason } => {
                let mut r = String::from_str("failed to read request body: ");
                r.append(reason.as_str());
                r
            },
            ProxyError::UpstreamTimeout { upstream } => {
                let mut r = String::from_str("upstream '");
                r.append(&**upstream);
                r.append("' timed out");
                r
            },
            ProxyError::BodyTooLarge { limit } => {
                let mut r = String::from_str("request body too large (limit ");
                r.append(text::decimal_text(*limit).as_str());
                r.append(" bytes)");
                r
            },
        }
    }

    /// The HTTP status with which the client is answered.
    pub fn status(&self) -> (r: u16)
        ensures
            r == self.status_code(),
    {
        match self {
            ProxyError::NoMatchingUpstream { .. } => 404,
            ProxyError::InvalidUri { .. } => 502,
            ProxyError::Upstream { .. } => 502,
            ProxyError::BodyRead { .. } => 400,
            ProxyError::UpstreamTimeout { .. } => 504,
            ProxyError::BodyTooLarge { .. } => 413,
        }
    }

    /// The response body with which the client is answered.
    pub fn reply(&self) -> (r: String)
        ensures
            r@ == self.reply_text(),
    {
        match self {
            ProxyError::NoMatchingUpstream { path } => {
                let mut r = String::from_str("no upstream configured for path ");
                r.append(path.as_str());
                r
            },
            ProxyError::InvalidUri { reason } => {
                let mut r = String::from_str("invalid upstream uri: ");
                r.append(reason.as_str());
                r
            },
            ProxyError::Upstream { .. } => String::from_str("upstream request failed"),
            ProxyError::BodyRead { reason } => {
                let mut r = String::from_str("failed to read request body: ");
                r.append(reason.as_str());
                r
            },
            ProxyError::UpstreamTimeout { .. } => String::from_str("upstream timed out"),
            ProxyError::BodyTooLarge { limit } => {
                let mut r = String::from_str("request body exceeds limit of ");
                r.append(text::decimal_text(*limit).as_str());
                r.append(" bytes");
                r
            },
        }
    }
}

/// Each HTTP status stands for one cause: a path without route, a request body that cannot be
/// read or is too large, an upstream that does not answer in time, and one that cannot be asked
/// or fails. No failure is answered with another status.
pub proof fn status_tells_the_cause(e: ProxyError)
    ensures
        e.status_code() == 400 <==> e is BodyRead,
        e.status_code() == 404 <==> e is NoMatchingUpstream,
        e.status_code() == 413 <==> e is BodyTooLarge,
        e.status_code() == 502 <==> e is InvalidUri || e is Upstream,
        e.status_code() == 504 <==> e is UpstreamTimeout,
{
}

/// The reply to a client says what is wrong with its request, in full: the path that has no
/// route, the limit in decimal digits that the body exceeds, the reason why the body or the URI
/// was refused.
pub proof fn reply_says_what_is_wrong(path: String, limit: usize, reason: String)
    ensures
        (ProxyError::NoMatchingUpstream { path }).reply_text() == "no upstream configured for path "@
            + path@,
        (ProxyError::BodyTooLarge { limit }).reply_text() == "request body exceeds limit of "@
            + text::decimal(limit as nat) + " bytes"@,
        (ProxyError::BodyRead { reason }).reply_text() == "failed to read request body: "@
            + reason@,
        (ProxyError::InvalidUri { reason }).reply_text() == "invalid upstream uri: "@ + reason@,
{
}

/// The reply to a client tells nothing of an upstream that failed: it is the same fixed text
/// whichever upstream it was and whatever the cause.
pub proof fn reply_tells_nothing_of_the_upstream(upstream: Arc<str>, source: String)
    ensures
        (ProxyError::Upstream { upstream, source }).reply_text() == "upstream request failed"@,
        (ProxyError::UpstreamTimeout { upstream }).reply_text() == "upstream timed out"@,
{
}

/// The log line of a failed request names what the failure is about, in full.
pub proof fn message_names_what_failed(
    path: String,
    limit: usize,
    reason: String,
    upstream: Arc<str>,
    source: String,
)
    ensures
        (ProxyError::NoMatchingUpstream { path }).message_text()
            == "no upstream configured for path "@ + path@,
        (ProxyError::InvalidUri { reason }).message_text() == "failed to build upstream uri: "@
            + reason@,
        (ProxyError::Upstream { upstream, source }).message_text() == "upstream '"@ + upstream@
            + "' request failed: "@ + source@,
        (ProxyError::BodyRead { reason }).message_text() == "failed to read request body: "@
            + reason@,
        (ProxyError::UpstreamTimeout { upstream }).message_text() == "upstream '"@ + upstream@
            + "' timed out"@,
        (ProxyError::BodyTooLarge { limit }).message_text() == "request body too large (limit "@
            + text::decimal(limit as nat) + " bytes)"@,
{
}

/// The message of an application failure ends with its reason, in full; that of a refused
/// configuration says in front of it that the configuration is at fault.
pub proof fn message_gives_the_reason(reason: String)
    ensures
        AppError::Config(reason).message_text() == "configuration error: "@ + reason@,
        AppError::Io(reason).message_text() == reason@,
        AppError::Metrics(reason).message_text() == reason@,
        forall|text: Seq<char>| #[trigger]
            AppError::Config(reason).is_config(text) <==> text == reason@,
        forall|text: Seq<char>| !#[trigger] AppError::Io(reason).is_config(text),
        forall|text: Seq<char>| !#[trigger] AppError::Metrics(reason).is_config(text),
{
}

/// How a client is answered: the status and the text of the answer go together.
pub proof fn answer_tells_status_and_text(e: ProxyError, status: u16, reply: String)
    requires
        call_ensures(ProxyError::status, (&e,), status),
        call_ensures(ProxyError::reply, (&e,), reply),
    ensures
        e is NoMatchingUpstream ==> status == 404 && reply@ == "no upstream configured for path "@
            + e->NoMatchingUpstream_path@,
        e is BodyRead ==> status == 400 && reply@ == "failed to read request body: "@
            + e->BodyRead_reason@,
        e is BodyTooLarge ==> status == 413 && reply@ == "request body exceeds limit of "@
            + text::decimal(e->BodyTooLarge_limit as nat) + " bytes"@,
        e is InvalidUri ==> status == 502 && reply@ == "invalid upstream uri: "@
            + e->InvalidUri_reason@,
        e is Upstream ==> status == 502 && reply@ == "upstream request failed"@,
        e is UpstreamTimeout ==> status == 504 && reply@ == "upstream timed out"@,
{
}

} // verus!
