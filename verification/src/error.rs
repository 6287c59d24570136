//! Gateway error type and its OpenAI-compatible error envelope fields
//! (`{"error": {message, type, code}}` plus the HTTP status).

use vstd::prelude::*;
use crate::text::{append_str, owned};

verus! {

pub enum GatewayError {
    InvalidRequest(String),
    Unauthorized(String),
    RateLimited { retry_after_secs: u64 },
    UpstreamUnavailable(String),
    Internal(String),
}

/// The envelope fields of an error: HTTP status, error type and error code.
pub open spec fn parts_of(e: GatewayError) -> (u16, Seq<char>, Seq<char>) {
    match e {
        GatewayError::InvalidRequest(_) => (400, "invalid_request_error"@, "invalid_request"@),
        GatewayError::Unauthorized(_) => (401, "authentication_error"@, "unauthorized"@),
        GatewayError::RateLimited { .. } => (429, "rate_limit_error"@, "rate_limited"@),
        GatewayError::UpstreamUnavailable(_) => (
            502,
            "upstream_unavailable"@,
            "no_healthy_model"@,
        ),
        GatewayError::Internal(_) => (500, "internal_error"@, "internal"@),
    }
}

/// The human-readable message of an error.
pub open spec fn message_of(e: GatewayError) -> Seq<char> {
    match e {
        GatewayError::InvalidRequest(m) => m@,
        GatewayError::Unauthorized(m) => "authentication failed: "@ + m@,
        GatewayError::RateLimited { .. } => "rate limit exceeded"@,
        GatewayError::UpstreamUnavailable(m) => "upstream unavailable: "@ + m@,
        GatewayError::Internal(m) => "internal error: "@ + m@,
    }
}

impl GatewayError {
    /// HTTP status, error type and error code of the envelope.
    pub fn parts(&self) -> (r: (u16, &'static str, &'static str))
        ensures
            r.0 == parts_of(*self).0,
            r.1@ == parts_of(*self).1,
            r.2@ == parts_of(*self).2,
    {
        match self {
            GatewayError::InvalidRequest(_) => (400, "invalid_request_error", "invalid_request"),
            GatewayError::Unauthorized(_) => (401, "authentication_error", "unauthorized"),
            GatewayError::RateLimited { .. } => (429, "rate_limit_error", "rate_limited"),
            GatewayError::UpstreamUnavailable(_) => (
                502,
                "upstream_unavailable",
                "no_healthy_model",
            ),
            GatewayError::Internal(_) => (500, "internal_error", "internal"),
        }
    }

    /// The error message (what the envelope's `message` field carries).
    pub fn message(&self) -> (m: String)
        ensures
            m@ == message_of(*self),
    {
        match self {
            GatewayError::InvalidRequest(m) => m.clone(),
            GatewayError::Unauthorized(m) => {
                let mut s = owned("authentication failed: ");
                append_str(&mut s, m.as_str());
                s
            },
            GatewayError::RateLimited { .. } => owned("rate limit exceeded"),
            GatewayError::UpstreamUnavailable(m) => {
                let mut s = owned("upstream unavailable: ");
                append_str(&mut s, m.as_str());
                s
            },
            GatewayError::Internal(m) => {
                let mut s = owned("internal error: ");
                append_str(&mut s, m.as_str());
                s
            },
        }
    }

    /// Seconds for the `retry-after` header (rate-limit errors only).
    pub fn retry_after(&self) -> (r: Option<u64>)
        ensures
            match *self {
                GatewayError::RateLimited { retry_after_secs } => r == Some(retry_after_secs),
                _ => r is None,
            },
    {
        match self {
            GatewayError::RateLimited { retry_after_secs } => Some(*retry_after_secs),
            _ => None,
        }
    }
}

} // verus!
