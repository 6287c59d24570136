//! The gateway's side of the cortiq-router contract: the route endpoint, how
//! the outcome of the last call is recorded and classified for the admin
//! panel, and how a router reply becomes a routing decision. When the router
//! is unreachable the caller falls back to `routing.default`.

use vstd::prelude::*;
use crate::model::{RouteDecision, opt_view};
use crate::text::{append_str, chars_of, owned, string_of_range};

verus! {

/// Last-call code for a transport failure other than a timeout.
pub const STATUS_NETWORK: u16 = 1;

/// Last-call code for a timeout.
pub const STATUS_TIMEOUT: u16 = 2;

/// The admin panel's kind of router failure for a last-call code.
pub open spec fn status_kind(code: u16) -> Seq<char> {
    if code == STATUS_NETWORK {
        "unreachable"@
    } else if code == STATUS_TIMEOUT {
        "timeout"@
    } else if code == 401 || code == 403 {
        "auth"@
    } else if code == 402 {
        "payment"@
    } else if code == 429 {
        "quota"@
    } else {
        "error"@
    }
}

/// Error kind for the admin panel: `unreachable`, `timeout`, `auth`,
/// `payment`, `quota` or `error`.
pub fn classify_status(code: u16) -> (r: &'static str)
    ensures
        r@ == status_kind(code),
{
    if code == STATUS_NETWORK {
        "unreachable"
    } else if code == STATUS_TIMEOUT {
        "timeout"
    } else if code == 401 || code == 403 {
        "auth"
    } else if code == 402 {
        "payment"
    } else if code == 429 {
        "quota"
    } else {
        "error"
    }
}

/// The code recorded for a call that got no HTTP answer.
pub fn transport_status(timed_out: bool) -> (code: u16)
    ensures
        code == if timed_out {
            STATUS_TIMEOUT
        } else {
            STATUS_NETWORK
        },
{
    if timed_out {
        STATUS_TIMEOUT
    } else {
        STATUS_NETWORK
    }
}

/// The code recorded for an HTTP answer: 0 for a success, else its status.
pub fn answer_status(http_status: u16) -> (code: u16)
    ensures
        code == if 200 <= http_status <= 299 {
            0
        } else {
            http_status
        },
{
    if 200 <= http_status && http_status <= 299 {
        0
    } else {
        http_status
    }
}

/// `s` without its trailing `/` characters.
pub open spec fn strip_slashes(s: Seq<char>) -> Seq<char>
    decreases s.len(),
{
    if s.len() > 0 && s.last() == '/' {
        strip_slashes(s.drop_last())
    } else {
        s
    }
}

/// The router base URL without trailing slashes.
pub fn base_url(url: &str) -> (r: String)
    ensures
        r@ == strip_slashes(url@),
{
    let v = chars_of(url);
    let mut n: usize = v.len();
    assert(v@.take(v.len() as int) =~= v@);
    while n > 0 && v[n - 1] == '/'
        invariant
            n <= v.len(),
            v@ == url@,
            strip_slashes(v@) == strip_slashes(v@.take(n as int)),
        decreases n,
    {
        assert(v@.take(n as int).drop_last() =~= v@.take(n - 1));
        n -= 1;
    }
    assert(v@.subrange(0, n as int) =~= v@.take(n as int));
    string_of_range(&v, 0, n)
}

/// `<base>/v1/route`.
pub fn route_url(base: &str) -> (r: String)
    ensures
        r@ == base@ + "/v1/route"@,
{
    let mut r = owned(base);
    append_str(&mut r, "/v1/route");
    r
}

/// A routing decision from the router's reply: an absent task label reads
/// `__unknown__` and an absent tier `medium`.
pub fn decision_from_reply(
    task_label: Option<String>,
    tier: Option<String>,
    request_id: Option<String>,
) -> (d: RouteDecision)
    ensures
        d.task_label@ == match task_label {
            Some(l) => l@,
            None => "__unknown__"@,
        },
        d.complexity_tier@ == match tier {
            Some(t) => t@,
            None => "medium"@,
        },
        opt_view(d.router_request_id) == opt_view(request_id),
        d.source@ == "router"@,
{
    RouteDecision {
        task_label: match task_label {
            Some(l) => l,
            None => owned("__unknown__"),
        },
        complexity_tier: match tier {
            Some(t) => t,
            None => owned("medium"),
        },
        router_request_id: request_id,
        source: owned("router"),
    }
}

} // verus!
