//! Canonical (protocol-neutral) request model: every inbound protocol is
//! translated into these types, and routing decisions are made on them.

use vstd::prelude::*;
use crate::text::{append_str, chars_of, owned, starts_with, string_of_range};

verus! {

/// How to handle routing for a specific request.
pub enum RoutingDirective {
    /// `model = "cortiq-auto[:profile]"`: ask the router and pick from the pool.
    Auto { profile: Option<String> },
    /// `model = "<real id>"`: call that model directly, bypassing routing.
    Pinned { model_id: String },
}

/// One chat turn (role: system | user | assistant | tool).
pub struct Message {
    pub role: String,
    pub content: String,
}

/// Request metadata carried through the pipeline.
pub struct RequestMeta {
    pub account: String,
    pub protocol: String,
    pub idempotency_key: Option<String>,
    pub traceparent: Option<String>,
}

/// Token usage of a completion.
pub struct Usage {
    pub prompt_tokens: u32,
    pub completion_tokens: u32,
    pub total_tokens: u32,
}

/// Decision from the router (the subset of its contract the gateway needs;
/// the numeric complexity score travels beside it).
pub struct RouteDecision {
    pub task_label: String,
    pub complexity_tier: String,
    pub router_request_id: Option<String>,
    /// router | cache | fallback | pinned
    pub source: String,
}

pub open spec fn auto_prefix() -> Seq<char> {
    "cortiq-auto"@
}

/// Whether a `model` field asks for automatic routing: exactly
/// `cortiq-auto`, or `cortiq-auto:<profile>`.
pub open spec fn is_auto_name(model: Seq<char>) -> bool {
    model == auto_prefix() || starts_with(model, auto_prefix() + ":"@)
}

/// The profile an automatic-routing name asks for: the text after
/// `cortiq-auto:`, none for the bare `cortiq-auto`.
pub open spec fn auto_profile(model: Seq<char>) -> Option<Seq<char>> {
    if model == auto_prefix() {
        None
    } else {
        Some(model.skip(auto_prefix().len() as int + 1))
    }
}

pub open spec fn opt_view(o: Option<String>) -> Option<Seq<char>> {
    match o {
        Some(s) => Some(s@),
        None => None,
    }
}

/// Routing signature of a directive: `auto:<profile>` or `pinned:<model id>`.
pub open spec fn sig_of(d: RoutingDirective) -> Seq<char> {
    match d {
        RoutingDirective::Auto { profile } => "auto:"@ + match profile {
            Some(p) => p@,
            None => Seq::empty(),
        },
        RoutingDirective::Pinned { model_id } => "pinned:"@ + model_id@,
    }
}

/// Whether `d` is what the inbound `model` field `model` asks for:
/// `cortiq-auto` and `cortiq-auto:<profile>` route, any other name (such as
/// `cortiq-autopilot`) pins that model id.
pub open spec fn parses_to(model: Seq<char>, d: RoutingDirective) -> bool {
    if is_auto_name(model) {
        d matches RoutingDirective::Auto { profile } && opt_view(profile) == auto_profile(model)
    } else {
        d matches RoutingDirective::Pinned { model_id } && model_id@ == model
    }
}

/// `cortiq-auto` routes with no profile, `cortiq-auto:<p>` routes with
/// profile `p`, and a name that does not start with `cortiq-auto` pins
/// exactly that name.
pub proof fn law_auto_names(p: Seq<char>, m: Seq<char>, d: RoutingDirective)
    ensures
        parses_to("cortiq-auto"@, d) ==> (d matches RoutingDirective::Auto { profile } && profile is None),
        parses_to("cortiq-auto:"@ + p, d) ==> (d matches RoutingDirective::Auto { profile }
            && opt_view(profile) == Some(p)),
        !starts_with(m, "cortiq-auto"@) && parses_to(m, d) ==> (d matches RoutingDirective::Pinned {
            model_id,
        } && model_id@ == m),
{
    reveal_strlit("cortiq-auto");
    reveal_strlit("cortiq-auto:");
    reveal_strlit(":");
    let n = "cortiq-auto:"@ + p;
    assert(("cortiq-auto"@ + ":"@) =~= "cortiq-auto:"@);
    assert(n.take(12) =~= "cortiq-auto:"@);
    assert(n != "cortiq-auto"@);
    assert(n.skip(12) =~= p);
    if !starts_with(m, "cortiq-auto"@) {
        if m == "cortiq-auto"@ {
            assert(m.take(11) =~= m);
        }
        if starts_with(m, "cortiq-auto:"@) {
            assert(m.take(11) =~= m.take(12).take(11));
            assert("cortiq-auto:"@.take(11) =~= "cortiq-auto"@);
        }
    }
}

impl RoutingDirective {
    /// Parses the `model` field of an inbound request: `cortiq-auto` and
    /// `cortiq-auto:<profile>` select routing, anything else pins that model id.
    pub fn parse(model: &str) -> (d: Self)
        ensures
            parses_to(model@, d),
    {
        let v = chars_of(model);
        let p = chars_of("cortiq-auto");
        let n = p.len();
        proof {
            reveal_strlit("cortiq-auto");
            reveal_strlit(":");
        }
        if crate::text::starts_with_exec(&v, &p) {
            if n == v.len() {
                assert(v@ =~= auto_prefix());
                return RoutingDirective::Auto { profile: None };
            }
            if v[n] == ':' {
                let prof = string_of_range(&v, n + 1, v.len());
                assert(v@.take(n + 1) =~= auto_prefix() + ":"@);
                assert(v@.skip(n + 1) =~= v@.subrange(n + 1, v.len() as int));
                assert(v@ != auto_prefix());
                return RoutingDirective::Auto { profile: Some(prof) };
            }
            proof {
                assert(v@ != auto_prefix());
                if starts_with(v@, auto_prefix() + ":"@) {
                    assert((auto_prefix() + ":"@)[n as int] == ':');
                }
            }
        } else {
            proof {
                if v@ == auto_prefix() {
                    assert(v@.take(n as int) =~= auto_prefix());
                }
                if starts_with(v@, auto_prefix() + ":"@) {
                    assert(v@.take(n as int) =~= v@.take(n + 1).take(n as int));
                    assert((auto_prefix() + ":"@).take(n as int) =~= auto_prefix());
                }
            }
        }
        RoutingDirective::Pinned { model_id: owned(model) }
    }

    /// Whether this directive pins a model.
    pub fn is_pinned(&self) -> (b: bool)
        ensures
            b == (*self is Pinned),
    {
        match self {
            RoutingDirective::Pinned { .. } => true,
            RoutingDirective::Auto { .. } => false,
        }
    }

    /// `"pinned"` or `"auto"`, as recorded in request statistics.
    pub fn kind_label(&self) -> (s: String)
        ensures
            *self is Pinned ==> s@ == "pinned"@,
            *self is Auto ==> s@ == "auto"@,
    {
        match self {
            RoutingDirective::Pinned { .. } => owned("pinned"),
            RoutingDirective::Auto { .. } => owned("auto"),
        }
    }

    /// Routing signature used to partition semantic-cache entries.
    pub fn cache_sig(&self) -> (s: String)
        ensures
            s@ == sig_of(*self),
    {
        match self {
            RoutingDirective::Auto { profile } => {
                let mut s = owned("auto:");
                match profile {
                    Some(p) => append_str(&mut s, p.as_str()),
                    None => {},
                }
                s
            },
            RoutingDirective::Pinned { model_id } => {
                let mut s = owned("pinned:");
                append_str(&mut s, model_id.as_str());
                s
            },
        }
    }
}

proof fn lemma_prefix_cancel(p: Seq<char>, a: Seq<char>, b: Seq<char>)
    requires
        p + a == p + b,
    ensures
        a == b,
{
    assert(a =~= (p + a).skip(p.len() as int));
    assert(b =~= (p + b).skip(p.len() as int));
}

/// Cache entries are partitioned by routing signature, so an answer cached for
/// one pinned model is never served for another model, nor for routed
/// requests, and routed answers are only shared within one profile (an absent
/// profile and an empty one count as the same).
pub proof fn law_cache_sig_separates(a: RoutingDirective, b: RoutingDirective)
    requires
        sig_of(a) == sig_of(b),
    ensures
        (a is Pinned) == (b is Pinned),
        a matches RoutingDirective::Pinned { model_id: x } ==> (b matches RoutingDirective::Pinned {
            model_id: y,
        } && x@ == y@),
        a matches RoutingDirective::Auto { profile: p } ==> (b matches RoutingDirective::Auto {
            profile: q,
        } && (match p {
            Some(s) => s@,
            None => Seq::<char>::empty(),
        }) == (match q {
            Some(s) => s@,
            None => Seq::<char>::empty(),
        })),
{
    reveal_strlit("auto:");
    reveal_strlit("pinned:");
    match a {
        RoutingDirective::Auto { profile: p } => {
            match b {
                RoutingDirective::Auto { profile: q } => {
                    let pa = match p {
                        Some(s) => s@,
                        None => Seq::<char>::empty(),
                    };
                    let qa = match q {
                        Some(s) => s@,
                        None => Seq::<char>::empty(),
                    };
                    lemma_prefix_cancel("auto:"@, pa, qa);
                },
                RoutingDirective::Pinned { model_id } => {
                    assert(sig_of(a)[0] == 'a');
                    assert(sig_of(b)[0] == 'p');
                },
            }
        },
        RoutingDirective::Pinned { model_id: x } => {
            match b {
                RoutingDirective::Auto { profile: q } => {
                    assert(sig_of(a)[0] == 'p');
                    assert(sig_of(b)[0] == 'a');
                },
                RoutingDirective::Pinned { model_id: y } => {
                    lemma_prefix_cancel("pinned:"@, x@, y@);
                },
            }
        },
    }
}

} // verus!
