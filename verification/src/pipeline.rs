//! Decisions of the request pipeline: which text to classify, which route
//! decision to act on, which models are candidates (in failover order), and
//! the failover bookkeeping around the provider calls.

use vstd::prelude::*;
use crate::config::{has_local_model, Config, ModelCfg};
use crate::error::GatewayError;
use crate::model::{Message, RouteDecision, RoutingDirective};
use crate::registry::{has_id, lookup, unique_ids, ProviderView, Registry};
use crate::routing::{candidates_of, RoutingTable, RoutingTableView};
use crate::text::{append_str, chars_of, owned, str_eq, string_of_range, views};

verus! {

/// Character views of the turns of a conversation: `(role, content)`.
pub open spec fn turns(ms: Seq<Message>) -> Seq<(Seq<char>, Seq<char>)> {
    ms.map_values(|m: Message| (m.role@, m.content@))
}

/// Index of the last turn before position `j` whose role is `role` (or -1).
pub open spec fn last_role_index(ms: Seq<(Seq<char>, Seq<char>)>, role: Seq<char>, j: int) -> int
    decreases j,
{
    if j <= 0 || j > ms.len() {
        -1
    } else if ms[j - 1].0 == role {
        j - 1
    } else {
        last_role_index(ms, role, j - 1)
    }
}

/// Content of the last user turn (empty if there is none).
pub open spec fn last_user_text(ms: Seq<(Seq<char>, Seq<char>)>) -> Seq<char> {
    let k = last_role_index(ms, "user"@, ms.len() as int);
    if k >= 0 {
        ms[k].1
    } else {
        Seq::empty()
    }
}

/// `parts.join(sep)`.
pub open spec fn join(parts: Seq<Seq<char>>, sep: Seq<char>) -> Seq<char>
    decreases parts.len(),
{
    if parts.len() == 0 {
        Seq::empty()
    } else if parts.len() == 1 {
        parts[0]
    } else {
        join(parts.drop_last(), sep) + sep + parts.last()
    }
}

/// Contents of the system turns, in order.
pub open spec fn system_texts(ms: Seq<(Seq<char>, Seq<char>)>) -> Seq<Seq<char>>
    decreases ms.len(),
{
    if ms.len() == 0 {
        Seq::empty()
    } else if ms.last().0 == "system"@ {
        system_texts(ms.drop_last()).push(ms.last().1)
    } else {
        system_texts(ms.drop_last())
    }
}

/// `role: content` for every turn.
pub open spec fn turn_lines(ms: Seq<(Seq<char>, Seq<char>)>) -> Seq<Seq<char>> {
    ms.map_values(|m: (Seq<char>, Seq<char>)| m.0 + ": "@ + m.1)
}

/// Text to classify, before truncation, for a text strategy. Unknown
/// strategies behave as `concat_all`.
pub open spec fn raw_route_text(ms: Seq<(Seq<char>, Seq<char>)>, strategy: Seq<char>) -> Seq<char> {
    if strategy == "last_user"@ {
        last_user_text(ms)
    } else if strategy == "last_user_plus_system"@ {
        let sys = system_texts(ms);
        if sys.len() == 0 {
            last_user_text(ms)
        } else {
            join(sys, "\n"@) + "\n"@ + last_user_text(ms)
        }
    } else {
        join(turn_lines(ms), "\n"@)
    }
}

/// The first `n` characters of `s`.
pub open spec fn truncate_chars(s: Seq<char>, n: nat) -> Seq<char> {
    if s.len() > n {
        s.take(n as int)
    } else {
        s
    }
}

/// Text to classify: the strategy's text, cut to `max_chars` characters.
pub open spec fn route_text(ms: Seq<Message>, strategy: Seq<char>, max_chars: nat) -> Seq<char> {
    truncate_chars(raw_route_text(turns(ms), strategy), max_chars)
}

/// Where the numeric complexity score of a decision comes from.
#[derive(PartialEq, Eq, Structural, Clone, Copy)]
pub enum ScoreSource {
    /// A pinned request: score 0.
    Pinned,
    /// Router unavailable, default model used: score 0.5.
    Degraded,
    /// The router's own score.
    Router,
}

/// The routing decision the pipeline acts on.
pub struct Resolved {
    pub decision: RouteDecision,
    /// router | fallback | pinned (the decision's own source for router replies)
    pub route_source: String,
    pub score: ScoreSource,
}

/// Models a request may be served by: registered, and tool-capable when the
/// request carries tools.
pub open spec fn usable(reg: Seq<ProviderView>, id: Seq<char>, needs_tools: bool) -> bool {
    lookup(reg, id) matches Some(p) && (needs_tools ==> p.tools)
}

/// The usable candidates, in order.
pub open spec fn keep_usable(
    cands: Seq<Seq<char>>,
    reg: Seq<ProviderView>,
    needs_tools: bool,
) -> Seq<Seq<char>>
    decreases cands.len(),
{
    if cands.len() == 0 {
        Seq::empty()
    } else if usable(reg, cands.last(), needs_tools) {
        keep_usable(cands.drop_last(), reg, needs_tools).push(cands.last())
    } else {
        keep_usable(cands.drop_last(), reg, needs_tools)
    }
}

/// Candidates before capability filtering: the pinned model, the default model
/// when the router could not be used, or the tier's list.
pub open spec fn raw_candidates(
    d: RoutingDirective,
    degraded: bool,
    table: RoutingTableView,
    tier: Seq<char>,
) -> Seq<Seq<char>> {
    match d {
        RoutingDirective::Pinned { model_id } => seq![model_id@],
        RoutingDirective::Auto { .. } => if degraded {
            seq![table.default]
        } else {
            candidates_of(table, tier)
        },
    }
}

pub open spec fn no_candidate_message() -> Seq<char> {
    "No healthy model available that satisfies required capabilities (e.g. tools)"@
}

pub open spec fn exhausted_message() -> Seq<char> {
    "All candidate models failed"@
}

/// Models tried so far and failures seen, for one request's failover chain.
pub struct Failover {
    candidates: Vec<String>,
    next: usize,
    failures: usize,
}

impl View for Failover {
    type V = (Seq<Seq<char>>, nat, nat);

    closed spec fn view(&self) -> (Seq<Seq<char>>, nat, nat) {
        (views(self.candidates@), self.next as nat, self.failures as nat)
    }
}

pub struct Pipeline;

impl Pipeline {
    pub fn new() -> (p: Self) {
        Pipeline
    }

    /// Text to classify: `last_user` (the last user turn), `last_user_plus_system`
    /// (system turns, then the last user turn, one per line) or anything else
    /// (`role: content` of every turn, one per line), cut to `max_chars` characters.
    pub fn extract_text(&self, messages: &Vec<Message>, strategy: &str, max_chars: usize) -> (r:
        String)
        ensures
            r@ == route_text(messages@, strategy@, max_chars as nat),
    {
        let raw = if str_eq(strategy, "last_user") {
            last_user(messages)
        } else if str_eq(strategy, "last_user_plus_system") {
            let sys = system_join(messages);
            let lu = last_user(messages);
            if sys.1 == 0 {
                lu
            } else {
                let mut s = sys.0;
                append_str(&mut s, "\n");
                append_str(&mut s, lu.as_str());
                s
            }
        } else {
            concat_turns(messages)
        };
        let v = chars_of(raw.as_str());
        if v.len() > max_chars {
            string_of_range(&v, 0, max_chars)
        } else {
            raw
        }
    }

    /// Acts on the router's reply: pinned requests skip the router; a routed
    /// request with no reply (router unavailable) degrades to the default model.
    pub fn decide(&self, directive: &RoutingDirective, reply: Option<RouteDecision>) -> (r:
        Resolved)
        ensures
            directive is Pinned ==> r.decision.task_label@ == "pinned"@
                && r.decision.complexity_tier@ == "pinned"@ && r.decision.router_request_id is None
                && r.decision.source@ == "pinned"@ && r.route_source@ == "pinned"@ && r.score
                == ScoreSource::Pinned,
            (directive is Auto && reply is None) ==> r.decision.task_label@ == "degraded"@
                && r.decision.complexity_tier@ == "degraded"@ && r.decision.router_request_id
                is None && r.decision.source@ == "fallback"@ && r.route_source@ == "fallback"@
                && r.score == ScoreSource::Degraded,
            (directive is Auto && reply is Some) ==> r.decision == reply.unwrap()
                && r.route_source@ == reply.unwrap().source@ && r.score == ScoreSource::Router,
    {
        match directive {
            RoutingDirective::Pinned { .. } => Resolved {
                decision: RouteDecision {
                    task_label: owned("pinned"),
                    complexity_tier: owned("pinned"),
                    router_request_id: None,
                    source: owned("pinned"),
                },
                route_source: owned("pinned"),
                score: ScoreSource::Pinned,
            },
            RoutingDirective::Auto { .. } => match reply {
                Some(dec) => {
                    let src = dec.source.clone();
                    Resolved { decision: dec, route_source: src, score: ScoreSource::Router }
                },
                None => Resolved {
                    decision: RouteDecision {
                        task_label: owned("degraded"),
                        complexity_tier: owned("degraded"),
                        router_request_id: None,
                        source: owned("fallback"),
                    },
                    route_source: owned("fallback"),
                    score: ScoreSource::Degraded,
                },
            },
        }
    }

    /// Candidates in preference (= failover) order, keeping only registered
    /// models that support tools when the request needs them. Fails when none is left.
    pub fn select_candidates(
        &self,
        directive: &RoutingDirective,
        degraded: bool,
        tier: &str,
        table: &RoutingTable,
        registry: &Registry,
        needs_tools: bool,
    ) -> (r: Result<Vec<String>, GatewayError>)
        requires
            unique_ids(registry@),
        ensures
            match r {
                Ok(v) => views(v@) == keep_usable(
                    raw_candidates(*directive, degraded, table@, tier@),
                    registry@,
                    needs_tools,
                ) && v@.len() > 0,
                Err(e) => keep_usable(
                    raw_candidates(*directive, degraded, table@, tier@),
                    registry@,
                    needs_tools,
                ).len() == 0 && (e matches GatewayError::UpstreamUnavailable(m) && m@
                    == no_candidate_message()),
            },
    {
        let cands: Vec<String> = match directive {
            RoutingDirective::Pinned { model_id } => {
                let mut v: Vec<String> = Vec::new();
                v.push(model_id.clone());
                assert(views(v@) =~= seq![model_id@]);
                v
            },
            RoutingDirective::Auto { .. } => {
                if degraded {
                    let mut v: Vec<String> = Vec::new();
                    v.push(owned(table.default_model()));
                    assert(views(v@) =~= seq![table@.default]);
                    v
                } else {
                    table.candidates(tier)
                }
            },
        };
        let ghost cv = views(cands@);
        let mut out: Vec<String> = Vec::new();
        let mut i: usize = 0;
        while i < cands.len()
            invariant
                i <= cands.len(),
                cv == views(cands@),
                unique_ids(registry@),
                views(out@) == keep_usable(cv.take(i as int), registry@, needs_tools),
            decreases cands.len() - i,
        {
            assert(cv.take(i + 1).drop_last() =~= cv.take(i as int));
            assert(cv.take(i + 1).last() == cands@[i as int]@);
            match registry.get(cands[i].as_str()) {
                Some(p) => {
                    if !needs_tools || p.caps.tools {
                        let ghost before = out@;
                        out.push(cands[i].clone());
                        assert(views(out@) =~= views(before).push(cands@[i as int]@));
                    }
                },
                None => {},
            }
            i += 1;
        }
        assert(cv.take(cands.len() as int) =~= cv);
        if out.len() == 0 {
            Err(
                GatewayError::UpstreamUnavailable(
                    owned(
                        "No healthy model available that satisfies required capabilities (e.g. tools)",
                    ),
                ),
            )
        } else {
            Ok(out)
        }
    }

    /// The router profile for a routed request: its own, else the configured default.
    pub fn route_profile(&self, directive: &RoutingDirective, default_profile: &str) -> (r: String)
        ensures
            directive matches RoutingDirective::Auto { profile: Some(p) } ==> r@ == p@,
            !(directive matches RoutingDirective::Auto { profile: Some(_) }) ==> r@
                == default_profile@,
    {
        match directive {
            RoutingDirective::Auto { profile: Some(p) } => p.clone(),
            _ => owned(default_profile),
        }
    }

    /// The error of a request whose every candidate failed: the last provider
    /// error, or "all candidates failed" when no provider was called.
    pub fn exhausted(&self, last_err: Option<GatewayError>) -> (e: GatewayError)
        ensures
            last_err is Some ==> e == last_err.unwrap(),
            last_err is None ==> (e matches GatewayError::UpstreamUnavailable(m) && m@
                == exhausted_message()),
    {
        match last_err {
            Some(e) => e,
            None => GatewayError::UpstreamUnavailable(owned("All candidate models failed")),
        }
    }
}

proof fn lemma_join_push(parts: Seq<Seq<char>>, sep: Seq<char>, x: Seq<char>)
    ensures
        join(parts.push(x), sep) == if parts.len() == 0 {
            x
        } else {
            join(parts, sep) + sep + x
        },
{
    assert(parts.push(x).drop_last() =~= parts);
}

/// Content of the last user turn, or empty.
fn last_user(ms: &Vec<Message>) -> (r: String)
    ensures
        r@ == last_user_text(turns(ms@)),
{
    let ghost t = turns(ms@);
    let mut j: usize = ms.len();
    while j > 0
        invariant
            j <= ms.len(),
            t == turns(ms@),
            last_role_index(t, "user"@, ms.len() as int) == last_role_index(t, "user"@, j as int),
        decreases j,
    {
        if str_eq(ms[j - 1].role.as_str(), "user") {
            return ms[j - 1].content.clone();
        }
        j -= 1;
    }
    String::new()
}

/// System turn contents joined by newlines, and how many there were.
fn system_join(ms: &Vec<Message>) -> (r: (String, usize))
    ensures
        r.0@ == join(system_texts(turns(ms@)), "\n"@),
        r.1 == system_texts(turns(ms@)).len(),
{
    let ghost t = turns(ms@);
    let mut s = String::new();
    let mut n: usize = 0;
    let mut i: usize = 0;
    while i < ms.len()
        invariant
            i <= ms.len(),
            t == turns(ms@),
            n == system_texts(t.take(i as int)).len(),
            n <= i,
            s@ == join(system_texts(t.take(i as int)), "\n"@),
        decreases ms.len() - i,
    {
        assert(t.take(i + 1).drop_last() =~= t.take(i as int));
        assert(t.take(i + 1).last() == t[i as int]);
        if str_eq(ms[i].role.as_str(), "system") {
            proof {
                lemma_join_push(system_texts(t.take(i as int)), "\n"@, t[i as int].1);
            }
            if n > 0 {
                append_str(&mut s, "\n");
            }
            append_str(&mut s, ms[i].content.as_str());
            n += 1;
        }
        i += 1;
    }
    assert(t.take(ms.len() as int) =~= t);
    (s, n)
}

/// `role: content` of every turn, one per line.
fn concat_turns(ms: &Vec<Message>) -> (r: String)
    ensures
        r@ == join(turn_lines(turns(ms@)), "\n"@),
{
    let ghost lines = turn_lines(turns(ms@));
    let mut s = String::new();
    let mut i: usize = 0;
    while i < ms.len()
        invariant
            i <= ms.len(),
            lines == turn_lines(turns(ms@)),
            s@ == join(lines.take(i as int), "\n"@),
        decreases ms.len() - i,
    {
        proof {
            lemma_join_push(lines.take(i as int), "\n"@, lines[i as int]);
            assert(lines.take(i + 1) =~= lines.take(i as int).push(lines[i as int]));
        }
        if i > 0 {
            append_str(&mut s, "\n");
        }
        append_str(&mut s, ms[i].role.as_str());
        append_str(&mut s, ": ");
        append_str(&mut s, ms[i].content.as_str());
        i += 1;
    }
    assert(lines.take(ms.len() as int) =~= lines);
    s
}

impl Failover {
    /// A failover chain over `candidates`, nothing tried yet.
    pub fn new(candidates: Vec<String>) -> (f: Self)
        ensures
            f@ == (views(candidates@), 0nat, 0nat),
    {
        Failover { candidates, next: 0, failures: 0 }
    }

    /// The next candidate to try, in order; `None` once all were handed out.
    pub fn next_candidate(&mut self) -> (r: Option<String>)
        ensures
            final(self)@.0 == old(self)@.0,
            final(self)@.2 == old(self)@.2,
            old(self)@.1 < old(self)@.0.len() ==> (r matches Some(s) && s@ == old(self)@.0[old(
                self,
            )@.1 as int] && final(self)@.1 == old(self)@.1 + 1),
            old(self)@.1 >= old(self)@.0.len() ==> (r is None && final(self)@.1 == old(self)@.1),
    {
        if self.next < self.candidates.len() {
            let s = self.candidates[self.next].clone();
            self.next = self.next + 1;
            Some(s)
        } else {
            None
        }
    }

    /// A provider call failed; the next success is a failover.
    pub fn record_failure(&mut self)
        ensures
            final(self)@.0 == old(self)@.0,
            final(self)@.1 == old(self)@.1,
            final(self)@.2 == if old(self)@.2 < usize::MAX {
                old(self)@.2 + 1
            } else {
                old(self)@.2
            },
    {
        if self.failures < usize::MAX {
            self.failures = self.failures + 1;
        }
    }

    /// Whether a success now would follow at least one failed attempt.
    pub fn is_failover(&self) -> (b: bool)
        ensures
            b == (self@.2 > 0),
    {
        self.failures > 0
    }
}

pub open spec fn is_embedding(m: ModelCfg) -> bool {
    m.kind@ == "embedding"@
}

/// Id of the first pool model of kind `embedding` at or after position `i`.
pub open spec fn first_embedding_from(ms: Seq<ModelCfg>, i: int) -> Option<Seq<char>>
    decreases ms.len() - i,
{
    if i < 0 || i >= ms.len() {
        None
    } else if is_embedding(ms[i]) {
        Some(ms[i].id@)
    } else {
        first_embedding_from(ms, i + 1)
    }
}

/// The first pool model of kind `embedding`, if any: the default embedding
/// model of the semantic cache and of `/v1/embeddings`.
pub fn first_embedding_model(cfg: &Config) -> (r: Option<String>)
    ensures
        crate::model::opt_view(r) == first_embedding_from(cfg.models@, 0),
{
    let mut i: usize = 0;
    while i < cfg.models.len()
        invariant
            i <= cfg.models.len(),
            first_embedding_from(cfg.models@, 0) == first_embedding_from(cfg.models@, i as int),
        decreases cfg.models.len() - i,
    {
        if str_eq(cfg.models[i].kind.as_str(), "embedding") {
            return Some(cfg.models[i].id.clone());
        }
        i += 1;
    }
    None
}

pub open spec fn names_registered(requested: Seq<char>, reg: Seq<ProviderView>) -> bool {
    requested.len() > 0 && requested != "cortiq-auto"@ && has_id(reg, requested)
}

/// The model an embeddings request goes to: the requested id when it names a
/// registered model (and is not `cortiq-auto`), else the first embedding
/// model of the pool; an invalid request when there is none.
pub fn embedding_target(cfg: &Config, registry: &Registry, requested: &str) -> (r: Result<
    String,
    GatewayError,
>)
    ensures
        names_registered(requested@, registry@) ==> (r matches Ok(s) && s@ == requested@),
        !names_registered(requested@, registry@) ==> match first_embedding_from(cfg.models@, 0) {
            Some(id) => r matches Ok(s) && s@ == id,
            None => r matches Err(GatewayError::InvalidRequest(m)) && m@
                == "no embedding model configured"@,
        },
{
    if !requested.is_empty() && !str_eq(requested, "cortiq-auto") && registry.contains(requested) {
        return Ok(owned(requested));
    }
    match first_embedding_model(cfg) {
        Some(id) => Ok(id),
        None => Err(GatewayError::InvalidRequest(owned("no embedding model configured"))),
    }
}

/// Models that can serve a request without the router, in order: the managed
/// local model (if configured), then the routing default (if set and not the
/// same), keeping only registered ones; if none is left, any registered model.
pub open spec fn local_candidates_of(cfg: Config, default: Seq<char>, reg: Seq<ProviderView>) -> Seq<
    Seq<char>,
> {
    let local: Seq<Seq<char>> = if has_local_model(cfg.cmf) {
        seq![cfg.cmf.model_id@]
    } else {
        Seq::empty()
    };
    let with_def = if default.len() > 0 && !local.contains(default) {
        local.push(default)
    } else {
        local
    };
    let kept = with_def.filter(|id: Seq<char>| has_id(reg, id));
    if kept.len() > 0 {
        kept
    } else if reg.len() > 0 {
        seq![reg[0].id]
    } else {
        Seq::empty()
    }
}

/// Local-first fallback targets (see `local_candidates_of`).
pub fn local_candidates(cfg: &Config, table: &RoutingTable, registry: &Registry) -> (r: Vec<String>)
    ensures
        views(r@) == local_candidates_of(*cfg, table@.default, registry@),
{
    let mut v: Vec<String> = Vec::new();
    if cfg.cmf.has_local() {
        v.push(cfg.cmf.model_id.clone());
    }
    let def = table.default_model();
    let ghost local = views(v@);
    let dup = v.len() > 0 && str_eq(v[0].as_str(), def);
    proof {
        if v.len() > 0 {
            assert(local =~= seq![cfg.cmf.model_id@]);
            assert(local.contains(def@) == (local[0] == def@));
        } else {
            assert(local =~= Seq::<Seq<char>>::empty());
        }
    }
    if !def.is_empty() && !dup {
        let ghost before = v@;
        v.push(owned(def));
        assert(views(v@) =~= views(before).push(def@));
    }
    let ghost with_def = views(v@);
    let mut kept: Vec<String> = Vec::new();
    let mut i: usize = 0;
    while i < v.len()
        invariant
            i <= v.len(),
            with_def == views(v@),
            views(kept@) == with_def.take(i as int).filter(|id: Seq<char>| has_id(registry@, id)),
        decreases v.len() - i,
    {
        proof {
            reveal(Seq::filter);
            assert(with_def.take(i + 1).drop_last() =~= with_def.take(i as int));
            assert(with_def.take(i + 1).last() == v@[i as int]@);
        }
        if registry.contains(v[i].as_str()) {
            let ghost before = kept@;
            kept.push(v[i].clone());
            assert(views(kept@) =~= views(before).push(v@[i as int]@));
        }
        i += 1;
    }
    assert(with_def.take(v.len() as int) =~= with_def);
    if kept.len() == 0 {
        match registry.any_id() {
            Some(a) => {
                kept.push(a);
                assert(views(kept@) =~= seq![registry@[0].id]);
            },
            None => {},
        }
    }
    kept
}

// ───────────────────────────── laws ──────────────────────────────────────

/// The candidates of a request keep the preference order of their list: the
/// usable ones are exactly the list filtered by usability, so the first
/// usable model of the list is tried first; when every listed model is
/// usable, the failover order is the list itself.
pub proof fn law_candidates_keep_list_order(cands: Seq<Seq<char>>, reg: Seq<ProviderView>, needs_tools: bool)
    ensures
        keep_usable(cands, reg, needs_tools) == cands.filter(|c: Seq<char>| usable(reg, c, needs_tools)),
        (forall|i: int| 0 <= i < cands.len() ==> usable(reg, #[trigger] cands[i], needs_tools))
            ==> keep_usable(cands, reg, needs_tools) == cands,
    decreases cands.len(),
{
    reveal(Seq::filter);
    if cands.len() > 0 {
        law_candidates_keep_list_order(cands.drop_last(), reg, needs_tools);
        if forall|i: int| 0 <= i < cands.len() ==> usable(reg, #[trigger] cands[i], needs_tools) {
            assert forall|i: int| 0 <= i < cands.drop_last().len() implies usable(
                reg,
                #[trigger] cands.drop_last()[i],
                needs_tools,
            ) by {
                assert(cands.drop_last()[i] == cands[i]);
            }
            assert(usable(reg, cands[cands.len() - 1], needs_tools));
            assert(cands.drop_last().push(cands.last()) =~= cands);
        }
    } else {
        assert(cands =~= Seq::<Seq<char>>::empty());
    }
}

/// A routed request whose tier is configured, when every model of the tier
/// can serve it, is offered exactly that tier's list, in the order written.
pub proof fn law_routed_request_follows_tier_list(
    cfg: Config,
    k: int,
    reg: Seq<ProviderView>,
    needs_tools: bool,
    profile: Option<String>,
)
    requires
        crate::config::config_valid(cfg),
        0 <= k < cfg.routing.tiers@.len(),
        forall|i: int|
            0 <= i < crate::config::tier_list(cfg.routing.tiers@[k].1).len() ==> usable(
                reg,
                #[trigger] crate::config::tier_list(cfg.routing.tiers@[k].1)[i],
                needs_tools,
            ),
    ensures
        keep_usable(
            raw_candidates(
                RoutingDirective::Auto { profile },
                false,
                crate::routing::table_of(cfg),
                cfg.routing.tiers@[k].0@,
            ),
            reg,
            needs_tools,
        ) == crate::config::tier_list(cfg.routing.tiers@[k].1),
{
    crate::routing::law_tier_candidates_are_its_list(cfg, k);
    law_candidates_keep_list_order(crate::config::tier_list(cfg.routing.tiers@[k].1), reg, needs_tools);
}

proof fn lemma_last_role(ms: Seq<(Seq<char>, Seq<char>)>, role: Seq<char>, j: int, i: int)
    requires
        0 <= j < i <= ms.len(),
        ms[j].0 == role,
        forall|k: int| j < k < ms.len() ==> ms[k].0 != role,
    ensures
        last_role_index(ms, role, i) == j,
    decreases i,
{
    if i - 1 > j {
        lemma_last_role(ms, role, j, i - 1);
    }
}

/// With the `last_user` strategy the text to classify is the content of the
/// last user turn, cut to `max_chars` characters; whatever the strategy, the
/// text is a prefix of the strategy's full text, no longer than `max_chars`,
/// and the full text itself when that fits.
pub proof fn law_last_user_text(ms: Seq<Message>, j: int, strategy: Seq<char>, max_chars: nat)
    requires
        0 <= j < ms.len(),
        ms[j].role@ == "user"@,
        forall|k: int| j < k < ms.len() ==> ms[k].role@ != "user"@,
    ensures
        raw_route_text(turns(ms), "last_user"@) == ms[j].content@,
        route_text(ms, strategy, max_chars).len() <= max_chars,
        route_text(ms, strategy, max_chars) == raw_route_text(turns(ms), strategy).take(
            route_text(ms, strategy, max_chars).len() as int,
        ),
        raw_route_text(turns(ms), strategy).len() <= max_chars ==> route_text(ms, strategy, max_chars)
            == raw_route_text(turns(ms), strategy),
{
    let ts = turns(ms);
    assert forall|k: int| j < k < ts.len() implies ts[k].0 != "user"@ by {
        assert(ts[k].0 == ms[k].role@);
    }
    assert(ts[j].0 == ms[j].role@);
    lemma_last_role(ts, "user"@, j, ts.len() as int);
    let raw = raw_route_text(ts, strategy);
    if raw.len() <= max_chars {
        assert(raw.take(raw.len() as int) =~= raw);
    }
}

/// Index of the first system turn (the length when there is none).
pub open spec fn first_system(ms: Seq<(Seq<char>, Seq<char>)>) -> int
    decreases ms.len(),
{
    if ms.len() == 0 {
        0
    } else if ms[0].0 == "system"@ {
        0
    } else {
        1 + first_system(ms.drop_first())
    }
}

proof fn lemma_first_system_text(ms: Seq<(Seq<char>, Seq<char>)>, j: int)
    requires
        0 <= j < ms.len(),
        ms[j].0 == "system"@,
    ensures
        system_texts(ms).len() > 0,
        0 <= first_system(ms) < ms.len(),
        ms[first_system(ms)].0 == "system"@,
        system_texts(ms)[0] == ms[first_system(ms)].1,
    decreases ms.len(),
{
    if ms.len() == 1 {
        assert(ms.drop_last() =~= Seq::<(Seq<char>, Seq<char>)>::empty());
    } else if j == ms.len() - 1 {
        if exists|k: int| 0 <= k < ms.len() - 1 && ms[k].0 == "system"@ {
            let k = choose|k: int| 0 <= k < ms.len() - 1 && ms[k].0 == "system"@;
            assert(ms.drop_last()[k] == ms[k]);
            lemma_first_system_text(ms.drop_last(), k);
            lemma_first_system_prefix(ms, k);
        } else {
            lemma_no_system(ms.drop_last());
            lemma_first_system_at_last(ms);
        }
    } else {
        assert(ms.drop_last()[j] == ms[j]);
        lemma_first_system_text(ms.drop_last(), j);
        lemma_first_system_prefix(ms, j);
    }
}

/// A system turn before the last turn: the first system turn is found in
/// the turns without the last.
proof fn lemma_first_system_prefix(ms: Seq<(Seq<char>, Seq<char>)>, k: int)
    requires
        0 <= k < ms.len() - 1,
        ms[k].0 == "system"@,
    ensures
        first_system(ms) == first_system(ms.drop_last()),
    decreases ms.len(),
{
    if ms[0].0 != "system"@ {
        assert(ms.drop_first()[k - 1] == ms[k]);
        assert(ms.drop_last().drop_first() =~= ms.drop_first().drop_last());
        lemma_first_system_prefix(ms.drop_first(), k - 1);
    }
}

proof fn lemma_no_system(ms: Seq<(Seq<char>, Seq<char>)>)
    requires
        forall|k: int| 0 <= k < ms.len() ==> ms[k].0 != "system"@,
    ensures
        system_texts(ms).len() == 0,
    decreases ms.len(),
{
    if ms.len() > 0 {
        assert forall|k: int| 0 <= k < ms.drop_last().len() implies ms.drop_last()[k].0 != "system"@ by {
            assert(ms.drop_last()[k] == ms[k]);
        }
        lemma_no_system(ms.drop_last());
    }
}

proof fn lemma_first_system_at_last(ms: Seq<(Seq<char>, Seq<char>)>)
    requires
        ms.len() > 0,
        ms[ms.len() - 1].0 == "system"@,
        forall|k: int| 0 <= k < ms.len() - 1 ==> ms[k].0 != "system"@,
    ensures
        first_system(ms) == ms.len() - 1,
    decreases ms.len(),
{
    if ms.len() > 1 {
        assert(ms[0].0 != "system"@);
        assert forall|k: int| 0 <= k < ms.drop_first().len() - 1 implies ms.drop_first()[k].0 != "system"@ by {
            assert(ms.drop_first()[k] == ms[k + 1]);
        }
        lemma_first_system_at_last(ms.drop_first());
    }
}

proof fn lemma_join_starts(parts: Seq<Seq<char>>, sep: Seq<char>)
    requires
        parts.len() > 0,
    ensures
        join(parts, sep).len() >= parts[0].len(),
        join(parts, sep).take(parts[0].len() as int) == parts[0],
    decreases parts.len(),
{
    if parts.len() == 1 {
        assert(join(parts, sep).take(parts[0].len() as int) =~= parts[0]);
    } else {
        lemma_join_starts(parts.drop_last(), sep);
        let j = join(parts.drop_last(), sep);
        assert(parts.drop_last()[0] == parts[0]);
        assert((j + sep + parts.last()).take(parts[0].len() as int) =~= j.take(parts[0].len() as int));
    }
}

/// With the `last_user_plus_system` strategy and at least one system turn,
/// the text to classify (before it is cut to size) starts with the first
/// system turn's content and ends with a line break and the last user turn's
/// content; so it is longer than, and differs from, the `last_user` text.
pub proof fn law_system_turns_lead_the_text(ms: Seq<(Seq<char>, Seq<char>)>, j: int)
    requires
        0 <= j < ms.len(),
        ms[j].0 == "system"@,
    ensures
        ({
            let t = raw_route_text(ms, "last_user_plus_system"@);
            let first = ms[first_system(ms)].1;
            let tail = "\n"@ + last_user_text(ms);
            &&& ms[first_system(ms)].0 == "system"@
            &&& t.len() >= first.len() + tail.len()
            &&& t.take(first.len() as int) == first
            &&& t.skip(t.len() - tail.len()) == tail
            &&& t.len() > raw_route_text(ms, "last_user"@).len()
        }),
{
    reveal_strlit("last_user_plus_system");
    reveal_strlit("last_user");
    reveal_strlit("\n");
    lemma_first_system_text(ms, j);
    let sys = system_texts(ms);
    lemma_join_starts(sys, "\n"@);
    let jn = join(sys, "\n"@);
    let t = jn + ("\n"@ + last_user_text(ms));
    assert("last_user_plus_system"@.len() != "last_user"@.len());
    assert("last_user_plus_system"@ != "last_user"@);
    assert(sys.len() != 0);
    assert(raw_route_text(ms, "last_user_plus_system"@) == jn + "\n"@ + last_user_text(ms));
    assert(raw_route_text(ms, "last_user_plus_system"@) =~= t);
    assert(t.take(sys[0].len() as int) =~= jn.take(sys[0].len() as int));
    assert(t.skip(t.len() - ("\n"@ + last_user_text(ms)).len()) =~= "\n"@ + last_user_text(ms));
}

/// Without the router, a managed local model that is registered is tried
/// first; with a registered routing default that differs from it, the two
/// are tried in that order and nothing else.
pub proof fn law_local_model_first(cfg: Config, default: Seq<char>, reg: Seq<ProviderView>)
    requires
        has_local_model(cfg.cmf),
        has_id(reg, cfg.cmf.model_id@),
    ensures
        local_candidates_of(cfg, default, reg).len() >= 1,
        local_candidates_of(cfg, default, reg)[0] == cfg.cmf.model_id@,
        default.len() > 0 && default != cfg.cmf.model_id@ && has_id(reg, default)
            ==> local_candidates_of(cfg, default, reg) == seq![cfg.cmf.model_id@, default],
{
    reveal_with_fuel(Seq::filter, 3);
    let local: Seq<Seq<char>> = seq![cfg.cmf.model_id@];
    assert(local.drop_last() =~= Seq::<Seq<char>>::empty());
    if default.len() > 0 && !local.contains(default) {
        let w = local.push(default);
        assert(w.drop_last() =~= local);
        assert(w.drop_last().drop_last() =~= Seq::<Seq<char>>::empty());
        let kept = w.filter(|id: Seq<char>| has_id(reg, id));
        assert(local.filter(|id: Seq<char>| has_id(reg, id)) =~= seq![cfg.cmf.model_id@]);
        if has_id(reg, default) {
            assert(kept =~= seq![cfg.cmf.model_id@, default]);
        } else {
            assert(kept =~= seq![cfg.cmf.model_id@]);
        }
    } else {
        assert(local.filter(|id: Seq<char>| has_id(reg, id)) =~= seq![cfg.cmf.model_id@]);
        if default.len() > 0 && default != cfg.cmf.model_id@ {
            assert(local[0] == cfg.cmf.model_id@);
            assert(!local.contains(default));
        }
    }
}

} // verus!
