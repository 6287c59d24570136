//! Request statistics for the dashboard and `GET /metrics`: all-time totals
//! (monotonic, for Prometheus), per-minute buckets over the retention window
//! (the single source of the windowed admin snapshot, which sums the
//! in-window buckets), and a ring of recent requests.
//!
//! Counters saturate at `u64::MAX`. The money amount of a request is carried
//! as an `Amount` and summed alongside the counters.

use vstd::prelude::*;
use crate::text::{
    append_str, chars_of, dec, is_ws, owned, parse_uint, push_char, push_dec, str_eq, trim,
};

verus! {

/// A money amount that can be summed.
pub trait Amount: Sized {
    /// The amount of no requests.
    spec fn nothing() -> Self;

    /// The sum of two amounts.
    spec fn plus(a: Self, b: Self) -> Self;

    fn zero() -> (z: Self)
        ensures
            z == Self::nothing(),
    ;

    fn sum(&self, other: &Self) -> (s: Self)
        ensures
            s == Self::plus(*self, *other),
    ;
}

/// Integer amounts (e.g. micro-units of a currency), summed with saturation.
impl Amount for u64 {
    open spec fn nothing() -> u64 {
        0
    }

    open spec fn plus(a: u64, b: u64) -> u64 {
        if a + b > u64::MAX {
            u64::MAX
        } else {
            (a + b) as u64
        }
    }

    fn zero() -> (z: u64) {
        0
    }

    fn sum(&self, other: &u64) -> (s: u64) {
        self.saturating_add(*other)
    }
}

/// One completed request. `S` is the router's complexity score and `C` the
/// request's cost; both are carried, not interpreted.
pub struct RequestRecord<S, C> {
    pub ts: u64,
    pub account: String,
    pub protocol: String,
    /// auto | pinned
    pub directive: String,
    pub task_label: String,
    pub tier: String,
    pub score: S,
    pub model_id: String,
    pub route_source: String,
    pub prompt_tokens: u32,
    pub completion_tokens: u32,
    pub cost_usd: C,
    pub latency_ms: u64,
    /// ok | error
    pub outcome: String,
    pub failover: bool,
    pub error: Option<String>,
}

/// The integer counters of a set of requests.
pub struct Tally {
    pub requests: u64,
    pub ok: u64,
    pub errors: u64,
    pub failovers: u64,
    pub prompt_tokens: u64,
    pub completion_tokens: u64,
    pub latency_ms_sum: u64,
}

/// Totals over a set of requests.
#[derive(Clone, Copy)]
pub struct Totals<C> {
    pub requests: u64,
    pub ok: u64,
    pub errors: u64,
    pub failovers: u64,
    pub prompt_tokens: u64,
    pub completion_tokens: u64,
    pub cost_usd: C,
    pub latency_ms_sum: u64,
}

pub open spec fn tally_of<C>(t: Totals<C>) -> Tally {
    Tally {
        requests: t.requests,
        ok: t.ok,
        errors: t.errors,
        failovers: t.failovers,
        prompt_tokens: t.prompt_tokens,
        completion_tokens: t.completion_tokens,
        latency_ms_sum: t.latency_ms_sum,
    }
}

pub open spec fn zero_tally() -> Tally {
    Tally {
        requests: 0,
        ok: 0,
        errors: 0,
        failovers: 0,
        prompt_tokens: 0,
        completion_tokens: 0,
        latency_ms_sum: 0,
    }
}

pub open spec fn is_ok<S, C>(r: RequestRecord<S, C>) -> bool {
    r.outcome@ == "ok"@
}

/// The counters after one more request.
pub open spec fn tally_apply<S, C>(t: Tally, r: RequestRecord<S, C>) -> Tally {
    Tally {
        requests: t.requests.saturating_add(1),
        ok: if is_ok(r) {
            t.ok.saturating_add(1)
        } else {
            t.ok
        },
        errors: if is_ok(r) {
            t.errors
        } else {
            t.errors.saturating_add(1)
        },
        failovers: if r.failover {
            t.failovers.saturating_add(1)
        } else {
            t.failovers
        },
        prompt_tokens: t.prompt_tokens.saturating_add(r.prompt_tokens as u64),
        completion_tokens: t.completion_tokens.saturating_add(r.completion_tokens as u64),
        latency_ms_sum: t.latency_ms_sum.saturating_add(r.latency_ms),
    }
}

/// The counters of two sets of requests together.
pub open spec fn tally_merge(a: Tally, b: Tally) -> Tally {
    Tally {
        requests: a.requests.saturating_add(b.requests),
        ok: a.ok.saturating_add(b.ok),
        errors: a.errors.saturating_add(b.errors),
        failovers: a.failovers.saturating_add(b.failovers),
        prompt_tokens: a.prompt_tokens.saturating_add(b.prompt_tokens),
        completion_tokens: a.completion_tokens.saturating_add(b.completion_tokens),
        latency_ms_sum: a.latency_ms_sum.saturating_add(b.latency_ms_sum),
    }
}

impl<C: Amount> Totals<C> {
    /// No requests.
    pub fn new() -> (t: Self)
        ensures
            tally_of(t) == zero_tally(),
            t.cost_usd == C::nothing(),
    {
        Totals {
            requests: 0,
            ok: 0,
            errors: 0,
            failovers: 0,
            prompt_tokens: 0,
            completion_tokens: 0,
            cost_usd: C::zero(),
            latency_ms_sum: 0,
        }
    }

    /// Counts one more request.
    pub fn apply<S>(&mut self, r: &RequestRecord<S, C>)
        ensures
            tally_of(*final(self)) == tally_apply(tally_of(*old(self)), *r),
            final(self).cost_usd == C::plus(old(self).cost_usd, r.cost_usd),
    {
        self.requests = self.requests.saturating_add(1);
        if str_eq(r.outcome.as_str(), "ok") {
            self.ok = self.ok.saturating_add(1);
        } else {
            self.errors = self.errors.saturating_add(1);
        }
        if r.failover {
            self.failovers = self.failovers.saturating_add(1);
        }
        self.prompt_tokens = self.prompt_tokens.saturating_add(r.prompt_tokens as u64);
        self.completion_tokens = self.completion_tokens.saturating_add(r.completion_tokens as u64);
        self.cost_usd = self.cost_usd.sum(&r.cost_usd);
        self.latency_ms_sum = self.latency_ms_sum.saturating_add(r.latency_ms);
    }

    /// Adds another set of totals into this one.
    pub fn merge(&mut self, o: &Totals<C>)
        ensures
            tally_of(*final(self)) == tally_merge(tally_of(*old(self)), tally_of(*o)),
            final(self).cost_usd == C::plus(old(self).cost_usd, o.cost_usd),
    {
        self.requests = self.requests.saturating_add(o.requests);
        self.ok = self.ok.saturating_add(o.ok);
        self.errors = self.errors.saturating_add(o.errors);
        self.failovers = self.failovers.saturating_add(o.failovers);
        self.prompt_tokens = self.prompt_tokens.saturating_add(o.prompt_tokens);
        self.completion_tokens = self.completion_tokens.saturating_add(o.completion_tokens);
        self.cost_usd = self.cost_usd.sum(&o.cost_usd);
        self.latency_ms_sum = self.latency_ms_sum.saturating_add(o.latency_ms_sum);
    }
}

impl<C> Totals<C> {
    /// Prompt and completion tokens together (saturating like every counter).
    pub fn total_tokens(&self) -> (r: u64)
        ensures
            r == self.prompt_tokens.saturating_add(self.completion_tokens),
    {
        self.prompt_tokens.saturating_add(self.completion_tokens)
    }
}

/// `sum / n`, or 0 when there is nothing to average.
pub fn avg(sum: u64, n: u64) -> (r: u64)
    ensures
        r == if n == 0 {
            0
        } else {
            sum / n
        },
{
    if n == 0 {
        0
    } else {
        sum / n
    }
}

/// How one character of a Prometheus label value is written.
pub open spec fn label_char(c: char) -> Seq<char> {
    if c == '\\' {
        seq!['\\', '\\']
    } else if c == '"' {
        seq!['\\', '"']
    } else if c == '\n' {
        seq![' ']
    } else {
        seq![c]
    }
}

/// A Prometheus label value: backslashes and quotes escaped, newlines
/// replaced by spaces.
pub open spec fn escaped_label(s: Seq<char>) -> Seq<char>
    decreases s.len(),
{
    if s.len() == 0 {
        Seq::empty()
    } else {
        escaped_label(s.drop_last()) + label_char(s.last())
    }
}

pub fn escape_label(s: &str) -> (r: String)
    ensures
        r@ == escaped_label(s@),
{
    let v = chars_of(s);
    let mut r = String::new();
    let mut i: usize = 0;
    while i < v.len()
        invariant
            i <= v.len(),
            v@ == s@,
            r@ == escaped_label(v@.take(i as int)),
        decreases v.len() - i,
    {
        let c = v[i];
        let ghost before = r@;
        if c == '\\' {
            push_char(&mut r, '\\');
            push_char(&mut r, '\\');
        } else if c == '"' {
            push_char(&mut r, '\\');
            push_char(&mut r, '"');
        } else if c == '\n' {
            push_char(&mut r, ' ');
        } else {
            push_char(&mut r, c);
        }
        assert(r@ =~= before + label_char(c));
        assert(v@.take(i + 1).drop_last() =~= v@.take(i as int));
        i += 1;
    }
    assert(v@.take(v.len() as int) =~= v@);
    r
}

/// Seconds per unit suffix: `d`, `h`, `m`, `s`; a bare number is seconds.
pub open spec fn unit_secs(c: char) -> nat {
    if c == 'd' {
        86400
    } else if c == 'h' {
        3600
    } else if c == 'm' {
        60
    } else {
        1
    }
}

pub open spec fn has_unit(s: Seq<char>) -> bool {
    s.len() > 0 && (s.last() == 'd' || s.last() == 'h' || s.last() == 'm' || s.last() == 's')
}

/// The number part and the multiplier of a trimmed duration.
pub open spec fn duration_parts(t: Seq<char>) -> (Seq<char>, nat) {
    if has_unit(t) {
        (t.drop_last(), unit_secs(t.last()))
    } else {
        (t, 1)
    }
}

/// `7d` / `24h` / `90m` / `3600s` / `3600` in seconds; `None` for anything
/// else (the number part may be padded with whitespace and carry a `+`).
pub open spec fn duration_secs(s: Seq<char>) -> Option<nat> {
    let t = trim(s);
    if t.len() == 0 {
        None
    } else {
        let (num, mult) = duration_parts(t);
        match parse_uint(trim(num), u64::MAX as nat) {
            Some(v) => Some(v * mult),
            None => None,
        }
    }
}

/// Whether a duration's value in seconds fits in a `u64` (a malformed
/// duration fits trivially: it has no value).
pub open spec fn duration_fits(s: Seq<char>) -> bool {
    match duration_secs(s) {
        Some(v) => v <= u64::MAX,
        None => true,
    }
}

fn duration_split(s: &str) -> (r: Option<(String, u64)>)
    ensures
        trim(s@).len() == 0 ==> r is None,
        trim(s@).len() > 0 ==> (r matches Some((num, mult)) && num@ == trim(
            duration_parts(trim(s@)).0,
        ) && mult as nat == duration_parts(trim(s@)).1 && mult >= 1),
{
    let t = crate::text::trimmed(s);
    let v = chars_of(t.as_str());
    if v.len() == 0 {
        return None;
    }
    let last = v[v.len() - 1];
    let (end, mult): (usize, u64) = if last == 'd' {
        (v.len() - 1, 86400)
    } else if last == 'h' {
        (v.len() - 1, 3600)
    } else if last == 'm' {
        (v.len() - 1, 60)
    } else if last == 's' {
        (v.len() - 1, 1)
    } else {
        (v.len(), 1)
    };
    let num = crate::text::string_of_range(&v, 0, end);
    assert(v@.drop_last() =~= v@.subrange(0, v.len() - 1));
    assert(v@ =~= v@.subrange(0, v.len() as int));
    Some((crate::text::trimmed(num.as_str()), mult))
}

/// Whether `parse_duration_secs` can take `s`: its value, if any, fits in a
/// `u64`.
pub fn duration_in_range(s: &str) -> (b: bool)
    ensures
        b == duration_fits(s@),
{
    match duration_split(s) {
        None => true,
        Some((num, mult)) => match crate::text::parse_u64(num.as_str()) {
            None => true,
            Some(v) => {
                assert((v <= u64::MAX / mult) == (v * mult <= u64::MAX)) by (nonlinear_arith)
                    requires
                        mult >= 1,
                ;
                v <= u64::MAX / mult
            },
        },
    }
}

/// Parses a duration such as `7d`, `24h`, `90m`, `3600s` (or a bare number
/// of seconds) into seconds.
pub fn parse_duration_secs(s: &str) -> (r: Option<u64>)
    requires
        duration_fits(s@),
    ensures
        match duration_secs(s@) {
            Some(v) => r == Some(v as u64),
            None => r is None,
        },
{
    match duration_split(s) {
        None => None,
        Some((num, mult)) => match crate::text::parse_u64(num.as_str()) {
            None => None,
            Some(v) => Some(v * mult),
        },
    }
}

// ───────────────────────────── groups ─────────────────────────────────────

/// Per-key totals, keyed by model, account, tier or task label.
pub open spec fn group_view<C>(g: Seq<(String, Totals<C>)>) -> Seq<(Seq<char>, Tally)> {
    g.map_values(|p: (String, Totals<C>)| (p.0@, tally_of(p.1)))
}

pub open spec fn group_keys(g: Seq<(Seq<char>, Tally)>) -> Seq<Seq<char>> {
    g.map_values(|p: (Seq<char>, Tally)| p.0)
}

pub open spec fn group_ok(g: Seq<(Seq<char>, Tally)>) -> bool {
    crate::jobs::distinct(group_keys(g))
}

/// The totals of key `k` (zero when the key is absent).
pub open spec fn group_get(g: Seq<(Seq<char>, Tally)>, k: Seq<char>) -> Tally {
    match crate::jobs::key_pos(group_keys(g), k) {
        Some(i) => g[i].1,
        None => zero_tally(),
    }
}

pub open spec fn group_has(g: Seq<(Seq<char>, Tally)>, k: Seq<char>) -> bool {
    crate::jobs::key_pos(group_keys(g), k) is Some
}

/// The group after counting request `r` under key `k` (a new key goes last).
pub open spec fn group_apply<S, C>(g: Seq<(Seq<char>, Tally)>, k: Seq<char>, r: RequestRecord<S, C>) -> Seq<
    (Seq<char>, Tally),
> {
    match crate::jobs::key_pos(group_keys(g), k) {
        Some(i) => g.update(i, (k, tally_apply(g[i].1, r))),
        None => g.push((k, tally_apply(zero_tally(), r))),
    }
}

/// The group after adding totals `t` under key `k` (a new key goes last).
pub open spec fn group_merge(g: Seq<(Seq<char>, Tally)>, k: Seq<char>, t: Tally) -> Seq<
    (Seq<char>, Tally),
> {
    match crate::jobs::key_pos(group_keys(g), k) {
        Some(i) => g.update(i, (k, tally_merge(g[i].1, t))),
        None => g.push((k, tally_merge(zero_tally(), t))),
    }
}

fn group_position<C>(g: &Vec<(String, Totals<C>)>, k: &str) -> (r: Option<usize>)
    requires
        group_ok(group_view(g@)),
    ensures
        match r {
            Some(i) => i < g@.len() && crate::jobs::key_pos(group_keys(group_view(g@)), k@) == Some(
                i as int,
            ),
            None => crate::jobs::key_pos(group_keys(group_view(g@)), k@) is None,
        },
{
    let ghost keys = group_keys(group_view(g@));
    let mut i: usize = 0;
    while i < g.len()
        invariant
            i <= g@.len(),
            keys == group_keys(group_view(g@)),
            keys.len() == g@.len(),
            forall|j: int| 0 <= j < i ==> keys[j] != k@,
        decreases g.len() - i,
    {
        if str_eq(g[i].0.as_str(), k) {
            proof {
                assert(keys[i as int] == k@);
                let c = choose|c: int|
                    0 <= c < keys.len() && keys[c] == k@ && forall|j: int| 0 <= j < c ==> keys[j] != k@;
                if c < i {
                } else if c > i {
                    assert(keys[i as int] != k@);
                }
            }
            return Some(i);
        }
        i += 1;
    }
    None
}

/// Counts request `r` under key `k`.
pub fn group_apply_exec<S, C: Amount>(g: &mut Vec<(String, Totals<C>)>, k: String, r: &RequestRecord<S, C>)
    requires
        group_ok(group_view(old(g)@)),
    ensures
        group_ok(group_view(final(g)@)),
        group_view(final(g)@) == group_apply(group_view(old(g)@), k@, *r),
        totals_costs(final(g)@) == costs_add(group_view(old(g)@), totals_costs(old(g)@), k@, r.cost_usd),
{
    let ghost before = group_view(g@);
    match group_position(g, k.as_str()) {
        Some(i) => {
            let (name, mut t) = g.remove(i);
            t.apply(r);
            g.insert(i, (name, t));
            assert(group_view(g@) =~= before.update(i as int, (k@, tally_apply(before[i as int].1, *r))));
            assert(group_keys(group_view(g@)) =~= group_keys(before));
        },
        None => {
            let ghost kv = k@;
            let mut t = Totals::new();
            t.apply(r);
            g.push((k, t));
            assert(group_view(g@) =~= before.push((kv, tally_apply(zero_tally(), *r))));
            assert(group_keys(group_view(g@)) =~= group_keys(before).push(kv));
            proof {
                crate::jobs::lemma_push_new_key(group_keys(before), kv);
            }
        },
    }
}

/// Adds totals `t` under key `k`.
pub fn group_merge_exec<C: Amount + Copy>(g: &mut Vec<(String, Totals<C>)>, k: &String, t: &Totals<C>)
    requires
        group_ok(group_view(old(g)@)),
    ensures
        group_ok(group_view(final(g)@)),
        group_view(final(g)@) == group_merge(group_view(old(g)@), k@, tally_of(*t)),
        totals_costs(final(g)@) == costs_add(group_view(old(g)@), totals_costs(old(g)@), k@, t.cost_usd),
{
    let ghost before = group_view(g@);
    match group_position(g, k.as_str()) {
        Some(i) => {
            let (name, mut acc) = g.remove(i);
            acc.merge(t);
            g.insert(i, (name, acc));
            assert(group_view(g@) =~= before.update(
                i as int,
                (k@, tally_merge(before[i as int].1, tally_of(*t))),
            ));
            assert(group_keys(group_view(g@)) =~= group_keys(before));
        },
        None => {
            let mut acc = Totals::new();
            acc.merge(t);
            g.push((k.clone(), acc));
            assert(group_view(g@) =~= before.push((k@, tally_merge(zero_tally(), tally_of(*t)))));
            assert(group_keys(group_view(g@)) =~= group_keys(before).push(k@));
            proof {
                crate::jobs::lemma_push_new_key(group_keys(before), k@);
            }
        },
    }
}

// ───────────────────────────── buckets ────────────────────────────────────

/// Per-minute bucket: chart counters plus the per-group breakdown, so the
/// admin snapshot for any window is the sum of the in-window buckets.
pub struct Bucket<C> {
    /// Unix seconds, rounded down to the minute.
    pub minute: u64,
    pub requests: u64,
    pub errors: u64,
    pub prompt_tokens: u64,
    pub completion_tokens: u64,
    pub cost_usd: C,
    pub latency_ms_sum: u64,
    pub failovers: u64,
    pub by_model: Vec<(String, Totals<C>)>,
    pub by_account: Vec<(String, Totals<C>)>,
    pub by_tier: Vec<(String, Totals<C>)>,
    pub by_label: Vec<(String, Totals<C>)>,
}

pub struct BucketView {
    pub minute: u64,
    pub requests: u64,
    pub errors: u64,
    pub prompt_tokens: u64,
    pub completion_tokens: u64,
    pub latency_ms_sum: u64,
    pub failovers: u64,
    pub by_model: Seq<(Seq<char>, Tally)>,
    pub by_account: Seq<(Seq<char>, Tally)>,
    pub by_tier: Seq<(Seq<char>, Tally)>,
    pub by_label: Seq<(Seq<char>, Tally)>,
}

pub open spec fn bucket_view<C>(b: Bucket<C>) -> BucketView {
    BucketView {
        minute: b.minute,
        requests: b.requests,
        errors: b.errors,
        prompt_tokens: b.prompt_tokens,
        completion_tokens: b.completion_tokens,
        latency_ms_sum: b.latency_ms_sum,
        failovers: b.failovers,
        by_model: group_view(b.by_model@),
        by_account: group_view(b.by_account@),
        by_tier: group_view(b.by_tier@),
        by_label: group_view(b.by_label@),
    }
}

/// A tally whose successes and errors add up to its requests (unless the
/// request count has reached its maximum) and do not exceed them.
pub open spec fn sane(t: Tally) -> bool {
    &&& (t.requests == u64::MAX || t.ok + t.errors == t.requests)
    &&& t.ok <= t.requests
    &&& t.errors <= t.requests
}

/// Every entry of a group is sane.
pub open spec fn group_sane(g: Seq<(Seq<char>, Tally)>) -> bool {
    forall|i: int| 0 <= i < g.len() ==> sane(#[trigger] g[i].1)
}

pub proof fn lemma_apply_sane<S, C>(t: Tally, r: RequestRecord<S, C>)
    requires
        sane(t),
    ensures
        sane(tally_apply(t, r)),
{
}

pub proof fn lemma_merge_sane(a: Tally, b: Tally)
    requires
        sane(a),
        sane(b),
    ensures
        sane(tally_merge(a, b)),
{
}

proof fn lemma_group_apply_sane<S, C>(g: Seq<(Seq<char>, Tally)>, k: Seq<char>, r: RequestRecord<S, C>)
    requires
        group_sane(g),
    ensures
        group_sane(group_apply(g, k, r)),
{
    let g2 = group_apply(g, k, r);
    match crate::jobs::key_pos(group_keys(g), k) {
        Some(i) => {
            crate::jobs::lemma_key_pos_some(group_keys(g), k);
            assert(sane(g[i].1));
            lemma_apply_sane(g[i].1, r);
            assert(g2 == g.update(i, (k, tally_apply(g[i].1, r))));
        },
        None => {
            lemma_apply_sane(zero_tally(), r);
        },
    }
    assert forall|j: int| 0 <= j < g2.len() implies sane(#[trigger] g2[j].1) by {
        if j < g.len() {
            assert(sane(g[j].1));
        }
    }
}

pub open spec fn bucket_ok(b: BucketView) -> bool {
    b.errors <= b.requests && group_sane(b.by_model) && group_sane(b.by_account) && group_sane(
        b.by_tier,
    ) && group_sane(b.by_label) && group_ok(b.by_model) && group_ok(b.by_account) && group_ok(b.by_tier) && group_ok(b.by_label)
}

pub open spec fn empty_bucket(minute: u64) -> BucketView {
    BucketView {
        minute,
        requests: 0,
        errors: 0,
        prompt_tokens: 0,
        completion_tokens: 0,
        latency_ms_sum: 0,
        failovers: 0,
        by_model: Seq::empty(),
        by_account: Seq::empty(),
        by_tier: Seq::empty(),
        by_label: Seq::empty(),
    }
}

/// The account key of a request: its account, `anonymous` when it has none.
pub open spec fn account_key<S, C>(r: RequestRecord<S, C>) -> Seq<char> {
    if r.account@.len() == 0 {
        "anonymous"@
    } else {
        r.account@
    }
}

/// A bucket after one more request.
pub open spec fn bucket_fill<S, C>(b: BucketView, r: RequestRecord<S, C>) -> BucketView {
    BucketView {
        minute: b.minute,
        requests: b.requests.saturating_add(1),
        errors: if is_ok(r) {
            b.errors
        } else {
            b.errors.saturating_add(1)
        },
        failovers: if r.failover {
            b.failovers.saturating_add(1)
        } else {
            b.failovers
        },
        prompt_tokens: b.prompt_tokens.saturating_add(r.prompt_tokens as u64),
        completion_tokens: b.completion_tokens.saturating_add(r.completion_tokens as u64),
        latency_ms_sum: b.latency_ms_sum.saturating_add(r.latency_ms),
        by_model: group_apply(b.by_model, r.model_id@, r),
        by_account: group_apply(b.by_account, account_key(r), r),
        by_tier: group_apply(b.by_tier, r.tier@, r),
        by_label: group_apply(b.by_label, r.task_label@, r),
    }
}

impl<C: Amount> Bucket<C> {
    pub fn new(minute: u64) -> (b: Self)
        ensures
            bucket_view(b) == empty_bucket(minute),
            bucket_ok(bucket_view(b)),
            bucket_cost_view(b) == empty_costs::<C>(),
    {
        let b = Bucket {
            minute,
            requests: 0,
            errors: 0,
            prompt_tokens: 0,
            completion_tokens: 0,
            cost_usd: C::zero(),
            latency_ms_sum: 0,
            failovers: 0,
            by_model: Vec::new(),
            by_account: Vec::new(),
            by_tier: Vec::new(),
            by_label: Vec::new(),
        };
        assert(group_view(b.by_model@) =~= Seq::<(Seq<char>, Tally)>::empty());
        assert(group_view(b.by_account@) =~= Seq::<(Seq<char>, Tally)>::empty());
        assert(group_view(b.by_tier@) =~= Seq::<(Seq<char>, Tally)>::empty());
        assert(group_view(b.by_label@) =~= Seq::<(Seq<char>, Tally)>::empty());
        assert(totals_costs(b.by_model@) =~= Seq::<C>::empty());
        assert(totals_costs(b.by_account@) =~= Seq::<C>::empty());
        assert(totals_costs(b.by_tier@) =~= Seq::<C>::empty());
        assert(totals_costs(b.by_label@) =~= Seq::<C>::empty());
        b
    }

    /// Counts request `r` in this bucket and in its four breakdowns.
    pub fn fill<S>(&mut self, r: &RequestRecord<S, C>)
        requires
            bucket_ok(bucket_view(*old(self))),
        ensures
            bucket_ok(bucket_view(*final(self))),
            bucket_view(*final(self)) == bucket_fill(bucket_view(*old(self)), *r),
            bucket_cost_view(*final(self)) == bucket_cost_fill(
                bucket_view(*old(self)),
                bucket_cost_view(*old(self)),
                *r,
            ),
    {
        self.requests = self.requests.saturating_add(1);
        if !str_eq(r.outcome.as_str(), "ok") {
            self.errors = self.errors.saturating_add(1);
        }
        if r.failover {
            self.failovers = self.failovers.saturating_add(1);
        }
        self.prompt_tokens = self.prompt_tokens.saturating_add(r.prompt_tokens as u64);
        self.completion_tokens = self.completion_tokens.saturating_add(r.completion_tokens as u64);
        self.cost_usd = self.cost_usd.sum(&r.cost_usd);
        self.latency_ms_sum = self.latency_ms_sum.saturating_add(r.latency_ms);
        let ghost before = bucket_view(*old(self));
        group_apply_exec(&mut self.by_model, r.model_id.clone(), r);
        let account = if r.account.as_str().is_empty() {
            owned("anonymous")
        } else {
            r.account.clone()
        };
        group_apply_exec(&mut self.by_account, account, r);
        group_apply_exec(&mut self.by_tier, r.tier.clone(), r);
        group_apply_exec(&mut self.by_label, r.task_label.clone(), r);
        proof {
            lemma_group_apply_sane(before.by_model, r.model_id@, *r);
            lemma_group_apply_sane(before.by_account, account_key(*r), *r);
            lemma_group_apply_sane(before.by_tier, r.tier@, *r);
            lemma_group_apply_sane(before.by_label, r.task_label@, *r);
        }
    }
}

// ───────────────────────────── the statistics ─────────────────────────────

/// Whole minute a timestamp falls in.
pub open spec fn minute_of(ts: u64) -> u64 {
    (ts - ts % 60) as u64
}

/// Start of the window of `span` seconds that ends at `now`.
pub open spec fn cutoff(now: u64, span: u64) -> u64 {
    now.saturating_sub(span)
}

/// The buckets after request `r`: counted in the last bucket when it is for
/// the request's minute, ignored (for the series) when the last bucket is for
/// a later minute, else counted in a new bucket at the end.
pub open spec fn add_to_buckets<S, C>(bs: Seq<BucketView>, r: RequestRecord<S, C>) -> Seq<BucketView> {
    let m = minute_of(r.ts);
    if bs.len() > 0 && bs.last().minute == m {
        bs.update(bs.len() - 1, bucket_fill(bs.last(), r))
    } else if bs.len() > 0 && bs.last().minute > m {
        bs
    } else {
        bs.push(bucket_fill(empty_bucket(m), r))
    }
}

/// The buckets without the leading ones older than `cut`.
pub open spec fn trim_before(bs: Seq<BucketView>, cut: u64) -> Seq<BucketView>
    decreases bs.len(),
{
    if bs.len() > 0 && bs[0].minute < cut {
        trim_before(bs.drop_first(), cut)
    } else {
        bs
    }
}

/// How many leading buckets `trim_before` drops.
pub open spec fn trimmed(bs: Seq<BucketView>, cut: u64) -> nat
    decreases bs.len(),
{
    if bs.len() > 0 && bs[0].minute < cut {
        1 + trimmed(bs.drop_first(), cut)
    } else {
        0
    }
}

/// The costs a bucket has summed: its own, and those of each breakdown entry
/// (in the order of the entries).
pub struct BucketCosts<C> {
    pub total: C,
    pub by_model: Seq<C>,
    pub by_account: Seq<C>,
    pub by_tier: Seq<C>,
    pub by_label: Seq<C>,
}

pub open spec fn totals_costs<C>(g: Seq<(String, Totals<C>)>) -> Seq<C> {
    g.map_values(|p: (String, Totals<C>)| p.1.cost_usd)
}

pub open spec fn bucket_cost_view<C>(b: Bucket<C>) -> BucketCosts<C> {
    BucketCosts {
        total: b.cost_usd,
        by_model: totals_costs(b.by_model@),
        by_account: totals_costs(b.by_account@),
        by_tier: totals_costs(b.by_tier@),
        by_label: totals_costs(b.by_label@),
    }
}

pub open spec fn empty_costs<C: Amount>() -> BucketCosts<C> {
    BucketCosts {
        total: C::nothing(),
        by_model: Seq::empty(),
        by_account: Seq::empty(),
        by_tier: Seq::empty(),
        by_label: Seq::empty(),
    }
}

/// The cost under key `k` of a group with entry costs `cs` (nothing when the
/// key is absent).
pub open spec fn cost_at<C: Amount>(g: Seq<(Seq<char>, Tally)>, cs: Seq<C>, k: Seq<char>) -> C {
    match crate::jobs::key_pos(group_keys(g), k) {
        Some(i) => cs[i],
        None => C::nothing(),
    }
}

/// The entry costs of a group after cost `c` is added under key `k` (in step
/// with `group_apply` and `group_merge`: a new key goes last).
pub open spec fn costs_add<C: Amount>(g: Seq<(Seq<char>, Tally)>, cs: Seq<C>, k: Seq<char>, c: C) -> Seq<
    C,
> {
    match crate::jobs::key_pos(group_keys(g), k) {
        Some(i) => cs.update(i, C::plus(cs[i], c)),
        None => cs.push(C::plus(C::nothing(), c)),
    }
}

/// A bucket's costs after one more request (in step with `bucket_fill`).
pub open spec fn bucket_cost_fill<S, C: Amount>(
    b: BucketView,
    bc: BucketCosts<C>,
    r: RequestRecord<S, C>,
) -> BucketCosts<C> {
    BucketCosts {
        total: C::plus(bc.total, r.cost_usd),
        by_model: costs_add(b.by_model, bc.by_model, r.model_id@, r.cost_usd),
        by_account: costs_add(b.by_account, bc.by_account, account_key(r), r.cost_usd),
        by_tier: costs_add(b.by_tier, bc.by_tier, r.tier@, r.cost_usd),
        by_label: costs_add(b.by_label, bc.by_label, r.task_label@, r.cost_usd),
    }
}

pub open spec fn select_costs<C>(bc: BucketCosts<C>, g: GroupBy) -> Seq<C> {
    match g {
        GroupBy::Account => bc.by_account,
        GroupBy::Tier => bc.by_tier,
        GroupBy::Label => bc.by_label,
        GroupBy::Model => bc.by_model,
    }
}

/// The bucket costs after request `r`, in step with `add_to_buckets`.
pub open spec fn add_to_costs<S, C: Amount>(
    bs: Seq<BucketView>,
    cs: Seq<BucketCosts<C>>,
    r: RequestRecord<S, C>,
) -> Seq<BucketCosts<C>> {
    let m = minute_of(r.ts);
    if bs.len() > 0 && bs.last().minute == m {
        cs.update(cs.len() - 1, bucket_cost_fill(bs.last(), cs.last(), r))
    } else if bs.len() > 0 && bs.last().minute > m {
        cs
    } else {
        cs.push(bucket_cost_fill(empty_bucket(m), empty_costs(), r))
    }
}

pub open spec fn bucket_costs<C>(bs: Seq<Bucket<C>>) -> Seq<BucketCosts<C>> {
    bs.map_values(|b: Bucket<C>| bucket_cost_view(b))
}

/// The costs of the buckets of the window that starts at `cut`, in order.
pub open spec fn window_costs<C>(bs: Seq<BucketView>, cs: Seq<BucketCosts<C>>, cut: u64) -> Seq<
    BucketCosts<C>,
>
    decreases bs.len(),
{
    if bs.len() == 0 || cs.len() == 0 {
        Seq::empty()
    } else if bs.last().minute >= cut {
        window_costs(bs.drop_last(), cs.drop_last(), cut).push(cs.last())
    } else {
        window_costs(bs.drop_last(), cs.drop_last(), cut)
    }
}

/// The sum of the buckets' own costs, from nothing.
pub open spec fn cost_total<C: Amount>(cs: Seq<BucketCosts<C>>) -> C
    decreases cs.len(),
{
    if cs.len() == 0 {
        C::nothing()
    } else {
        C::plus(cost_total(cs.drop_last()), cs.last().total)
    }
}

/// Key `k`'s cost over a window: from nothing, the key's cost in each bucket
/// where it occurs added in order.
pub open spec fn key_cost<C: Amount>(
    ws: Seq<BucketView>,
    wc: Seq<BucketCosts<C>>,
    g: GroupBy,
    k: Seq<char>,
) -> C
    decreases ws.len(),
{
    if ws.len() == 0 || wc.len() == 0 {
        C::nothing()
    } else {
        let prev = key_cost(ws.drop_last(), wc.drop_last(), g, k);
        match crate::jobs::key_pos(group_keys(select(ws.last(), g)), k) {
            Some(i) => C::plus(prev, select_costs(wc.last(), g)[i]),
            None => prev,
        }
    }
}

pub open spec fn bucket_views<C>(bs: Seq<Bucket<C>>) -> Seq<BucketView> {
    bs.map_values(|b: Bucket<C>| bucket_view(b))
}

pub open spec fn all_ok(bs: Seq<BucketView>) -> bool {
    forall|i: int| 0 <= i < bs.len() ==> bucket_ok(#[trigger] bs[i])
}

/// Drops the leading buckets older than `cut`.
fn drop_older<C>(bs: &mut Vec<Bucket<C>>, cut: u64)
    requires
        all_ok(bucket_views(old(bs)@)),
    ensures
        all_ok(bucket_views(final(bs)@)),
        bucket_views(final(bs)@) == trim_before(bucket_views(old(bs)@), cut),
        bucket_costs(final(bs)@) == bucket_costs(old(bs)@).skip(
            trimmed(bucket_views(old(bs)@), cut) as int,
        ),
{
    let ghost mut k: int = 0;
    let ghost orig = bucket_costs(bs@);
    assert(orig.skip(0) =~= orig);
    while bs.len() > 0 && bs[0].minute < cut
        invariant
            trim_before(bucket_views(bs@), cut) == trim_before(bucket_views(old(bs)@), cut),
            all_ok(bucket_views(bs@)),
            orig == bucket_costs(old(bs)@),
            0 <= k,
            k + bs@.len() == orig.len(),
            trimmed(bucket_views(old(bs)@), cut) == k + trimmed(bucket_views(bs@), cut),
            bucket_costs(bs@) == orig.skip(k),
        decreases bs@.len(),
    {
        let ghost before = bucket_views(bs@);
        let ghost cbefore = bucket_costs(bs@);
        bs.remove(0);
        assert(bucket_views(bs@) =~= before.drop_first());
        assert(bucket_costs(bs@) =~= cbefore.drop_first());
        assert(orig.skip(k).drop_first() =~= orig.skip(k + 1));
        proof {
            k = k + 1;
        }
    }
    assert(trim_before(bucket_views(bs@), cut) == bucket_views(bs@));
}

/// Two records with the same contents.
pub open spec fn same_record<S, C>(a: RequestRecord<S, C>, b: RequestRecord<S, C>) -> bool {
    &&& a.ts == b.ts
    &&& a.account@ == b.account@
    &&& a.protocol@ == b.protocol@
    &&& a.directive@ == b.directive@
    &&& a.task_label@ == b.task_label@
    &&& a.tier@ == b.tier@
    &&& a.score == b.score
    &&& a.model_id@ == b.model_id@
    &&& a.route_source@ == b.route_source@
    &&& a.prompt_tokens == b.prompt_tokens
    &&& a.completion_tokens == b.completion_tokens
    &&& a.cost_usd == b.cost_usd
    &&& a.latency_ms == b.latency_ms
    &&& a.outcome@ == b.outcome@
    &&& a.failover == b.failover
    &&& crate::model::opt_view(a.error) == crate::model::opt_view(b.error)
}

impl<S: Copy, C: Copy> RequestRecord<S, C> {
    /// An independent copy with the same contents.
    pub fn copy(&self) -> (r: Self)
        ensures
            same_record(r, *self),
    {
        RequestRecord {
            ts: self.ts,
            account: self.account.clone(),
            protocol: self.protocol.clone(),
            directive: self.directive.clone(),
            task_label: self.task_label.clone(),
            tier: self.tier.clone(),
            score: self.score,
            model_id: self.model_id.clone(),
            route_source: self.route_source.clone(),
            prompt_tokens: self.prompt_tokens,
            completion_tokens: self.completion_tokens,
            cost_usd: self.cost_usd,
            latency_ms: self.latency_ms,
            outcome: self.outcome.clone(),
            failover: self.failover,
            error: match &self.error {
                Some(e) => Some(e.clone()),
                None => None,
            },
        }
    }
}

/// Requests with the same contents are counted alike.
proof fn lemma_same_record_counts<S, C: Amount>(
    v: StatsView<S, C>,
    a: RequestRecord<S, C>,
    b: RequestRecord<S, C>,
    now: u64,
)
    requires
        same_record(a, b),
    ensures
        counted(v, a, now) == counted(v, b, now),
{
    assert(tally_apply(v.total, a) == tally_apply(v.total, b));
    assert(tally_apply(zero_tally(), a) == tally_apply(zero_tally(), b));
    assert forall|t: Tally| tally_apply(t, a) == tally_apply(t, b) by {}
    assert forall|g: Seq<(Seq<char>, Tally)>, k: Seq<char>| group_apply(g, k, a) == group_apply(g, k, b) by {
        match crate::jobs::key_pos(group_keys(g), k) {
            Some(i) => {
                assert(tally_apply(g[i].1, a) == tally_apply(g[i].1, b));
            },
            None => {},
        }
    }
    assert(account_key(a) == account_key(b));
    assert forall|bk: BucketView| bucket_fill(bk, a) == bucket_fill(bk, b) by {
        assert(group_apply(bk.by_model, a.model_id@, a) == group_apply(bk.by_model, b.model_id@, b));
        assert(group_apply(bk.by_account, account_key(a), a) == group_apply(bk.by_account, account_key(b), b));
        assert(group_apply(bk.by_tier, a.tier@, a) == group_apply(bk.by_tier, b.tier@, b));
        assert(group_apply(bk.by_label, a.task_label@, a) == group_apply(bk.by_label, b.task_label@, b));
    }
    assert(add_to_buckets(v.buckets, a) == add_to_buckets(v.buckets, b));
    assert(group_apply(v.by_model, a.model_id@, a) == group_apply(v.by_model, b.model_id@, b));
}

/// Which breakdown a snapshot groups by.
#[derive(PartialEq, Eq, Structural, Clone, Copy, Debug)]
pub enum GroupBy {
    Model,
    Account,
    Tier,
    Label,
}

pub open spec fn group_by_of(s: Seq<char>) -> GroupBy {
    if s == "account"@ {
        GroupBy::Account
    } else if s == "tier"@ {
        GroupBy::Tier
    } else if s == "label"@ {
        GroupBy::Label
    } else {
        GroupBy::Model
    }
}

/// `account`, `tier` and `label` group by that; anything else by model.
pub fn parse_group_by(s: &str) -> (g: GroupBy)
    ensures
        g == group_by_of(s@),
{
    if str_eq(s, "account") {
        GroupBy::Account
    } else if str_eq(s, "tier") {
        GroupBy::Tier
    } else if str_eq(s, "label") {
        GroupBy::Label
    } else {
        GroupBy::Model
    }
}

pub open spec fn select(b: BucketView, g: GroupBy) -> Seq<(Seq<char>, Tally)> {
    match g {
        GroupBy::Account => b.by_account,
        GroupBy::Tier => b.by_tier,
        GroupBy::Label => b.by_label,
        GroupBy::Model => b.by_model,
    }
}

/// The buckets of the window that starts at `cut`, in order.
pub open spec fn in_window(bs: Seq<BucketView>, cut: u64) -> Seq<BucketView>
    decreases bs.len(),
{
    if bs.len() == 0 {
        Seq::empty()
    } else if bs.last().minute >= cut {
        in_window(bs.drop_last(), cut).push(bs.last())
    } else {
        in_window(bs.drop_last(), cut)
    }
}

/// Counters with one more bucket added (its successes are its requests
/// that are not errors).
pub open spec fn add_bucket(t: Tally, b: BucketView) -> Tally {
    Tally {
        requests: t.requests.saturating_add(b.requests),
        errors: t.errors.saturating_add(b.errors),
        ok: t.ok.saturating_add(b.requests.saturating_sub(b.errors)),
        failovers: t.failovers.saturating_add(b.failovers),
        prompt_tokens: t.prompt_tokens.saturating_add(b.prompt_tokens),
        completion_tokens: t.completion_tokens.saturating_add(b.completion_tokens),
        latency_ms_sum: t.latency_ms_sum.saturating_add(b.latency_ms_sum),
    }
}

proof fn lemma_in_window_ok(bs: Seq<BucketView>, cut: u64)
    requires
        all_ok(bs),
    ensures
        all_ok(in_window(bs, cut)),
    decreases bs.len(),
{
    if bs.len() > 0 {
        assert(all_ok(bs.drop_last())) by {
            assert forall|i: int| 0 <= i < bs.drop_last().len() implies bucket_ok(#[trigger] bs.drop_last()[i]) by {
                assert(bs.drop_last()[i] == bs[i]);
            }
        }
        lemma_in_window_ok(bs.drop_last(), cut);
        assert(bucket_ok(bs[bs.len() - 1]));
    }
}

/// A window's totals add up: its successes and errors make up its requests,
/// and neither exceeds them.
pub proof fn law_window_tally_adds_up(ws: Seq<BucketView>)
    requires
        all_ok(ws),
    ensures
        sane(window_tally(ws)),
    decreases ws.len(),
{
    if ws.len() > 0 {
        assert(all_ok(ws.drop_last())) by {
            assert forall|i: int| 0 <= i < ws.drop_last().len() implies bucket_ok(#[trigger] ws.drop_last()[i]) by {
                assert(ws.drop_last()[i] == ws[i]);
            }
        }
        law_window_tally_adds_up(ws.drop_last());
        assert(bucket_ok(ws[ws.len() - 1]));
    }
}

proof fn lemma_group_fold_sane(ws: Seq<BucketView>, g: GroupBy, k: Seq<char>)
    requires
        all_ok(ws),
    ensures
        sane(group_fold(ws, g, k)),
    decreases ws.len(),
{
    if ws.len() > 0 {
        assert(all_ok(ws.drop_last())) by {
            assert forall|i: int| 0 <= i < ws.drop_last().len() implies bucket_ok(#[trigger] ws.drop_last()[i]) by {
                assert(ws.drop_last()[i] == ws[i]);
            }
        }
        lemma_group_fold_sane(ws.drop_last(), g, k);
        let b = ws[ws.len() - 1];
        assert(bucket_ok(b));
        let grp = select(b, g);
        assert(group_sane(grp));
        if crate::jobs::key_pos(group_keys(grp), k) is Some {
            crate::jobs::lemma_key_pos_some(group_keys(grp), k);
            let i = crate::jobs::key_pos(group_keys(grp), k)->0;
            assert(sane(grp[i].1));
        }
        lemma_merge_sane(group_fold(ws.drop_last(), g, k), group_get(grp, k));
    }
}

/// The counters of a window: the sum of its buckets.
pub open spec fn window_tally(ws: Seq<BucketView>) -> Tally
    decreases ws.len(),
{
    if ws.len() == 0 {
        zero_tally()
    } else {
        add_bucket(window_tally(ws.drop_last()), ws.last())
    }
}

/// Key `k`'s totals over a window: the sum of its totals in each bucket.
pub open spec fn group_fold(ws: Seq<BucketView>, g: GroupBy, k: Seq<char>) -> Tally
    decreases ws.len(),
{
    if ws.len() == 0 {
        zero_tally()
    } else {
        tally_merge(group_fold(ws.drop_last(), g, k), group_get(select(ws.last(), g), k))
    }
}

/// Key `k` occurs in the breakdown of some bucket of the window.
pub open spec fn appears(ws: Seq<BucketView>, g: GroupBy, k: Seq<char>) -> bool {
    exists|i: int| 0 <= i < ws.len() && group_has(select(ws[i], g), k)
}

/// One point of the time series.
pub struct SeriesPoint<C> {
    pub minute: u64,
    pub requests: u64,
    pub errors: u64,
    pub prompt_tokens: u64,
    pub completion_tokens: u64,
    pub cost_usd: C,
    pub latency_ms_sum: u64,
}

pub open spec fn point_matches<C>(p: SeriesPoint<C>, b: BucketView) -> bool {
    &&& p.minute == b.minute
    &&& p.requests == b.requests
    &&& p.errors == b.errors
    &&& p.prompt_tokens == b.prompt_tokens
    &&& p.completion_tokens == b.completion_tokens
    &&& p.latency_ms_sum == b.latency_ms_sum
}

/// The admin snapshot of a time window.
pub struct Snapshot<C> {
    /// Totals of the window.
    pub totals: Totals<C>,
    pub group_by: GroupBy,
    /// Per-key totals of the window, most requests first.
    pub breakdown: Vec<(String, Totals<C>)>,
    /// The window's buckets, oldest first.
    pub series: Vec<SeriesPoint<C>>,
}

proof fn lemma_merge_zero(t: Tally)
    ensures
        tally_merge(t, zero_tally()) == t,
{
}

proof fn lemma_group_merge(g: Seq<(Seq<char>, Tally)>, k: Seq<char>, t: Tally)
    requires
        group_ok(g),
    ensures
        group_ok(group_merge(g, k, t)),
        group_get(group_merge(g, k, t), k) == tally_merge(group_get(g, k), t),
        forall|k2: Seq<char>|
            k2 != k ==> #[trigger] group_get(group_merge(g, k, t), k2) == group_get(g, k2),
        forall|k2: Seq<char>|
            k2 != k ==> #[trigger] group_has(group_merge(g, k, t), k2) == group_has(g, k2),
        group_has(group_merge(g, k, t), k),
{
    let after = group_merge(g, k, t);
    match crate::jobs::key_pos(group_keys(g), k) {
        Some(i) => {
            assert(group_keys(after) =~= group_keys(g));
            assert(group_keys(g)[i] == k);
        },
        None => {
            assert(group_keys(after) =~= group_keys(g).push(k));
            crate::jobs::lemma_push_new_key(group_keys(g), k);
            assert forall|k2: Seq<char>| k2 != k implies group_get(after, k2) == group_get(g, k2)
                && group_has(after, k2) == group_has(g, k2) by {
                lemma_key_pos_push_other(group_keys(g), k, k2);
                match crate::jobs::key_pos(group_keys(g), k2) {
                    Some(j) => {
                        assert(after[j] == g[j]);
                    },
                    None => {},
                }
            }
        },
    }
}

proof fn lemma_key_pos_push_other(keys: Seq<Seq<char>>, k: Seq<char>, k2: Seq<char>)
    requires
        k2 != k,
        crate::jobs::distinct(keys.push(k)),
    ensures
        crate::jobs::key_pos(keys.push(k), k2) == crate::jobs::key_pos(keys, k2),
{
    let after = keys.push(k);
    if exists|i: int| 0 <= i < keys.len() && keys[i] == k2 {
        let c = choose|c: int| 0 <= c < keys.len() && keys[c] == k2;
        assert forall|j: int| 0 <= j < c implies keys[j] != keys[c] by {
            assert(after[j] == keys[j]);
            assert(after[c] == keys[c]);
        }
        crate::jobs::lemma_key_pos_at(keys, c);
        assert forall|j: int| 0 <= j < c implies after[j] != after[c] by {}
        crate::jobs::lemma_key_pos_at(after, c);
    } else {
        assert forall|i: int| 0 <= i < after.len() implies after[i] != k2 by {
            if i < keys.len() {
                assert(after[i] == keys[i]);
            }
        }
    }
}

proof fn lemma_group_get_at(g: Seq<(Seq<char>, Tally)>, i: int)
    requires
        group_ok(g),
        0 <= i < g.len(),
    ensures
        group_get(g, g[i].0) == g[i].1,
        group_has(g, g[i].0),
        crate::jobs::key_pos(group_keys(g), g[i].0) == Some(i),
{
    assert(group_keys(g)[i] == g[i].0);
    assert forall|j: int| 0 <= j < i implies group_keys(g)[j] != group_keys(g)[i] by {}
    crate::jobs::lemma_key_pos_at(group_keys(g), i);
}

/// Adding cost `c` under key `kj` changes the cost under `kj` only.
proof fn lemma_cost_at_add<C: Amount>(
    g: Seq<(Seq<char>, Tally)>,
    cs: Seq<C>,
    kj: Seq<char>,
    t: Tally,
    c: C,
    k: Seq<char>,
)
    requires
        group_ok(g),
        cs.len() == g.len(),
    ensures
        cost_at(group_merge(g, kj, t), costs_add(g, cs, kj, c), k) == if k == kj {
            C::plus(cost_at(g, cs, kj), c)
        } else {
            cost_at(g, cs, k)
        },
{
    let keys = group_keys(g);
    match crate::jobs::key_pos(keys, kj) {
        Some(i) => {
            assert(group_keys(group_merge(g, kj, t)) =~= keys);
            if k != kj {
                match crate::jobs::key_pos(keys, k) {
                    Some(p) => {
                        assert(keys[p] == k);
                        assert(keys[i] == kj);
                    },
                    None => {},
                }
            }
        },
        None => {
            assert(group_keys(group_merge(g, kj, t)) =~= keys.push(kj));
            crate::jobs::lemma_push_new_key(keys, kj);
            if k != kj {
                lemma_key_pos_push_other(keys, kj, k);
            }
        },
    }
}

/// Key `k` occurs among the first `j` entries of `src`.
pub open spec fn in_prefix(src: Seq<(Seq<char>, Tally)>, j: int, k: Seq<char>) -> bool {
    exists|t: int| 0 <= t < j && src[t].0 == k
}

/// In-memory request statistics.
pub struct Stats<S, C> {
    enabled: bool,
    file: Option<String>,
    ring_size: usize,
    retention_secs: u64,
    /// All-time totals, for the monotonic Prometheus counters.
    total: Totals<C>,
    by_model: Vec<(String, Totals<C>)>,
    /// Per-minute buckets within the retention window.
    buckets: Vec<Bucket<C>>,
    /// The most recent requests, oldest first.
    recent: std::collections::VecDeque<RequestRecord<S, C>>,
}

pub struct StatsView<S, C> {
    pub enabled: bool,
    pub ring_size: nat,
    pub retention_secs: u64,
    pub total: Tally,
    pub by_model: Seq<(Seq<char>, Tally)>,
    pub buckets: Seq<BucketView>,
    /// The costs of each bucket, in step with `buckets`.
    pub costs: Seq<BucketCosts<C>>,
    pub recent: Seq<RequestRecord<S, C>>,
}

impl<S, C> View for Stats<S, C> {
    type V = StatsView<S, C>;

    closed spec fn view(&self) -> StatsView<S, C> {
        StatsView {
            enabled: self.enabled,
            ring_size: self.ring_size as nat,
            retention_secs: self.retention_secs,
            total: tally_of(self.total),
            by_model: group_view(self.by_model@),
            buckets: bucket_views(self.buckets@),
            costs: bucket_costs(self.buckets@),
            recent: self.recent@,
        }
    }
}

/// The statistics after counting request `r` at time `now`: all-time totals
/// and per-model totals, the buckets, then buckets older than the retention
/// window dropped.
pub open spec fn counted<S, C: Amount>(v: StatsView<S, C>, r: RequestRecord<S, C>, now: u64) -> StatsView<
    S,
    C,
> {
    StatsView {
        total: tally_apply(v.total, r),
        by_model: group_apply(v.by_model, r.model_id@, r),
        buckets: trim_before(add_to_buckets(v.buckets, r), cutoff(now, v.retention_secs)),
        costs: add_to_costs(v.buckets, v.costs, r).skip(
            trimmed(add_to_buckets(v.buckets, r), cutoff(now, v.retention_secs)) as int,
        ),
        ..v
    }
}

/// Every counter of `a` is at most the same counter of `b`.
pub open spec fn tally_le(a: Tally, b: Tally) -> bool {
    &&& a.requests <= b.requests
    &&& a.ok <= b.ok
    &&& a.errors <= b.errors
    &&& a.failovers <= b.failovers
    &&& a.prompt_tokens <= b.prompt_tokens
    &&& a.completion_tokens <= b.completion_tokens
    &&& a.latency_ms_sum <= b.latency_ms_sum
}

/// The all-time counters behind `/metrics` are monotonic: recording a request
/// leaves every counter at least where it was (remembering it among the
/// recent requests changes none), and the request count goes up by one
/// unless it already stands at its maximum.
pub proof fn law_counters_monotonic<S, C: Amount>(v: StatsView<S, C>, r: RequestRecord<S, C>, now: u64)
    ensures
        tally_le(v.total, remembered(counted(v, r, now), r).total),
        v.total.requests < u64::MAX ==> remembered(counted(v, r, now), r).total.requests
            == v.total.requests + 1,
{
}

/// The statistics with `r` added to the ring of recent requests.
pub open spec fn remembered<S, C>(v: StatsView<S, C>, r: RequestRecord<S, C>) -> StatsView<S, C> {
    StatsView { recent: crate::promotion::capped(v.recent.push(r), v.ring_size), ..v }
}

/// Newest-first page of `recent`: skip `offset`, take `limit`.
pub open spec fn page_len(n: nat, limit: nat, offset: nat) -> nat {
    if offset >= n {
        0
    } else if n - offset < limit {
        (n - offset) as nat
    } else {
        limit
    }
}

pub open spec fn prom_model_lines(models: Seq<(Seq<char>, Tally)>) -> Seq<char>
    decreases models.len(),
{
    if models.len() == 0 {
        Seq::empty()
    } else {
        let (m, t) = models.last();
        prom_model_lines(models.drop_last()) + "gw_provider_calls_total{model_id=\""@ + escaped_label(m)
            + "\",outcome=\"ok\"} "@ + dec(t.ok as nat) + "\n"@
            + "gw_provider_calls_total{model_id=\""@ + escaped_label(m)
            + "\",outcome=\"error\"} "@ + dec(t.errors as nat) + "\n"@
    }
}

/// The Prometheus exposition of the all-time counters; `cost` is the
/// rendered total cost.
pub open spec fn prom_text(t: Tally, models: Seq<(Seq<char>, Tally)>, cost: Seq<char>) -> Seq<char> {
    "# HELP gw_requests_total Total gateway requests.\n"@ + "# TYPE gw_requests_total counter\n"@
        + "gw_requests_total "@ + dec(t.requests as nat) + "\n"@
        + "# HELP gw_failovers_total Total provider failovers.\n"@
        + "# TYPE gw_failovers_total counter\n"@ + "gw_failovers_total "@ + dec(
        t.failovers as nat,
    ) + "\n"@ + "# HELP gw_tokens_total Total tokens by direction.\n"@
        + "# TYPE gw_tokens_total counter\n"@ + "gw_tokens_total{direction=\"in\"} "@ + dec(
        t.prompt_tokens as nat,
    ) + "\n"@ + "gw_tokens_total{direction=\"out\"} "@ + dec(t.completion_tokens as nat)
        + "\n"@ + "# HELP gw_cost_usd_total Total estimated cost in USD.\n"@
        + "# TYPE gw_cost_usd_total counter\n"@ + "gw_cost_usd_total "@ + cost + "\n"@
        + "# HELP gw_provider_calls_total Calls by model and outcome.\n"@
        + "# TYPE gw_provider_calls_total counter\n"@ + prom_model_lines(models)
}

impl<S: Copy, C: Amount + Copy> Stats<S, C> {
    pub closed spec fn well_formed(&self) -> bool {
        &&& group_ok(group_view(self.by_model@))
        &&& all_ok(bucket_views(self.buckets@))
        &&& self.ring_size >= 1
    }

    /// The all-time total cost.
    pub closed spec fn cost(&self) -> C {
        self.total.cost_usd
    }

    pub closed spec fn log_file(&self) -> Option<Seq<char>> {
        crate::model::opt_view(self.file)
    }

    /// Empty statistics configured by `[stats]`: no log file when its name is
    /// blank, a ring of at least one request, and the retention window parsed
    /// from `retention` (seven days when it does not parse).
    pub fn new(cfg: &crate::config::StatsCfg) -> (s: Self)
        requires
            duration_fits(cfg.retention@),
        ensures
            s.well_formed(),
            s@.enabled == cfg.enabled,
            s.log_file() == if trim(cfg.file@).len() == 0 {
                None
            } else {
                Some(cfg.file@)
            },
            s@.ring_size == if cfg.ring_size < 1 {
                1
            } else {
                cfg.ring_size as nat
            },
            s@.retention_secs as nat == match duration_secs(cfg.retention@) {
                Some(v) => v,
                None => 604800,
            },
            s@.total == zero_tally(),
            s.cost() == C::nothing(),
            s@.by_model.len() == 0,
            s@.buckets.len() == 0,
            s@.costs.len() == 0,
            s@.recent.len() == 0,
    {
        let file = if crate::text::is_blank(cfg.file.as_str()) {
            None
        } else {
            Some(cfg.file.clone())
        };
        let ring_size = if cfg.ring_size < 1 {
            1
        } else {
            cfg.ring_size
        };
        let retention_secs = match parse_duration_secs(cfg.retention.as_str()) {
            Some(v) => v,
            None => 604800,
        };
        let s = Stats {
            enabled: cfg.enabled,
            file,
            ring_size,
            retention_secs,
            total: Totals::new(),
            by_model: Vec::new(),
            buckets: Vec::new(),
            recent: std::collections::VecDeque::new(),
        };
        assert(group_view(s.by_model@) =~= Seq::<(Seq<char>, Tally)>::empty());
        s
    }

    /// Whether recording is on.
    pub fn enabled(&self) -> (b: bool)
        ensures
            b == self@.enabled,
    {
        self.enabled
    }

    /// The JSONL log the records are appended to, if any.
    pub fn file(&self) -> (r: &Option<String>)
        ensures
            crate::model::opt_view(*r) == self.log_file(),
    {
        &self.file
    }

    /// The retention window in seconds.
    pub fn retention_secs(&self) -> (r: u64)
        ensures
            r == self@.retention_secs,
    {
        self.retention_secs
    }

    /// The totals of any snapshot window, and each row of its breakdown by any
    /// grouping, add up: successes and errors make up the requests (unless
    /// the request count stands at its maximum), and neither exceeds them.
    pub proof fn law_snapshot_totals_add_up(&self, now: u64, range_secs: u64)
        requires
            self.well_formed(),
        ensures
            sane(window_tally(in_window(self@.buckets, cutoff(now, range_secs)))),
            forall|g: GroupBy, k: Seq<char>|
                sane(#[trigger] group_fold(in_window(self@.buckets, cutoff(now, range_secs)), g, k)),
    {
        lemma_in_window_ok(self@.buckets, cutoff(now, range_secs));
        law_window_tally_adds_up(in_window(self@.buckets, cutoff(now, range_secs)));
        assert forall|g: GroupBy, k: Seq<char>|
            sane(#[trigger] group_fold(in_window(self@.buckets, cutoff(now, range_secs)), g, k)) by {
            lemma_group_fold_sane(in_window(self@.buckets, cutoff(now, range_secs)), g, k);
        }
    }

    /// The all-time total cost.
    pub fn total_cost(&self) -> (c: C)
        ensures
            c == self.cost(),
    {
        self.total.cost_usd
    }

    fn push_recent(&mut self, rec: RequestRecord<S, C>)
        requires
            old(self).well_formed(),
        ensures
            final(self).well_formed(),
            final(self)@ == remembered(old(self)@, rec),
            final(self).log_file() == old(self).log_file(),
            final(self).cost() == old(self).cost(),
    {
        crate::promotion::push_cap(&mut self.recent, rec, self.ring_size);
    }

    fn apply_aggregates(&mut self, rec: &RequestRecord<S, C>, now: u64)
        requires
            old(self).well_formed(),
        ensures
            final(self).well_formed(),
            final(self)@ == counted(old(self)@, *rec, now),
            final(self).log_file() == old(self).log_file(),
            final(self).cost() == C::plus(old(self).cost(), rec.cost_usd),
    {
        let ghost start = self@;
        self.total.apply(rec);
        group_apply_exec(&mut self.by_model, rec.model_id.clone(), rec);
        let minute = rec.ts - rec.ts % 60;
        let n = self.buckets.len();
        let ghost bviews = start.buckets;
        let ghost bcosts = start.costs;
        if n > 0 && self.buckets[n - 1].minute == minute {
            let mut b = self.buckets.remove(n - 1);
            assert(bviews[n - 1] == bucket_view(b));
            assert(bcosts[n - 1] == bucket_cost_view(b));
            assert(bucket_ok(bviews[n - 1]));
            b.fill(rec);
            self.buckets.push(b);
            assert(bucket_views(self.buckets@) =~= add_to_buckets(bviews, *rec));
            assert(bucket_costs(self.buckets@) =~= add_to_costs(bviews, bcosts, *rec));
        } else if n > 0 && self.buckets[n - 1].minute > minute {
            assert(bucket_views(self.buckets@) =~= add_to_buckets(bviews, *rec));
            assert(bucket_costs(self.buckets@) =~= add_to_costs(bviews, bcosts, *rec));
        } else {
            let mut b = Bucket::new(minute);
            b.fill(rec);
            self.buckets.push(b);
            assert(bucket_views(self.buckets@) =~= add_to_buckets(bviews, *rec));
            assert(bucket_costs(self.buckets@) =~= add_to_costs(bviews, bcosts, *rec));
        }
        let cut = now.saturating_sub(self.retention_secs);
        drop_older(&mut self.buckets, cut);
    }

    /// Records a completed request at time `now` (nothing when recording is
    /// off): counted in the aggregates, then kept among the recent requests.
    pub fn record(&mut self, rec: RequestRecord<S, C>, now: u64)
        requires
            old(self).well_formed(),
        ensures
            final(self).well_formed(),
            final(self).log_file() == old(self).log_file(),
            final(self)@ == if old(self)@.enabled {
                remembered(counted(old(self)@, rec, now), rec)
            } else {
                old(self)@
            },
            final(self).cost() == if old(self)@.enabled {
                C::plus(old(self).cost(), rec.cost_usd)
            } else {
                old(self).cost()
            },
    {
        if !self.enabled {
            return;
        }
        self.apply_aggregates(&rec, now);
        self.push_recent(rec);
    }

    /// Replays one logged request at start-up: it always joins the recent
    /// requests, and counts in the aggregates only when it is within the
    /// retention window.
    pub fn replay_record(&mut self, rec: RequestRecord<S, C>, now: u64)
        requires
            old(self).well_formed(),
        ensures
            final(self).well_formed(),
            final(self).log_file() == old(self).log_file(),
            final(self)@ == if rec.ts >= cutoff(now, old(self)@.retention_secs) {
                remembered(counted(old(self)@, rec, now), rec)
            } else {
                remembered(old(self)@, rec)
            },
            final(self).cost() == if rec.ts >= cutoff(now, old(self)@.retention_secs) {
                C::plus(old(self).cost(), rec.cost_usd)
            } else {
                old(self).cost()
            },
    {
        let cut = now.saturating_sub(self.retention_secs);
        if rec.ts >= cut {
            let r2 = rec.copy();
            let ghost start = self@;
            self.apply_aggregates(&r2, now);
            proof {
                lemma_same_record_counts(start, r2, rec, now);
            }
        }
        self.push_recent(rec);
    }

    /// Forgets everything recorded (the log file is truncated by the caller).
    pub fn clear(&mut self)
        requires
            old(self).well_formed(),
        ensures
            final(self).well_formed(),
            final(self).log_file() == old(self).log_file(),
            final(self)@.enabled == old(self)@.enabled,
            final(self)@.ring_size == old(self)@.ring_size,
            final(self)@.retention_secs == old(self)@.retention_secs,
            final(self)@.total == zero_tally(),
            final(self).cost() == C::nothing(),
            final(self)@.by_model.len() == 0,
            final(self)@.buckets.len() == 0,
            final(self)@.costs.len() == 0,
            final(self)@.recent.len() == 0,
    {
        self.total = Totals::new();
        self.by_model = Vec::new();
        self.buckets = Vec::new();
        self.recent = std::collections::VecDeque::new();
        assert(group_view(self.by_model@) =~= Seq::<(Seq<char>, Tally)>::empty());
        assert(bucket_views(self.buckets@) =~= Seq::<BucketView>::empty());
    }

    /// Recent requests, newest first: `limit` of them after skipping
    /// `offset`.
    pub fn recent(&self, limit: usize, offset: usize) -> (rows: Vec<RequestRecord<S, C>>)
        ensures
            rows@.len() == page_len(self@.recent.len(), limit as nat, offset as nat),
            forall|i: int|
                0 <= i < rows@.len() ==> same_record(
                    #[trigger] rows@[i],
                    self@.recent[self@.recent.len() - 1 - offset - i],
                ),
    {
        let n = self.recent.len();
        let mut rows: Vec<RequestRecord<S, C>> = Vec::new();
        if offset >= n {
            return rows;
        }
        let avail = n - offset;
        let take = if avail < limit {
            avail
        } else {
            limit
        };
        let mut i: usize = 0;
        while i < take
            invariant
                i <= take <= avail,
                avail == n - offset,
                offset < n,
                n == self.recent@.len(),
                rows@.len() == i,
                forall|k: int|
                    0 <= k < i ==> same_record(
                        #[trigger] rows@[k],
                        self.recent@[n - 1 - offset - k],
                    ),
            decreases take - i,
        {
            let r = self.recent[n - 1 - offset - i].copy();
            rows.push(r);
            i += 1;
        }
        rows
    }

    /// Metrics text in the Prometheus exposition format, from the all-time
    /// counters; `cost` is the total cost as it should appear.
    pub fn prometheus(&self, cost: &str) -> (out: String)
        ensures
            out@ == prom_text(self@.total, self@.by_model, cost@),
    {
        let t = &self.total;
        let mut out = owned("# HELP gw_requests_total Total gateway requests.\n");
        append_str(&mut out, "# TYPE gw_requests_total counter\n");
        append_str(&mut out, "gw_requests_total ");
        push_dec(&mut out, t.requests);
        append_str(&mut out, "\n");
        append_str(&mut out, "# HELP gw_failovers_total Total provider failovers.\n");
        append_str(&mut out, "# TYPE gw_failovers_total counter\n");
        append_str(&mut out, "gw_failovers_total ");
        push_dec(&mut out, t.failovers);
        append_str(&mut out, "\n");
        append_str(&mut out, "# HELP gw_tokens_total Total tokens by direction.\n");
        append_str(&mut out, "# TYPE gw_tokens_total counter\n");
        append_str(&mut out, "gw_tokens_total{direction=\"in\"} ");
        push_dec(&mut out, t.prompt_tokens);
        append_str(&mut out, "\n");
        append_str(&mut out, "gw_tokens_total{direction=\"out\"} ");
        push_dec(&mut out, t.completion_tokens);
        append_str(&mut out, "\n");
        append_str(&mut out, "# HELP gw_cost_usd_total Total estimated cost in USD.\n");
        append_str(&mut out, "# TYPE gw_cost_usd_total counter\n");
        append_str(&mut out, "gw_cost_usd_total ");
        append_str(&mut out, cost);
        append_str(&mut out, "\n");
        append_str(&mut out, "# HELP gw_provider_calls_total Calls by model and outcome.\n");
        append_str(&mut out, "# TYPE gw_provider_calls_total counter\n");
        let ghost head = out@;
        let ghost models = group_view(self.by_model@);
        let mut i: usize = 0;
        while i < self.by_model.len()
            invariant
                i <= self.by_model@.len(),
                models == group_view(self.by_model@),
                out@ == head + prom_model_lines(models.take(i as int)),
            decreases self.by_model.len() - i,
        {
            let ghost before = out@;
            let m = escape_label(self.by_model[i].0.as_str());
            append_str(&mut out, "gw_provider_calls_total{model_id=\"");
            append_str(&mut out, m.as_str());
            append_str(&mut out, "\",outcome=\"ok\"} ");
            push_dec(&mut out, self.by_model[i].1.ok);
            append_str(&mut out, "\n");
            append_str(&mut out, "gw_provider_calls_total{model_id=\"");
            append_str(&mut out, m.as_str());
            append_str(&mut out, "\",outcome=\"error\"} ");
            push_dec(&mut out, self.by_model[i].1.errors);
            append_str(&mut out, "\n");
            assert(models.take(i + 1).drop_last() =~= models.take(i as int));
            assert(models.take(i + 1).last() == models[i as int]);
            i += 1;
        }
        assert(models.take(models.len() as int) =~= models);
        out
    }

    fn selected(b: &Bucket<C>, g: GroupBy) -> (r: &Vec<(String, Totals<C>)>)
        ensures
            group_view(r@) == select(bucket_view(*b), g),
            totals_costs(r@) == select_costs(bucket_cost_view(*b), g),
    {
        match g {
            GroupBy::Account => &b.by_account,
            GroupBy::Tier => &b.by_tier,
            GroupBy::Label => &b.by_label,
            GroupBy::Model => &b.by_model,
        }
    }

    /// Merges the breakdown `src` of one more in-window bucket into `group`.
    fn merge_breakdown(
        group: &mut Vec<(String, Totals<C>)>,
        src: &Vec<(String, Totals<C>)>,
        Ghost(ws): Ghost<Seq<BucketView>>,
        Ghost(g): Ghost<GroupBy>,
    )
        requires
            group_ok(group_view(old(group)@)),
            group_ok(group_view(src@)),
            forall|k: Seq<char>|
                group_get(group_view(old(group)@), k) == #[trigger] group_fold(ws, g, k),
            forall|k: Seq<char>| group_has(group_view(old(group)@), k) == #[trigger] appears(ws, g, k),
        ensures
            group_ok(group_view(final(group)@)),
            forall|k: Seq<char>|
                group_get(group_view(final(group)@), k) == #[trigger] tally_merge(
                    group_fold(ws, g, k),
                    group_get(group_view(src@), k),
                ),
            forall|k: Seq<char>|
                group_has(group_view(final(group)@), k) == (appears(ws, g, k) || #[trigger] group_has(
                    group_view(src@),
                    k,
                )),
            forall|k: Seq<char>|
                #[trigger] cost_at(group_view(final(group)@), totals_costs(final(group)@), k) == if group_has(
                    group_view(src@),
                    k,
                ) {
                    C::plus(
                        cost_at(group_view(old(group)@), totals_costs(old(group)@), k),
                        cost_at(group_view(src@), totals_costs(src@), k),
                    )
                } else {
                    cost_at(group_view(old(group)@), totals_costs(old(group)@), k)
                },
    {
        let ghost sv = group_view(src@);
        let ghost scs = totals_costs(src@);
        let ghost og = group_view(group@);
        let ghost ocs = totals_costs(group@);
        let mut j: usize = 0;
        while j < src.len()
            invariant
                j <= src@.len(),
                sv == group_view(src@),
                scs == totals_costs(src@),
                group_ok(sv),
                group_ok(group_view(group@)),
                forall|k: Seq<char>|
                    #[trigger] cost_at(group_view(group@), totals_costs(group@), k) == if in_prefix(
                        sv,
                        j as int,
                        k,
                    ) {
                        C::plus(cost_at(og, ocs, k), cost_at(sv, scs, k))
                    } else {
                        cost_at(og, ocs, k)
                    },
                forall|k: Seq<char>|
                    group_get(group_view(group@), k) == if #[trigger] in_prefix(sv, j as int, k) {
                        tally_merge(group_fold(ws, g, k), group_get(sv, k))
                    } else {
                        group_fold(ws, g, k)
                    },
                forall|k: Seq<char>|
                    #![trigger group_has(group_view(group@), k)]
                    #![trigger in_prefix(sv, j as int, k)]
                    group_has(group_view(group@), k) == (appears(ws, g, k) || in_prefix(
                        sv,
                        j as int,
                        k,
                    )),
            decreases src.len() - j,
        {
            let ghost before = group_view(group@);
            let ghost kj = sv[j as int].0;
            proof {
                lemma_group_get_at(sv, j as int);
                lemma_group_merge(before, kj, sv[j as int].1);
                assert(!in_prefix(sv, j as int, kj)) by {
                    if in_prefix(sv, j as int, kj) {
                        let t = choose|t: int| 0 <= t < j && sv[t].0 == kj;
                        assert(group_keys(sv)[t] == group_keys(sv)[j as int]);
                    }
                }
            }
            let ghost bcs = totals_costs(group@);
            group_merge_exec(group, &src[j].0, &src[j].1);
            proof {
                let now_g = group_view(group@);
                assert(cost_at(sv, scs, kj) == src@[j as int].1.cost_usd);
                assert forall|k: Seq<char>|
                    #[trigger] cost_at(now_g, totals_costs(group@), k) == if in_prefix(sv, j + 1, k) {
                        C::plus(cost_at(og, ocs, k), cost_at(sv, scs, k))
                    } else {
                        cost_at(og, ocs, k)
                    } by {
                    lemma_cost_at_add(before, bcs, kj, sv[j as int].1, src@[j as int].1.cost_usd, k);
                    if k == kj {
                        assert(sv[j as int].0 == k);
                    } else {
                        assert(in_prefix(sv, j + 1, k) == in_prefix(sv, j as int, k)) by {
                            if in_prefix(sv, j + 1, k) {
                                let t = choose|t: int| 0 <= t < j + 1 && sv[t].0 == k;
                                assert(t < j);
                            }
                        }
                    }
                }
                assert forall|k: Seq<char>| #[trigger] in_prefix(sv, j + 1, k) == (in_prefix(
                    sv,
                    j as int,
                    k,
                ) || k == kj) by {
                    if k == kj {
                        assert(sv[j as int].0 == k);
                    }
                }
                assert forall|k: Seq<char>|
                    group_get(now_g, k) == if #[trigger] in_prefix(sv, j + 1, k) {
                        tally_merge(group_fold(ws, g, k), group_get(sv, k))
                    } else {
                        group_fold(ws, g, k)
                    } by {
                    assert(in_prefix(sv, j + 1, k) == (in_prefix(sv, j as int, k) || k == kj));
                    assert(group_get(before, k) == if in_prefix(sv, j as int, k) {
                        tally_merge(group_fold(ws, g, k), group_get(sv, k))
                    } else {
                        group_fold(ws, g, k)
                    });
                }
                assert forall|k: Seq<char>|
                    #![trigger group_has(now_g, k)]
                    #![trigger in_prefix(sv, j + 1, k)]
                    group_has(now_g, k) == (appears(ws, g, k) || in_prefix(sv, j + 1, k)) by {
                    assert(in_prefix(sv, j + 1, k) == (in_prefix(sv, j as int, k) || k == kj));
                    assert(group_has(before, k) == (appears(ws, g, k) || in_prefix(sv, j as int, k)));
                }
            }
            j += 1;
        }
        proof {
            assert forall|k: Seq<char>| #[trigger] in_prefix(sv, sv.len() as int, k) == group_has(sv, k) by {
                if in_prefix(sv, sv.len() as int, k) {
                    let t = choose|t: int| 0 <= t < sv.len() && sv[t].0 == k;
                    lemma_group_get_at(sv, t);
                }
                if group_has(sv, k) {
                    let t = crate::jobs::key_pos(group_keys(sv), k)->0;
                    assert(group_keys(sv)[t] == k);
                }
            }
            assert forall|k: Seq<char>| !group_has(sv, k) implies group_get(sv, k) == zero_tally() by {}
            let fin = group_view(group@);
            assert forall|k: Seq<char>|
                group_get(fin, k) == #[trigger] tally_merge(group_fold(ws, g, k), group_get(sv, k)) by {
                assert(in_prefix(sv, sv.len() as int, k) == group_has(sv, k));
                if !group_has(sv, k) {
                    lemma_merge_zero(group_fold(ws, g, k));
                }
            }
            assert forall|k: Seq<char>|
                #![trigger group_has(fin, k)]
                #![trigger group_has(sv, k)]
                group_has(fin, k) == (appears(ws, g, k) || group_has(sv, k)) by {
                assert(in_prefix(sv, sv.len() as int, k) == group_has(sv, k));
                assert(group_has(fin, k) == (appears(ws, g, k) || in_prefix(sv, sv.len() as int, k)));
            }
        }
    }

    /// The admin snapshot of the last `range_secs` seconds at time `now`:
    /// the window's totals, its breakdown by `group_by` (most requests first;
    /// equal counts keep the order in which their keys first appeared), and
    /// its buckets as a time series.
    pub fn snapshot(&self, now: u64, range_secs: u64, group_by: GroupBy) -> (snap: Snapshot<C>)
        requires
            self.well_formed(),
        ensures
            ({
                let ws = in_window(self@.buckets, cutoff(now, range_secs));
                &&& snap.group_by == group_by
                &&& tally_of(snap.totals) == window_tally(ws)
                &&& snap.series@.len() == ws.len()
                &&& forall|i: int| 0 <= i < ws.len() ==> point_matches(#[trigger] snap.series@[i], ws[i])
                &&& crate::jobs::distinct(group_keys(group_view(snap.breakdown@)))
                &&& forall|a: int, b: int|
                    0 <= a < b < snap.breakdown@.len() ==> snap.breakdown@[a].1.requests
                        >= snap.breakdown@[b].1.requests
                &&& forall|a: int|
                    0 <= a < snap.breakdown@.len() ==> appears(ws, group_by, #[trigger] snap.breakdown@[a].0@)
                        && tally_of(snap.breakdown@[a].1) == group_fold(ws, group_by, snap.breakdown@[a].0@)
                &&& forall|k: Seq<char>|
                    #[trigger] appears(ws, group_by, k) ==> group_has(group_view(snap.breakdown@), k)
            }),
            ({
                let wc = window_costs(self@.buckets, self@.costs, cutoff(now, range_secs));
                &&& snap.totals.cost_usd == cost_total(wc)
                &&& wc.len() == snap.series@.len()
                &&& forall|i: int| 0 <= i < wc.len() ==> (#[trigger] snap.series@[i]).cost_usd == wc[i].total
                &&& forall|a: int|
                    0 <= a < snap.breakdown@.len() ==> (#[trigger] snap.breakdown@[a]).1.cost_usd
                        == key_cost(
                        in_window(self@.buckets, cutoff(now, range_secs)),
                        wc,
                        group_by,
                        snap.breakdown@[a].0@,
                    )
            }),
    {
        let cut = now.saturating_sub(range_secs);
        let ghost bv = bucket_views(self.buckets@);
        let ghost cs = bucket_costs(self.buckets@);
        let mut win: Totals<C> = Totals::new();
        let mut group: Vec<(String, Totals<C>)> = Vec::new();
        let mut series: Vec<SeriesPoint<C>> = Vec::new();
        let mut i: usize = 0;
        assert(group_view(group@) =~= Seq::<(Seq<char>, Tally)>::empty());
        while i < self.buckets.len()
            invariant
                i <= self.buckets@.len(),
                bv == bucket_views(self.buckets@),
                all_ok(bv),
                group_ok(group_view(group@)),
                tally_of(win) == window_tally(in_window(bv.take(i as int), cut)),
                series@.len() == in_window(bv.take(i as int), cut).len(),
                cs == bucket_costs(self.buckets@),
                win.cost_usd == cost_total(window_costs(bv.take(i as int), cs.take(i as int), cut)),
                series@.len() == window_costs(bv.take(i as int), cs.take(i as int), cut).len(),
                forall|x: int|
                    0 <= x < series@.len() ==> (#[trigger] series@[x]).cost_usd == window_costs(
                        bv.take(i as int),
                        cs.take(i as int),
                        cut,
                    )[x].total,
                forall|k: Seq<char>|
                    #[trigger] cost_at(group_view(group@), totals_costs(group@), k) == key_cost(
                        in_window(bv.take(i as int), cut),
                        window_costs(bv.take(i as int), cs.take(i as int), cut),
                        group_by,
                        k,
                    ),
                forall|x: int|
                    0 <= x < series@.len() ==> point_matches(
                        #[trigger] series@[x],
                        in_window(bv.take(i as int), cut)[x],
                    ),
                forall|k: Seq<char>|
                    group_get(group_view(group@), k) == #[trigger] group_fold(
                        in_window(bv.take(i as int), cut),
                        group_by,
                        k,
                    ),
                forall|k: Seq<char>|
                    group_has(group_view(group@), k) == #[trigger] appears(
                        in_window(bv.take(i as int), cut),
                        group_by,
                        k,
                    ),
            decreases self.buckets.len() - i,
        {
            let ghost ws = in_window(bv.take(i as int), cut);
            let b = &self.buckets[i];
            let ghost wc = window_costs(bv.take(i as int), cs.take(i as int), cut);
            assert(bv.take(i + 1).drop_last() =~= bv.take(i as int));
            assert(bv.take(i + 1).last() == bucket_view(*b));
            assert(cs.take(i + 1).drop_last() =~= cs.take(i as int));
            assert(cs.take(i + 1).last() == bucket_cost_view(*b));
            if b.minute >= cut {
                assert(window_costs(bv.take(i + 1), cs.take(i + 1), cut) == wc.push(bucket_cost_view(*b)));
                assert(wc.push(bucket_cost_view(*b)).drop_last() =~= wc);
                let ghost ws2 = ws.push(bucket_view(*b));
                assert(in_window(bv.take(i + 1), cut) == ws2);
                win.requests = win.requests.saturating_add(b.requests);
                win.errors = win.errors.saturating_add(b.errors);
                win.ok = win.ok.saturating_add(b.requests.saturating_sub(b.errors));
                win.failovers = win.failovers.saturating_add(b.failovers);
                win.prompt_tokens = win.prompt_tokens.saturating_add(b.prompt_tokens);
                win.completion_tokens = win.completion_tokens.saturating_add(b.completion_tokens);
                win.cost_usd = win.cost_usd.sum(&b.cost_usd);
                win.latency_ms_sum = win.latency_ms_sum.saturating_add(b.latency_ms_sum);
                assert(ws2.drop_last() =~= ws);
                series.push(
                    SeriesPoint {
                        minute: b.minute,
                        requests: b.requests,
                        errors: b.errors,
                        prompt_tokens: b.prompt_tokens,
                        completion_tokens: b.completion_tokens,
                        cost_usd: b.cost_usd,
                        latency_ms_sum: b.latency_ms_sum,
                    },
                );
                assert(bucket_ok(bv[i as int]));
                let src = Self::selected(b, group_by);
                let ghost gbefore = group_view(group@);
                let ghost cbefore = totals_costs(group@);
                Self::merge_breakdown(&mut group, src, Ghost(ws), Ghost(group_by));
                proof {
                    let wc2 = wc.push(bucket_cost_view(*b));
                    assert forall|k: Seq<char>|
                        #[trigger] cost_at(group_view(group@), totals_costs(group@), k) == key_cost(
                            ws2,
                            wc2,
                            group_by,
                            k,
                        ) by {
                        assert(ws2.drop_last() =~= ws);
                        assert(wc2.drop_last() =~= wc);
                        assert(ws2.last() == bucket_view(*b));
                        assert(wc2.last() == bucket_cost_view(*b));
                        assert(cost_at(gbefore, cbefore, k) == key_cost(ws, wc, group_by, k));
                    }
                    assert forall|k: Seq<char>| group_get(group_view(group@), k) == #[trigger] group_fold(
                        ws2,
                        group_by,
                        k,
                    ) by {
                        assert(group_fold(ws2, group_by, k) == tally_merge(
                            group_fold(ws, group_by, k),
                            group_get(group_view(src@), k),
                        ));
                    }
                    assert forall|k: Seq<char>| group_has(group_view(group@), k) == #[trigger] appears(
                        ws2,
                        group_by,
                        k,
                    ) by {
                        if appears(ws2, group_by, k) {
                            let x = choose|x: int| 0 <= x < ws2.len() && group_has(select(ws2[x], group_by), k);
                            if x < ws.len() {
                                assert(ws2[x] == ws[x]);
                            }
                        }
                        if appears(ws, group_by, k) {
                            let x = choose|x: int| 0 <= x < ws.len() && group_has(select(ws[x], group_by), k);
                            assert(ws2[x] == ws[x]);
                        }
                        if group_has(select(bucket_view(*b), group_by), k) {
                            assert(ws2[ws.len() as int] == bucket_view(*b));
                        }
                    }
                }
            } else {
                assert(in_window(bv.take(i + 1), cut) == ws);
                assert(window_costs(bv.take(i + 1), cs.take(i + 1), cut) == wc);
            }
            i += 1;
        }
        assert(bv.take(bv.len() as int) =~= bv);
        assert(cs.take(cs.len() as int) =~= cs);
        let breakdown = Self::sorted_breakdown(&group);
        Snapshot { totals: win, group_by, breakdown, series }
    }

    /// The entries of `g`, most requests first (equal counts keep their order).
    fn sorted_breakdown(g: &Vec<(String, Totals<C>)>) -> (rows: Vec<(String, Totals<C>)>)
        requires
            group_ok(group_view(g@)),
        ensures
            crate::jobs::distinct(group_keys(group_view(rows@))),
            forall|a: int, b: int|
                0 <= a < b < rows@.len() ==> rows@[a].1.requests >= rows@[b].1.requests,
            forall|a: int|
                0 <= a < rows@.len() ==> group_has(group_view(g@), #[trigger] rows@[a].0@)
                    && tally_of(rows@[a].1) == group_get(group_view(g@), rows@[a].0@),
            forall|k: Seq<char>|
                #[trigger] group_has(group_view(g@), k) ==> group_has(group_view(rows@), k),
            forall|a: int|
                0 <= a < rows@.len() ==> (#[trigger] rows@[a]).1.cost_usd == cost_at(
                    group_view(g@),
                    totals_costs(g@),
                    rows@[a].0@,
                ),
    {
        let ghost gv = group_view(g@);
        let ghost st = gv.map_values(|p: (Seq<char>, Tally)| p.1.requests);
        let mut order: Vec<usize> = Vec::new();
        let mut k: usize = 0;
        while k < g.len()
            invariant
                k <= g@.len(),
                gv == group_view(g@),
                st == gv.map_values(|p: (Seq<char>, Tally)| p.1.requests),
                crate::jobs::order_ok(st, order@, k as int),
            decreases g.len() - k,
        {
            let rk = g[k].1.requests;
            let mut pos: usize = 0;
            while pos < order.len() && g[order[pos]].1.requests >= rk
                invariant
                    pos <= order@.len(),
                    crate::jobs::order_ok(st, order@, k as int),
                    k < g@.len(),
                    gv == group_view(g@),
                    st == gv.map_values(|p: (Seq<char>, Tally)| p.1.requests),
                    rk == st[k as int],
                    forall|a: int| 0 <= a < pos ==> st[order@[a] as int] >= rk,
                decreases order.len() - pos,
            {
                pos += 1;
            }
            let ghost before = order@;
            order.insert(pos, k);
            proof {
                crate::jobs::lemma_insert_order(st, before, k as int, pos as int);
            }
            k += 1;
        }
        let mut rows: Vec<(String, Totals<C>)> = Vec::new();
        let mut a: usize = 0;
        while a < order.len()
            invariant
                a <= order@.len(),
                order@.len() == g@.len(),
                gv == group_view(g@),
                st == gv.map_values(|p: (Seq<char>, Tally)| p.1.requests),
                crate::jobs::order_ok(st, order@, g@.len() as int),
                rows@.len() == a,
                forall|c: int| 0 <= c < a ==> #[trigger] group_view(rows@)[c] == gv[order@[c] as int],
                forall|c: int|
                    0 <= c < a ==> (#[trigger] rows@[c]).1.cost_usd == g@[order@[c] as int].1.cost_usd,
            decreases order.len() - a,
        {
            let idx = order[a];
            let ghost before = group_view(rows@);
            rows.push((g[idx].0.clone(), g[idx].1));
            assert(group_view(rows@) =~= before.push(gv[idx as int]));
            a += 1;
        }
        proof {
            let rv = group_view(rows@);
            assert forall|x: int, y: int| 0 <= x < y < rv.len() implies group_keys(rv)[x]
                != group_keys(rv)[y] by {
                assert(rv[x] == gv[order@[x] as int]);
                assert(rv[y] == gv[order@[y] as int]);
                if order@[x] < order@[y] {
                    assert(group_keys(gv)[order@[x] as int] != group_keys(gv)[order@[y] as int]);
                } else {
                    assert(group_keys(gv)[order@[y] as int] != group_keys(gv)[order@[x] as int]);
                }
            }
            assert forall|x: int, y: int| 0 <= x < y < rows@.len() implies rows@[x].1.requests
                >= rows@[y].1.requests by {
                assert(rv[x] == gv[order@[x] as int]);
                assert(rv[y] == gv[order@[y] as int]);
            }
            assert forall|x: int| 0 <= x < rows@.len() implies group_has(gv, #[trigger] rows@[x].0@)
                && tally_of(rows@[x].1) == group_get(gv, rows@[x].0@) by {
                assert(rv[x] == gv[order@[x] as int]);
                lemma_group_get_at(gv, order@[x] as int);
            }
            assert forall|x: int| 0 <= x < rows@.len() implies (#[trigger] rows@[x]).1.cost_usd == cost_at(
                gv,
                totals_costs(g@),
                rows@[x].0@,
            ) by {
                assert(rv[x] == gv[order@[x] as int]);
                lemma_group_get_at(gv, order@[x] as int);
            }
            assert forall|key: Seq<char>| #[trigger] group_has(gv, key) implies group_has(rv, key) by {
                let t = crate::jobs::key_pos(group_keys(gv), key)->0;
                assert(group_keys(gv)[t] == key);
                assert(crate::jobs::placed(order@, t));
                let x = choose|x: int| 0 <= x < order@.len() && order@[x] == t;
                assert(rv[x] == gv[t]);
                lemma_group_get_at(rv, x);
            }
        }
        rows
    }
}

/// One request counted from nothing carries its own figures: one request,
/// an error exactly when it did not succeed, and its own prompt and
/// completion token counts (neither taken for the other).
pub proof fn law_one_request_tally<S, C>(r: RequestRecord<S, C>)
    ensures
        tally_apply(zero_tally(), r).requests == 1,
        tally_apply(zero_tally(), r).ok == (if is_ok(r) { 1u64 } else { 0u64 }),
        tally_apply(zero_tally(), r).errors == (if is_ok(r) { 0u64 } else { 1u64 }),
        tally_apply(zero_tally(), r).prompt_tokens == r.prompt_tokens as u64,
        tally_apply(zero_tally(), r).completion_tokens == r.completion_tokens as u64,
        tally_apply(zero_tally(), r).latency_ms_sum == r.latency_ms,
{
}

/// Recording one request into statistics that hold none yet: the all-time
/// counters, the totals of any window that reaches back to its minute, and
/// that window's row for its model all show the request's own prompt and
/// completion token counts and one request.
pub proof fn law_first_request_counts<S, C: Amount>(
    v: StatsView<S, C>,
    r: RequestRecord<S, C>,
    now: u64,
    range_secs: u64,
)
    requires
        v.total == zero_tally(),
        v.buckets.len() == 0,
        minute_of(r.ts) >= cutoff(now, v.retention_secs),
        minute_of(r.ts) >= cutoff(now, range_secs),
    ensures
        ({
            let w = counted(v, r, now);
            let t = window_tally(in_window(w.buckets, cutoff(now, range_secs)));
            let row = group_fold(in_window(w.buckets, cutoff(now, range_secs)), GroupBy::Model, r.model_id@);
            &&& w.total.prompt_tokens == r.prompt_tokens as u64
            &&& w.total.completion_tokens == r.completion_tokens as u64
            &&& t.requests == 1
            &&& t.prompt_tokens == r.prompt_tokens as u64
            &&& t.completion_tokens == r.completion_tokens as u64
            &&& row.requests == 1
            &&& row.prompt_tokens == r.prompt_tokens as u64
            &&& row.completion_tokens == r.completion_tokens as u64
        }),
{
    let b = bucket_fill(empty_bucket(minute_of(r.ts)), r);
    assert(add_to_buckets(v.buckets, r) == seq![b]);
    let bs = seq![b];
    assert(!(b.minute < cutoff(now, v.retention_secs)));
    assert(trim_before(bs, cutoff(now, v.retention_secs)) == bs);
    let w = counted(v, r, now);
    assert(w.buckets == bs);
    assert(bs.drop_last() =~= Seq::<BucketView>::empty());
    assert(in_window(Seq::<BucketView>::empty(), cutoff(now, range_secs)) == Seq::<BucketView>::empty());
    assert(bs.last().minute >= cutoff(now, range_secs));
    assert(in_window(bs, cutoff(now, range_secs)) == in_window(bs.drop_last(), cutoff(now, range_secs)).push(bs.last()));
    assert(in_window(bs, cutoff(now, range_secs)) =~= seq![b]);
    let ws = seq![b];
    assert(ws.drop_last() =~= Seq::<BucketView>::empty());
    assert(ws.last() == b);
    assert(window_tally(Seq::<BucketView>::empty()) == zero_tally());
    assert(window_tally(ws.drop_last()) == zero_tally());
    assert(group_fold(Seq::<BucketView>::empty(), GroupBy::Model, r.model_id@) == zero_tally());
    assert(group_fold(ws.drop_last(), GroupBy::Model, r.model_id@) == zero_tally());
    assert(window_tally(ws) == add_bucket(zero_tally(), b));
    assert(group_fold(ws, GroupBy::Model, r.model_id@) == tally_merge(zero_tally(), group_get(select(b, GroupBy::Model), r.model_id@)));
    let g = b.by_model;
    assert(group_keys(Seq::<(Seq<char>, Tally)>::empty()) =~= Seq::<Seq<char>>::empty());
    assert(g == seq![(r.model_id@, tally_apply(zero_tally(), r))]);
    assert(group_keys(g) =~= seq![r.model_id@]);
    crate::jobs::lemma_key_pos_at(group_keys(g), 0);
    assert(group_get(g, r.model_id@) == tally_apply(zero_tally(), r));
}

} // verus!
