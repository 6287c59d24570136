//! Per-task-label promotion lifecycle of the self-warming local model.
//!
//! Each label keeps a rolling window of judge verdicts (pass / hard fail). The
//! label moves through ShadowJudged → Canary → LocalServed only on enough
//! evidence, falls back to Demoted on regression, and a demoted label has to
//! re-earn promotion from ShadowJudged. The statistical test on the pass rate
//! (a Wilson lower bound, and the point pass rate for regressions) is computed
//! by the caller from the window counts this module reports; the counting and
//! the state machine are here.

use vstd::prelude::*;
use std::collections::VecDeque;
use crate::config::ShadowCfg;
use crate::text::str_eq;
use vstd::string::StrSliceExecFns;

verus! {

/// Per-label lifecycle. Serving locally is only ever Canary / LocalServed.
#[derive(PartialEq, Eq, Structural, Clone, Copy, Debug)]
pub enum PromotionState {
    CloudOnly,
    ShadowJudged,
    Canary,
    LocalServed,
    Demoted,
}

/// Integer tuning of the promotion table.
pub struct PromotionCfg {
    pub enabled: bool,
    /// Rolling judgments kept per label.
    pub window: usize,
    /// Minimum judgments before promotion is considered.
    pub n_min: usize,
    /// Extra Canary judgments before LocalServed.
    pub soak: usize,
    /// Judge log (append + replay); `None` = in-memory only.
    pub file: Option<String>,
}

impl PromotionCfg {
    /// The tuning `[shadow]` describes: the loop runs only when it is enabled
    /// and names a local model; an empty log path keeps judgments in memory.
    pub fn from_shadow(s: &ShadowCfg) -> (c: Self)
        ensures
            c.enabled == (s.enabled && s.local_model_id@.len() > 0),
            c.window == s.window,
            c.n_min == s.n_min,
            c.soak == s.soak,
            crate::model::opt_view(c.file) == (if s.file@.len() == 0 {
                None
            } else {
                Some(s.file@)
            }),
    {
        PromotionCfg {
            enabled: s.enabled && s.local_model_id.as_str().unicode_len() > 0,
            window: s.window,
            n_min: s.n_min,
            soak: s.soak,
            file: if s.file.as_str().unicode_len() == 0 {
                None
            } else {
                Some(s.file.clone())
            },
        }
    }
}

/// Counts over a label's rolling window.
pub struct WindowCounts {
    /// Judgments in the window.
    pub n: usize,
    /// Passing judgments in the window.
    pub passes: usize,
    /// Hard fails in the window.
    pub hard_fails: usize,
    /// Hard fails among the 50 most recent judgments.
    pub recent_hard_fails: usize,
}

pub struct LabelState {
    passes: VecDeque<bool>,
    hard_fails: VecDeque<bool>,
    state: PromotionState,
    soaked: usize,
}

pub struct LabelView {
    pub passes: Seq<bool>,
    pub hard_fails: Seq<bool>,
    pub state: PromotionState,
    pub soaked: nat,
}

impl View for LabelState {
    type V = LabelView;

    closed spec fn view(&self) -> LabelView {
        LabelView {
            passes: self.passes@,
            hard_fails: self.hard_fails@,
            state: self.state,
            soaked: self.soaked as nat,
        }
    }
}

/// The promotion table: one lifecycle per task label.
pub struct Promotion {
    cfg: PromotionCfg,
    labels: Vec<(String, LabelState)>,
}

/// The last `cap` elements of `q`.
pub open spec fn capped<T>(q: Seq<T>, cap: nat) -> Seq<T> {
    if q.len() > cap {
        q.skip(q.len() - cap)
    } else {
        q
    }
}

/// Number of `true` entries.
pub open spec fn count_true(s: Seq<bool>) -> nat
    decreases s.len(),
{
    if s.len() == 0 {
        0
    } else {
        count_true(s.drop_last()) + if s.last() {
            1nat
        } else {
            0nat
        }
    }
}

/// The 50 most recent entries.
pub open spec fn recent(s: Seq<bool>) -> Seq<bool> {
    if s.len() > 50 {
        s.skip(s.len() - 50)
    } else {
        s
    }
}

/// Promotion bar: enough judgments, the pass-rate bound clears the bar, and
/// no hard fail in the window.
pub open spec fn bar(l: LabelView, n_min: nat, bound_clears: bool) -> bool {
    l.passes.len() >= n_min && bound_clears && count_true(l.hard_fails) == 0
}

/// Regression: the pass rate fell below the demotion level, or two hard fails
/// among the recent judgments.
pub open spec fn regressed(l: LabelView, rate_low: bool) -> bool {
    rate_low || count_true(recent(l.hard_fails)) >= 2
}

/// One step of the lifecycle: the new state and Canary soak count.
pub open spec fn next_state(
    st: PromotionState,
    soaked: nat,
    bar: bool,
    regressed: bool,
    soak: nat,
) -> (PromotionState, nat) {
    match st {
        PromotionState::CloudOnly | PromotionState::ShadowJudged => if bar {
            (PromotionState::Canary, 0)
        } else {
            (PromotionState::ShadowJudged, soaked)
        },
        PromotionState::Canary => if regressed {
            (PromotionState::Demoted, soaked)
        } else {
            let s2 = if soaked < usize::MAX {
                soaked + 1
            } else {
                soaked
            };
            if s2 >= soak && bar {
                (PromotionState::LocalServed, s2)
            } else {
                (PromotionState::Canary, s2)
            }
        },
        PromotionState::LocalServed => if regressed {
            (PromotionState::Demoted, soaked)
        } else {
            (PromotionState::LocalServed, soaked)
        },
        PromotionState::Demoted => (PromotionState::ShadowJudged, soaked),
    }
}

pub open spec fn serves_local_state(st: PromotionState) -> bool {
    st == PromotionState::Canary || st == PromotionState::LocalServed
}

pub open spec fn label_pos(ls: Seq<(Seq<char>, LabelView)>, label: Seq<char>) -> Option<int> {
    if exists|i: int| 0 <= i < ls.len() && ls[i].0 == label {
        Some(choose|i: int| 0 <= i < ls.len() && ls[i].0 == label)
    } else {
        None
    }
}

/// State of a label: CloudOnly until its first judgment.
pub open spec fn state_of(ls: Seq<(Seq<char>, LabelView)>, label: Seq<char>) -> PromotionState {
    match label_pos(ls, label) {
        Some(i) => ls[i].1.state,
        None => PromotionState::CloudOnly,
    }
}

pub open spec fn unique_labels(ls: Seq<(Seq<char>, LabelView)>) -> bool {
    forall|i: int, j: int| 0 <= i < j < ls.len() ==> ls[i].0 != ls[j].0
}

/// A label's window after one more judgment.
pub open spec fn pushed(l: LabelView, pass: bool, hard_fail: bool, window: nat) -> LabelView {
    LabelView {
        passes: capped(l.passes.push(pass), window),
        hard_fails: capped(l.hard_fails.push(hard_fail), window),
        state: l.state,
        soaked: l.soaked,
    }
}

pub open spec fn fresh_label() -> LabelView {
    LabelView {
        passes: Seq::empty(),
        hard_fails: Seq::empty(),
        state: PromotionState::ShadowJudged,
        soaked: 0,
    }
}

/// Appends `v` and drops from the front until at most `cap` remain.
pub fn push_cap<T>(q: &mut VecDeque<T>, v: T, cap: usize)
    ensures
        final(q)@ == capped(old(q)@.push(v), cap as nat),
{
    q.push_back(v);
    let ghost full = q@;
    assert(full.skip(0) =~= full);
    while q.len() > cap
        invariant
            full == old(q)@.push(v),
            q@.len() >= cap || q@ == full,
            q@.len() <= full.len(),
            q@ == full.skip(full.len() - q@.len()),
        decreases q@.len(),
    {
        let ghost prev = q@;
        let r = q.pop_front();
        assert(r is Some);
        assert(q@ =~= prev.subrange(1, prev.len() as int));
        assert(q@ =~= full.skip(full.len() - q@.len()));
    }
    assert(q@ =~= capped(full, cap as nat));
}

fn count_true_exec(q: &VecDeque<bool>, from: usize) -> (c: usize)
    requires
        from <= q@.len(),
    ensures
        c == count_true(q@.skip(from as int)),
{
    let mut c: usize = 0;
    let mut i: usize = from;
    while i < q.len()
        invariant
            from <= i <= q@.len(),
            c == count_true(q@.subrange(from as int, i as int)),
            c <= i - from,
        decreases q.len() - i,
    {
        assert(q@.subrange(from as int, i + 1).drop_last() =~= q@.subrange(from as int, i as int));
        if q[i] {
            c += 1;
        }
        i += 1;
    }
    assert(q@.subrange(from as int, q@.len() as int) =~= q@.skip(from as int));
    c
}

impl LabelState {
    fn new() -> (l: Self)
        ensures
            l@ == fresh_label(),
    {
        LabelState {
            passes: VecDeque::new(),
            hard_fails: VecDeque::new(),
            state: PromotionState::ShadowJudged,
            soaked: 0,
        }
    }

    fn counts(&self) -> (c: WindowCounts)
        ensures
            c.n == self@.passes.len(),
            c.passes == count_true(self@.passes),
            c.hard_fails == count_true(self@.hard_fails),
            c.recent_hard_fails == count_true(recent(self@.hard_fails)),
    {
        let n = self.passes.len();
        let passes = count_true_exec(&self.passes, 0);
        let hard_fails = count_true_exec(&self.hard_fails, 0);
        let from = if self.hard_fails.len() > 50 {
            self.hard_fails.len() - 50
        } else {
            0
        };
        let recent_hard_fails = count_true_exec(&self.hard_fails, from);
        proof {
            assert(self@.passes.skip(0) =~= self@.passes);
            assert(self@.hard_fails.skip(0) =~= self@.hard_fails);
        }
        WindowCounts { n, passes, hard_fails, recent_hard_fails }
    }

    /// Advances the lifecycle given the outcome of the caller's rate tests.
    fn advance(&mut self, n_min: usize, soak: usize, bound_clears: bool, rate_low: bool)
        ensures
            final(self)@.passes == old(self)@.passes,
            final(self)@.hard_fails == old(self)@.hard_fails,
            (final(self)@.state, final(self)@.soaked) == next_state(
                old(self)@.state,
                old(self)@.soaked,
                bar(old(self)@, n_min as nat, bound_clears),
                regressed(old(self)@, rate_low),
                soak as nat,
            ),
    {
        let c = self.counts();
        let bar = c.n >= n_min && bound_clears && c.hard_fails == 0;
        let regressed = rate_low || c.recent_hard_fails >= 2;
        match self.state {
            PromotionState::CloudOnly | PromotionState::ShadowJudged => {
                if bar {
                    self.soaked = 0;
                    self.state = PromotionState::Canary;
                } else {
                    self.state = PromotionState::ShadowJudged;
                }
            },
            PromotionState::Canary => {
                if regressed {
                    self.state = PromotionState::Demoted;
                } else {
                    if self.soaked < usize::MAX {
                        self.soaked = self.soaked + 1;
                    }
                    if self.soaked >= soak && bar {
                        self.state = PromotionState::LocalServed;
                    } else {
                        self.state = PromotionState::Canary;
                    }
                }
            },
            PromotionState::LocalServed => {
                if regressed {
                    self.state = PromotionState::Demoted;
                }
            },
            PromotionState::Demoted => {
                self.state = PromotionState::ShadowJudged;
            },
        }
    }
}

/// In a table without repeated labels, looking up an entry's label finds that
/// entry.
proof fn lemma_pos_unique(ls: Seq<(Seq<char>, LabelView)>, i: int)
    requires
        unique_labels(ls),
        0 <= i < ls.len(),
    ensures
        label_pos(ls, ls[i].0) == Some(i),
{
    assert(ls[i].0 == ls[i].0);
    let k = choose|k: int| 0 <= k < ls.len() && ls[k].0 == ls[i].0;
    if k < i {
        assert(ls[k].0 != ls[i].0);
    } else if k > i {
        assert(ls[i].0 != ls[k].0);
    }
}

/// Replacing the entry at `i` by one under the same label keeps labels unique
/// and every lookup where it was; other labels keep their state.
proof fn lemma_update_entry(ls: Seq<(Seq<char>, LabelView)>, i: int, v: LabelView)
    requires
        unique_labels(ls),
        0 <= i < ls.len(),
    ensures
        unique_labels(ls.update(i, (ls[i].0, v))),
        forall|l: Seq<char>| label_pos(ls.update(i, (ls[i].0, v)), l) == label_pos(ls, l),
        forall|l: Seq<char>|
            l != ls[i].0 ==> state_of(ls.update(i, (ls[i].0, v)), l) == state_of(ls, l),
{
    let after = ls.update(i, (ls[i].0, v));
    assert forall|k: int| 0 <= k < after.len() implies after[k].0 == ls[k].0 by {}
    assert forall|a: int, b: int| 0 <= a < b < after.len() implies after[a].0 != after[b].0 by {
        assert(after[a].0 == ls[a].0);
        assert(after[b].0 == ls[b].0);
    }
    assert forall|l: Seq<char>| label_pos(after, l) == label_pos(ls, l) by {
        if exists|k: int| 0 <= k < ls.len() && ls[k].0 == l {
            let k = choose|k: int| 0 <= k < ls.len() && ls[k].0 == l;
            lemma_pos_unique(ls, k);
            assert(after[k].0 == l);
            lemma_pos_unique(after, k);
        } else {
            assert forall|k: int| 0 <= k < after.len() implies after[k].0 != l by {
                assert(after[k].0 == ls[k].0);
            }
        }
    }
    assert forall|l: Seq<char>| l != ls[i].0 implies state_of(after, l) == state_of(ls, l) by {
        assert(label_pos(after, l) == label_pos(ls, l));
        if let Some(k) = label_pos(ls, l) {
            assert(ls[k].0 == l);
            assert(k != i);
        }
    }
}

/// Appending a new label keeps labels unique, finds the new label at the end,
/// and leaves every other lookup as it was.
proof fn lemma_push_entry(ls: Seq<(Seq<char>, LabelView)>, l: Seq<char>, v: LabelView)
    requires
        unique_labels(ls),
        label_pos(ls, l) is None,
    ensures
        unique_labels(ls.push((l, v))),
        label_pos(ls.push((l, v)), l) == Some(ls.len() as int),
        forall|m: Seq<char>| m != l ==> label_pos(ls.push((l, v)), m) == label_pos(ls, m),
        forall|m: Seq<char>| m != l ==> state_of(ls.push((l, v)), m) == state_of(ls, m),
{
    let after = ls.push((l, v));
    assert forall|k: int| 0 <= k < ls.len() implies ls[k].0 != l by {}
    assert forall|a: int, b: int| 0 <= a < b < after.len() implies after[a].0 != after[b].0 by {
        assert(after[a] == ls[a]);
        if b < ls.len() {
            assert(after[b] == ls[b]);
        }
    }
    lemma_pos_unique(after, ls.len() as int);
    assert forall|m: Seq<char>| m != l implies label_pos(after, m) == label_pos(ls, m) by {
        if exists|k: int| 0 <= k < ls.len() && ls[k].0 == m {
            let k = choose|k: int| 0 <= k < ls.len() && ls[k].0 == m;
            lemma_pos_unique(ls, k);
            assert(after[k] == ls[k]);
            lemma_pos_unique(after, k);
        } else {
            assert forall|k: int| 0 <= k < after.len() implies after[k].0 != m by {
                if k < ls.len() {
                    assert(after[k] == ls[k]);
                }
            }
        }
    }
    assert forall|m: Seq<char>| m != l implies state_of(after, m) == state_of(ls, m) by {
        assert(label_pos(after, m) == label_pos(ls, m));
        if let Some(k) = label_pos(ls, m) {
            assert(after[k] == ls[k]);
        }
    }
}

impl View for Promotion {
    type V = Seq<(Seq<char>, LabelView)>;

    closed spec fn view(&self) -> Seq<(Seq<char>, LabelView)> {
        self.labels@.map_values(|p: (String, LabelState)| (p.0@, p.1@))
    }
}

impl Promotion {
    /// An empty table with the given tuning.
    pub fn new(cfg: PromotionCfg) -> (p: Self)
        ensures
            p@.len() == 0,
            p.window() == cfg.window,
            p.n_min() == cfg.n_min,
            p.soak() == cfg.soak,
            p.enabled() == cfg.enabled,
            p.log_file() == cfg.file,
    {
        Promotion { cfg, labels: Vec::new() }
    }

    /// The judge log path the table was made with.
    pub closed spec fn log_file(&self) -> Option<String> {
        self.cfg.file
    }

    pub closed spec fn window(&self) -> usize {
        self.cfg.window
    }

    pub closed spec fn n_min(&self) -> usize {
        self.cfg.n_min
    }

    pub closed spec fn soak(&self) -> usize {
        self.cfg.soak
    }

    pub closed spec fn enabled(&self) -> bool {
        self.cfg.enabled
    }

    pub closed spec fn well_formed(&self) -> bool {
        unique_labels(self@)
    }

    /// Whether the shadow loop is on.
    pub fn is_enabled(&self) -> (b: bool)
        ensures
            b == self.enabled(),
    {
        self.cfg.enabled
    }

    /// The judge log path, if judgments are persisted.
    pub fn file(&self) -> (r: &Option<String>)
        ensures
            *r == self.log_file(),
    {
        &self.cfg.file
    }

    fn position(&self, label: &str) -> (r: Option<usize>)
        requires
            self.well_formed(),
        ensures
            match r {
                Some(i) => i < self@.len() && self@[i as int].0 == label@ && label_pos(self@, label@)
                    == Some(i as int),
                None => label_pos(self@, label@) is None,
            },
    {
        let mut i: usize = 0;
        while i < self.labels.len()
            invariant
                i <= self.labels.len(),
                self.well_formed(),
                forall|j: int| 0 <= j < i ==> self@[j].0 != label@,
            decreases self.labels.len() - i,
        {
            if str_eq(self.labels[i].0.as_str(), label) {
                proof {
                    assert(self@[i as int].0 == label@);
                    lemma_pos_unique(self@, i as int);
                }
                return Some(i);
            }
            i += 1;
        }
        None
    }

    /// Adds one judgment to the label's rolling windows (creating the label in
    /// ShadowJudged on its first judgment) and returns the window counts the
    /// caller's rate tests need. The lifecycle moves on in `settle`.
    pub fn push_judgment(&mut self, label: &str, pass: bool, hard_fail: bool) -> (c: WindowCounts)
        requires
            old(self).well_formed(),
        ensures
            final(self).well_formed(),
            final(self).window() == old(self).window(),
            final(self).n_min() == old(self).n_min(),
            final(self).soak() == old(self).soak(),
            final(self).enabled() == old(self).enabled(),
            final(self).log_file() == old(self).log_file(),
            label_pos(final(self)@, label@) matches Some(i) && final(self)@[i].1 == pushed(
                match label_pos(old(self)@, label@) {
                    Some(j) => old(self)@[j].1,
                    None => fresh_label(),
                },
                pass,
                hard_fail,
                old(self).window() as nat,
            ) && c.n == final(self)@[i].1.passes.len() && c.passes == count_true(
                final(self)@[i].1.passes,
            ) && c.hard_fails == count_true(final(self)@[i].1.hard_fails)
                && c.recent_hard_fails == count_true(recent(final(self)@[i].1.hard_fails)),
            forall|l: Seq<char>|
                l != label@ ==> state_of(final(self)@, l) == state_of(old(self)@, l),
    {
        let ghost start = self@;
        let ghost base = match label_pos(start, label@) {
            Some(j) => start[j].1,
            None => fresh_label(),
        };
        let window = self.cfg.window;
        let i = match self.position(label) {
            Some(i) => i,
            None => {
                self.labels.push((crate::text::owned(label), LabelState::new()));
                proof {
                    assert(self@ =~= start.push((label@, fresh_label())));
                    lemma_push_entry(start, label@, fresh_label());
                }
                self.labels.len() - 1
            },
        };
        let ghost mid = self@;
        assert(mid[i as int] == (label@, base));
        let (name, mut ls) = self.labels.remove(i);
        push_cap(&mut ls.passes, pass, window);
        push_cap(&mut ls.hard_fails, hard_fail, window);
        let c = ls.counts();
        self.labels.insert(i, (name, ls));
        proof {
            assert(self@ =~= mid.update(i as int, (label@, self@[i as int].1)));
            lemma_update_entry(mid, i as int, self@[i as int].1);
        }
        c
    }

    /// Moves the label's lifecycle one step, given whether the pass-rate lower
    /// bound clears the promotion bar and whether the pass rate is below the
    /// demotion level. Returns the (possibly new) state.
    pub fn settle(&mut self, label: &str, bound_clears: bool, rate_low: bool) -> (st:
        PromotionState)
        requires
            old(self).well_formed(),
        ensures
            final(self).well_formed(),
            final(self).window() == old(self).window(),
            final(self).n_min() == old(self).n_min(),
            final(self).soak() == old(self).soak(),
            final(self).enabled() == old(self).enabled(),
            final(self).log_file() == old(self).log_file(),
            match label_pos(old(self)@, label@) {
                Some(i) => label_pos(final(self)@, label@) == Some(i) && final(self)@[i].1.passes
                    == old(self)@[i].1.passes && final(self)@[i].1.hard_fails
                    == old(self)@[i].1.hard_fails
                    && (final(self)@[i].1.state, final(self)@[i].1.soaked) == next_state(
                    old(self)@[i].1.state,
                    old(self)@[i].1.soaked,
                    bar(old(self)@[i].1, old(self).n_min() as nat, bound_clears),
                    regressed(old(self)@[i].1, rate_low),
                    old(self).soak() as nat,
                ) && st == final(self)@[i].1.state,
                None => final(self)@ == old(self)@ && st == PromotionState::CloudOnly,
            },
            forall|l: Seq<char>|
                l != label@ ==> state_of(final(self)@, l) == state_of(old(self)@, l),
    {
        match self.position(label) {
            None => PromotionState::CloudOnly,
            Some(i) => {
                let ghost mid = self@;
                let n_min = self.cfg.n_min;
                let soak = self.cfg.soak;
                let (name, mut ls) = self.labels.remove(i);
                ls.advance(n_min, soak, bound_clears, rate_low);
                let st = ls.state;
                self.labels.insert(i, (name, ls));
                proof {
                    assert(self@ =~= mid.update(i as int, (label@, self@[i as int].1)));
                    lemma_update_entry(mid, i as int, self@[i as int].1);
                }
                st
            },
        }
    }

    /// Current lifecycle state of a label (CloudOnly before any judgment).
    pub fn state(&self, label: &str) -> (st: PromotionState)
        requires
            self.well_formed(),
        ensures
            st == state_of(self@, label@),
    {
        match self.position(label) {
            Some(i) => self.labels[i].1.state,
            None => PromotionState::CloudOnly,
        }
    }

    /// Whether requests of this label are served by the local model
    /// (Canary or LocalServed; the caller still applies its per-request veto).
    pub fn serves_local(&self, label: &str) -> (b: bool)
        requires
            self.well_formed(),
        ensures
            b == serves_local_state(state_of(self@, label@)),
    {
        let st = self.state(label);
        st == PromotionState::Canary || st == PromotionState::LocalServed
    }

    /// `(label, state, judgments, passes)` per label, most-judged first (labels
    /// with equal counts keep the order in which they were first judged).
    pub fn snapshot(&self) -> (rows: Vec<(String, PromotionState, usize, usize)>)
        requires
            self.well_formed(),
        ensures
            rows@.len() == self@.len(),
            forall|a: int, b: int| 0 <= a < b < rows@.len() ==> rows@[a].2 >= rows@[b].2,
            forall|a: int| 0 <= a < rows@.len() ==> reported_among(self@, rows@[a], self@.len() as int),
            forall|k: int| 0 <= k < self@.len() ==> listed_in(rows@, self@[k]),
    {
        let mut rows: Vec<(String, PromotionState, usize, usize)> = Vec::new();
        let mut k: usize = 0;
        while k < self.labels.len()
            invariant
                k <= self.labels.len(),
                rows@.len() == k,
                forall|a: int, b: int| 0 <= a < b < rows@.len() ==> rows@[a].2 >= rows@[b].2,
                forall|a: int| 0 <= a < rows@.len() ==> reported_among(self@, rows@[a], k as int),
                forall|j: int| 0 <= j < k ==> listed_in(rows@, self@[j]),
            decreases self.labels.len() - k,
        {
            let c = self.labels[k].1.counts();
            let row = (self.labels[k].0.clone(), self.labels[k].1.state, c.n, c.passes);
            assert(describes(self@[k as int], row));
            // insert after every row with at least as many judgments (stable)
            let mut pos: usize = 0;
            while pos < rows.len() && rows[pos].2 >= c.n
                invariant
                    pos <= rows@.len(),
                    forall|a: int| 0 <= a < pos ==> rows@[a].2 >= c.n,
                decreases rows.len() - pos,
            {
                pos += 1;
            }
            let ghost before = rows@;
            rows.insert(pos, row);
            proof {
                lemma_insert_sorted(before, pos as int, row);
                lemma_insert_accounts(self@, k as int, before, pos as int, row);
            }
            k += 1;
        }
        rows
    }
}

/// Inserting a row after every row with at least as many judgments (and
/// before the first with fewer) keeps the rows ordered by judgments.
proof fn lemma_insert_sorted(
    before: Seq<(String, PromotionState, usize, usize)>,
    pos: int,
    row: (String, PromotionState, usize, usize),
)
    requires
        0 <= pos <= before.len(),
        forall|a: int, b: int| 0 <= a < b < before.len() ==> before[a].2 >= before[b].2,
        forall|a: int| 0 <= a < pos ==> before[a].2 >= row.2,
        pos < before.len() ==> before[pos].2 < row.2,
    ensures
        forall|a: int, b: int|
            0 <= a < b < before.insert(pos, row).len() ==> before.insert(pos, row)[a].2
                >= before.insert(pos, row)[b].2,
{
    let rows = before.insert(pos, row);
    assert forall|a: int, b: int| 0 <= a < b < rows.len() implies rows[a].2 >= rows[b].2 by {
        if b < pos {
            assert(rows[a] == before[a]);
            assert(rows[b] == before[b]);
        } else if b == pos {
            assert(rows[a] == before[a]);
        } else if a < pos {
            assert(rows[a] == before[a]);
            assert(rows[b] == before[b - 1]);
            assert(before[pos].2 >= before[b - 1].2 || b - 1 == pos);
        } else if a == pos {
            assert(rows[b] == before[b - 1]);
            assert(before[pos].2 >= before[b - 1].2 || b - 1 == pos);
        } else {
            assert(rows[a] == before[a - 1]);
            assert(rows[b] == before[b - 1]);
        }
    }
}

/// After inserting the row of entry `k`, every row reports one of the first
/// `k + 1` entries and each of them is listed.
proof fn lemma_insert_accounts(
    ls: Seq<(Seq<char>, LabelView)>,
    k: int,
    before: Seq<(String, PromotionState, usize, usize)>,
    pos: int,
    row: (String, PromotionState, usize, usize),
)
    requires
        0 <= k < ls.len(),
        0 <= pos <= before.len(),
        describes(ls[k], row),
        forall|a: int| 0 <= a < before.len() ==> reported_among(ls, before[a], k),
        forall|j: int| 0 <= j < k ==> listed_in(before, ls[j]),
    ensures
        forall|a: int|
            0 <= a < before.insert(pos, row).len() ==> reported_among(
                ls,
                before.insert(pos, row)[a],
                k + 1,
            ),
        forall|j: int| 0 <= j < k + 1 ==> listed_in(before.insert(pos, row), ls[j]),
{
    let rows = before.insert(pos, row);
    assert forall|a: int| 0 <= a < rows.len() implies reported_among(ls, rows[a], k + 1) by {
        if a < pos {
            assert(rows[a] == before[a]);
            assert(reported_among(ls, before[a], k));
        } else if a == pos {
            assert(describes(ls[k], rows[a]));
        } else {
            assert(rows[a] == before[a - 1]);
            assert(reported_among(ls, before[a - 1], k));
        }
    }
    assert forall|j: int| 0 <= j < k + 1 implies listed_in(rows, ls[j]) by {
        if j < k {
            assert(listed_in(before, ls[j]));
            let a = choose|a: int| 0 <= a < before.len() && describes(ls[j], before[a]);
            if a < pos {
                assert(rows[a] == before[a]);
            } else {
                assert(rows[a + 1] == before[a]);
            }
        } else {
            assert(rows[pos] == row);
        }
    }
}

/// `row` reports one of the first `upto` entries of the table.
pub open spec fn reported_among(
    ls: Seq<(Seq<char>, LabelView)>,
    row: (String, PromotionState, usize, usize),
    upto: int,
) -> bool {
    exists|j: int| 0 <= j < upto && #[trigger] describes(ls[j], row)
}

/// Some row of `rows` reports `entry`.
pub open spec fn listed_in(
    rows: Seq<(String, PromotionState, usize, usize)>,
    entry: (Seq<char>, LabelView),
) -> bool {
    exists|a: int| 0 <= a < rows.len() && #[trigger] describes(entry, rows[a])
}

/// A snapshot row `(label, state, judgments, passes)` that reports `entry`.
pub open spec fn describes(
    entry: (Seq<char>, LabelView),
    row: (String, PromotionState, usize, usize),
) -> bool {
    &&& entry.0 == row.0@
    &&& entry.1.state == row.1
    &&& row.2 == entry.1.passes.len()
    &&& row.3 == count_true(entry.1.passes)
}

/// A label enters Canary only with at least `n_min` judgments in its window
/// and no hard fail among them: a short lucky streak cannot promote a label.
pub proof fn law_promotion_needs_evidence(
    l: LabelView,
    n_min: nat,
    bound_clears: bool,
    rate_low: bool,
    soak: nat,
)
    requires
        l.state == PromotionState::CloudOnly || l.state == PromotionState::ShadowJudged,
        next_state(
            l.state,
            l.soaked,
            bar(l, n_min, bound_clears),
            regressed(l, rate_low),
            soak,
        ).0 == PromotionState::Canary,
    ensures
        l.passes.len() >= n_min,
        count_true(l.hard_fails) == 0,
        bound_clears,
{
}

/// LocalServed is reached only from Canary, after the soak and while the
/// promotion bar still holds.
pub proof fn law_local_serving_needs_soak(
    l: LabelView,
    n_min: nat,
    bound_clears: bool,
    rate_low: bool,
    soak: nat,
)
    requires
        l.state != PromotionState::LocalServed,
        next_state(
            l.state,
            l.soaked,
            bar(l, n_min, bound_clears),
            regressed(l, rate_low),
            soak,
        ).0 == PromotionState::LocalServed,
    ensures
        l.state == PromotionState::Canary,
        next_state(
            l.state,
            l.soaked,
            bar(l, n_min, bound_clears),
            regressed(l, rate_low),
            soak,
        ).1 >= soak,
        bar(l, n_min, bound_clears),
        !regressed(l, rate_low),
{
}

/// A serving label (Canary or LocalServed) that regresses stops being served
/// locally, and a demoted label must re-earn promotion from ShadowJudged.
pub proof fn law_regression_demotes(
    st: PromotionState,
    soaked: nat,
    b: bool,
    soak: nat,
)
    requires
        serves_local_state(st),
    ensures
        next_state(st, soaked, b, true, soak).0 == PromotionState::Demoted,
        !serves_local_state(next_state(st, soaked, b, true, soak).0),
        next_state(PromotionState::Demoted, soaked, b, true, soak).0
            == PromotionState::ShadowJudged,
        next_state(PromotionState::Demoted, soaked, b, false, soak).0
            == PromotionState::ShadowJudged,
{
}

/// A label's windows never hold more than `window` judgments.
pub proof fn law_window_bounded(l: LabelView, pass: bool, hard_fail: bool, window: nat)
    ensures
        pushed(l, pass, hard_fail, window).passes.len() <= window || window
            >= l.passes.len() + 1,
        pushed(l, pass, hard_fail, window).passes.len() == if l.passes.len() + 1 > window {
            window
        } else {
            l.passes.len() + 1
        },
        pushed(l, pass, hard_fail, window).passes.last() == pass || window == 0,
{
}

} // verus!
