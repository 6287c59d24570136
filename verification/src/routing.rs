//! Model selection: `(complexity tier) → ordered list of model ids`. The list
//! serves as both a priority order and a fallback chain.

use vstd::prelude::*;
use crate::config::{
    bad_default, bad_target_at, config_valid, known_id, tier_list, tier_targets, Config,
};
use crate::text::{clone_strings, str_eq, views};

verus! {

/// The routing table: tier lists and the default model.
pub struct RoutingTable {
    tiers: Vec<(String, Vec<String>)>,
    default: String,
}

/// Mathematical model of a routing table.
pub struct RoutingTableView {
    pub tiers: Seq<(Seq<char>, Seq<Seq<char>>)>,
    pub default: Seq<char>,
}

impl View for RoutingTable {
    type V = RoutingTableView;

    closed spec fn view(&self) -> RoutingTableView {
        RoutingTableView {
            tiers: self.tiers@.map_values(|p: (String, Vec<String>)| (p.0@, views(p.1@))),
            default: self.default@,
        }
    }
}

/// The table a configuration describes.
pub open spec fn table_of(cfg: Config) -> RoutingTableView {
    RoutingTableView {
        tiers: cfg.routing.tiers@.map_values(
            |p: (String, crate::config::TierTargets)| (p.0@, tier_list(p.1)),
        ),
        default: cfg.routing.default@,
    }
}

/// Position of the first tier named `tier` at or after `i` (or the length).
pub open spec fn tier_pos_from(
    tiers: Seq<(Seq<char>, Seq<Seq<char>>)>,
    tier: Seq<char>,
    i: int,
) -> int
    decreases tiers.len() - i,
{
    if i < 0 || i >= tiers.len() {
        tiers.len() as int
    } else if tiers[i].0 == tier {
        i
    } else {
        tier_pos_from(tiers, tier, i + 1)
    }
}

/// Candidates for `tier`: the list of the first tier with that name, or the
/// default model alone when no tier has that name.
pub open spec fn candidates_of(t: RoutingTableView, tier: Seq<char>) -> Seq<Seq<char>> {
    let k = tier_pos_from(t.tiers, tier, 0);
    if k < t.tiers.len() {
        t.tiers[k].1
    } else {
        seq![t.default]
    }
}

proof fn lemma_tier_pos(tiers: Seq<(Seq<char>, Seq<Seq<char>>)>, tier: Seq<char>, i: int)
    requires
        0 <= i <= tiers.len(),
    ensures
        i <= tier_pos_from(tiers, tier, i) <= tiers.len(),
        tier_pos_from(tiers, tier, i) < tiers.len() ==> tiers[tier_pos_from(tiers, tier, i)].0
            == tier,
    decreases tiers.len() - i,
{
    if i < tiers.len() && tiers[i].0 != tier {
        lemma_tier_pos(tiers, tier, i + 1);
    }
}

impl RoutingTable {
    /// Builds the table from `[routing]`.
    pub fn from_config(cfg: &Config) -> (t: Self)
        ensures
            t@ == table_of(*cfg),
    {
        let mut tiers: Vec<(String, Vec<String>)> = Vec::new();
        let mut k: usize = 0;
        while k < cfg.routing.tiers.len()
            invariant
                k <= cfg.routing.tiers.len(),
                tiers@.map_values(|p: (String, Vec<String>)| (p.0@, views(p.1@))) =~= cfg.routing.tiers@.take(
                    k as int,
                ).map_values(|p: (String, crate::config::TierTargets)| (p.0@, tier_list(p.1))),
            decreases cfg.routing.tiers.len() - k,
        {
            let name = cfg.routing.tiers[k].0.clone();
            let list = tier_targets(&cfg.routing.tiers[k].1);
            let ghost before = tiers@;
            tiers.push((name, list));
            assert(tiers@.map_values(|p: (String, Vec<String>)| (p.0@, views(p.1@))) =~= before.map_values(
                |p: (String, Vec<String>)| (p.0@, views(p.1@)),
            ).push((cfg.routing.tiers@[k as int].0@, tier_list(cfg.routing.tiers@[k as int].1))));
            assert(cfg.routing.tiers@.take(k + 1) =~= cfg.routing.tiers@.take(k as int).push(
                cfg.routing.tiers@[k as int],
            ));
            k += 1;
        }
        assert(cfg.routing.tiers@.take(cfg.routing.tiers.len() as int) =~= cfg.routing.tiers@);
        RoutingTable { tiers, default: cfg.routing.default.clone() }
    }

    /// Candidates for the given complexity tier, in preference order. If the
    /// tier is not defined, the sole candidate is the default model.
    pub fn candidates(&self, tier: &str) -> (r: Vec<String>)
        ensures
            views(r@) == candidates_of(self@, tier@),
    {
        let ghost tv = self@.tiers;
        let mut k: usize = 0;
        while k < self.tiers.len()
            invariant
                k <= self.tiers.len(),
                tv == self@.tiers,
                tier_pos_from(tv, tier@, 0) == tier_pos_from(tv, tier@, k as int),
            decreases self.tiers.len() - k,
        {
            if str_eq(self.tiers[k].0.as_str(), tier) {
                return clone_strings(&self.tiers[k].1);
            }
            k += 1;
        }
        let mut r: Vec<String> = Vec::new();
        r.push(self.default.clone());
        assert(views(r@) =~= seq![self.default@]);
        r
    }

    /// The default model (used when the router is unavailable).
    pub fn default_model(&self) -> (r: &str)
        ensures
            r@ == self@.default,
    {
        self.default.as_str()
    }
}

/// Every candidate a valid configuration's routing table yields names a known
/// model; the only exception is an empty default standing for "no default".
pub proof fn law_valid_config_routes_to_known_models(cfg: Config, tier: Seq<char>, x: int)
    requires
        config_valid(cfg),
        0 <= x < candidates_of(table_of(cfg), tier).len(),
    ensures
        known_id(cfg, candidates_of(table_of(cfg), tier)[x]) || (
        candidates_of(table_of(cfg), tier)[x].len() == 0 && cfg.routing.default@.len() == 0),
{
    let t = table_of(cfg);
    lemma_tier_pos(t.tiers, tier, 0);
    let k = tier_pos_from(t.tiers, tier, 0);
    if k < t.tiers.len() {
        assert(!bad_target_at(cfg, k, x));
    } else {
        assert(!bad_default(cfg));
    }
}

proof fn lemma_tier_pos_at(tiers: Seq<(Seq<char>, Seq<Seq<char>>)>, tier: Seq<char>, i: int, k: int)
    requires
        0 <= i <= k < tiers.len(),
        tiers[k].0 == tier,
        forall|j: int| i <= j < k ==> tiers[j].0 != tier,
    ensures
        tier_pos_from(tiers, tier, i) == k,
    decreases k - i,
{
    if i < k {
        lemma_tier_pos_at(tiers, tier, i + 1, k);
    }
}

/// In a valid configuration, the candidates of a configured tier are that
/// tier's list exactly, in the order written: its first model is the first
/// preference and the head of the failover chain.
pub proof fn law_tier_candidates_are_its_list(cfg: Config, k: int)
    requires
        config_valid(cfg),
        0 <= k < cfg.routing.tiers@.len(),
    ensures
        candidates_of(table_of(cfg), cfg.routing.tiers@[k].0@) == tier_list(cfg.routing.tiers@[k].1),
{
    law_valid_config_tiers_are_distinct(cfg);
    let t = table_of(cfg);
    let names = t.tiers.map_values(|p: (Seq<char>, Seq<Seq<char>>)| p.0);
    assert forall|j: int| 0 <= j < k implies t.tiers[j].0 != cfg.routing.tiers@[k].0@ by {
        assert(names[j] == t.tiers[j].0);
        assert(names[k] == t.tiers[k].0);
    }
    lemma_tier_pos_at(t.tiers, cfg.routing.tiers@[k].0@, 0, k);
}

/// The routing table of a valid configuration is a map: no tier name occurs
/// twice, so each tier has exactly one candidate list.
pub proof fn law_valid_config_tiers_are_distinct(cfg: Config)
    requires
        config_valid(cfg),
    ensures
        crate::jobs::distinct(
            table_of(cfg).tiers.map_values(|p: (Seq<char>, Seq<Seq<char>>)| p.0),
        ),
{
    let names = table_of(cfg).tiers.map_values(|p: (Seq<char>, Seq<Seq<char>>)| p.0);
    assert(names =~= crate::config::tier_names(cfg));
    assert forall|a: int, b: int| 0 <= a < b < names.len() implies names[a] != names[b] by {
        if names[a] == names[b] {
            assert(crate::config::dup_at(crate::config::tier_names(cfg), b));
        }
    }
}

} // verus!
