//! Gateway configuration model (mirrors `config/gateway.example.toml`) and its
//! integrity validation. Secrets are never held here: `*_env` fields only name
//! the secret. Fractional tuning values (prices, thresholds, sample rates) live
//! with the TOML front end, not in this model.

use vstd::prelude::*;
use crate::text::{append_str, chars_of, is_blank, owned, push_char, str_eq, string_of, trim};

verus! {

/// Managed local CMF model server and model factory settings.
pub struct CmfCfg {
    /// Python interpreter that has torch + the converter deps.
    pub python_bin: String,
    /// Path to the Python converter script.
    pub converter: String,
    /// Directory where produced `.cmf` files are written.
    pub models_dir: String,
    /// Base URL of the cortiq-server that serves the `.cmf` (OpenAI `/v1`).
    pub cortiq_server_url: String,
    /// Secret name of a HuggingFace token (empty = anonymous).
    pub hf_token_env: String,
    /// `cortiq` CLI binary for the local server.
    pub cortiq_bin: String,
    /// Install cortiq-cli automatically if the binary is missing.
    pub auto_install: bool,
    /// On startup, reinstall if a newer cortiq-cli exists.
    pub auto_update: bool,
    /// Spawn and manage a local `cortiq serve` for `local_model`.
    pub manage_server: bool,
    /// Path to the local `.cmf` to serve (empty = disabled).
    pub local_model: String,
    /// Host the managed local server binds to.
    pub local_host: String,
    /// Port the managed local server binds to.
    pub local_port: u16,
    /// Model id the local server is registered under in the pool.
    pub model_id: String,
    /// Route every request to the local model, ignoring router and providers.
    pub local_only: bool,
}

/// Connection to the external router service.
pub struct RouterCfg {
    /// Master switch: when false the router is never called.
    pub enabled: bool,
    pub url: String,
    pub timeout_ms: u64,
    pub verify_tls: bool,
    pub api_key_env: Option<String>,
    pub taxonomy_id: Option<String>,
}

/// How the text to classify is extracted from a request.
pub struct RouteCfg {
    pub text_strategy: String,
    pub max_chars: usize,
    pub cache_ttl: String,
    pub profile: String,
}

/// One model of the pool (its per-token prices are kept by the TOML front end).
pub struct ModelCfg {
    pub id: String,
    /// openai | anthropic | ollama | http | openrouter | lmstudio
    pub provider: String,
    pub base_url: String,
    pub model: String,
    pub cost_tier: String,
    /// chat | embedding
    pub kind: String,
    pub api_key_env: Option<String>,
    pub caps: Vec<String>,
}

/// A routing tier is a list of model ids or a single id.
pub enum TierTargets {
    List(Vec<String>),
    One(String),
}

/// Selection policy (the per-request cost cap is kept by the TOML front end).
pub struct RoutingPolicy {
    /// fixed_table | cost_aware
    pub mode: String,
    /// Minimum cost class per tier, as `(tier, class)` pairs.
    pub min_class: Vec<(String, String)>,
}

/// `[routing]`: tier → ordered model list, plus the default model.
pub struct RoutingCfg {
    /// `(tier name, targets)` pairs; tier names are distinct.
    pub tiers: Vec<(String, TierTargets)>,
    pub default: String,
    pub policy: RoutingPolicy,
}

pub struct BreakerCfg {
    pub threshold: u32,
    pub cooldown: String,
}

/// Which inbound protocol adapters are enabled.
pub struct ProtocolsCfg {
    pub openai_chat: bool,
    pub openai_completions: bool,
    pub openai_embeddings: bool,
    pub openai_models: bool,
    pub anthropic_messages: bool,
    pub mcp: bool,
    pub native_passthrough: bool,
}

pub struct CortiqCfg {
    pub echo: bool,
}

/// A virtual gateway key.
pub struct ApiKeyCfg {
    pub key: String,
    pub account: String,
    pub rate_per_min: u32,
    pub allow_models: Vec<String>,
}

pub struct IdempotencyCfg {
    pub ttl: String,
}

pub struct LogCfg {
    pub bodies: bool,
    pub level: String,
}

pub struct TelemetryCfg {
    pub metrics: bool,
    pub otlp_endpoint_env: Option<String>,
}

/// Access to the web management panel and admin API.
pub struct AdminCfg {
    pub enabled: bool,
    pub token_env: Option<String>,
    pub listen: Option<String>,
}

/// Request statistics tracking.
pub struct StatsCfg {
    pub enabled: bool,
    /// Append-only JSONL log; empty means in-memory only.
    pub file: String,
    /// How many recent requests to keep in memory.
    pub ring_size: usize,
    /// Retention window for aggregates, e.g. `7d`.
    pub retention: String,
}

/// Self-warming shadow loop (its sample rate and promotion bound are kept by
/// the TOML front end).
pub struct ShadowCfg {
    pub enabled: bool,
    pub local_model_id: String,
    pub judge_model_id: String,
    pub file: String,
    pub n_min: usize,
    pub window: usize,
    pub soak: usize,
    pub serve_when_promoted: bool,
}

/// Semantic response cache (its similarity threshold is kept by the TOML front end).
pub struct CacheCfg {
    pub enabled: bool,
    pub ttl: String,
    pub max_entries: usize,
    pub embed_model: Option<String>,
}

/// The whole gateway configuration.
pub struct Config {
    pub listen: String,
    pub router: RouterCfg,
    pub route: RouteCfg,
    pub models: Vec<ModelCfg>,
    pub routing: RoutingCfg,
    pub breaker: BreakerCfg,
    pub protocols: ProtocolsCfg,
    pub cortiq: CortiqCfg,
    pub api_keys: Vec<ApiKeyCfg>,
    pub idempotency: IdempotencyCfg,
    pub log: LogCfg,
    pub telemetry: TelemetryCfg,
    pub admin: AdminCfg,
    pub stats: StatsCfg,
    pub cache: CacheCfg,
    pub shadow: ShadowCfg,
    pub cmf: CmfCfg,
}

/// One managed local model server derived from `[cmf]`.
pub struct CmfServer {
    pub id: String,
    pub model: String,
    pub port: u16,
}

// ───────────────────────────── defaults ─────────────────────────────────────

/// `dir` joined with the relative file name `name` (as `Path::join` does).
pub open spec fn join_path(dir: Seq<char>, name: Seq<char>) -> Seq<char> {
    if dir.len() == 0 {
        name
    } else if dir.last() == '/' {
        dir + name
    } else {
        dir + seq!['/'] + name
    }
}

/// Path of the data file `name` under the gateway data directory `data_dir`.
pub fn data_path(data_dir: &str, name: &str) -> (r: String)
    ensures
        r@ == join_path(data_dir@, name@),
{
    let d = chars_of(data_dir);
    let mut r = string_of(&d);
    if d.len() > 0 && d[d.len() - 1] != '/' {
        push_char(&mut r, '/');
    }
    append_str(&mut r, name);
    r
}

pub fn default_cortiq_bin() -> (r: String)
    ensures
        r@ == "cortiq"@,
{
    owned("cortiq")
}

pub fn default_cmf_local_host() -> (r: String)
    ensures
        r@ == "127.0.0.1"@,
{
    owned("127.0.0.1")
}

pub fn default_cmf_local_port() -> (r: u16)
    ensures
        r == 8081,
{
    8081
}

pub fn default_cmf_model_id() -> (r: String)
    ensures
        r@ == "cmf-local"@,
{
    owned("cmf-local")
}

pub fn default_cmf_python() -> (r: String)
    ensures
        r@ == "python3"@,
{
    owned("python3")
}

pub fn default_cmf_converter() -> (r: String)
    ensures
        r@ == "../cmf/converter/convert_dtgma_to_cmf.py"@,
{
    owned("../cmf/converter/convert_dtgma_to_cmf.py")
}

pub fn default_cmf_models_dir(data_dir: &str) -> (r: String)
    ensures
        r@ == join_path(data_dir@, "models"@),
{
    data_path(data_dir, "models")
}

pub fn default_cmf_server_url() -> (r: String)
    ensures
        r@ == "http://127.0.0.1:8081/v1"@,
{
    owned("http://127.0.0.1:8081/v1")
}

pub fn default_router_enabled() -> (r: bool)
    ensures
        r,
{
    true
}

pub fn default_router_timeout() -> (r: u64)
    ensures
        r == 800,
{
    800
}

pub fn default_verify_tls() -> (r: bool)
    ensures
        r,
{
    true
}

pub fn default_text_strategy() -> (r: String)
    ensures
        r@ == "last_user"@,
{
    owned("last_user")
}

pub fn default_max_chars() -> (r: usize)
    ensures
        r == 4000,
{
    4000
}

pub fn default_cache_ttl() -> (r: String)
    ensures
        r@ == "60s"@,
{
    owned("60s")
}

pub fn default_profile() -> (r: String)
    ensures
        r@ == "balanced"@,
{
    owned("balanced")
}

pub fn default_kind() -> (r: String)
    ensures
        r@ == "chat"@,
{
    owned("chat")
}

pub fn default_mode() -> (r: String)
    ensures
        r@ == "fixed_table"@,
{
    owned("fixed_table")
}

pub fn default_breaker_threshold() -> (r: u32)
    ensures
        r == 5,
{
    5
}

pub fn default_breaker_cooldown() -> (r: String)
    ensures
        r@ == "30s"@,
{
    owned("30s")
}

pub fn default_idem_ttl() -> (r: String)
    ensures
        r@ == "10m"@,
{
    owned("10m")
}

pub fn default_log_level() -> (r: String)
    ensures
        r@ == "info"@,
{
    owned("info")
}

pub fn default_admin_enabled() -> (r: bool)
    ensures
        r,
{
    true
}

pub fn default_stats_enabled() -> (r: bool)
    ensures
        r,
{
    true
}

pub fn default_stats_file(data_dir: &str) -> (r: String)
    ensures
        r@ == join_path(data_dir@, "stats.jsonl"@),
{
    data_path(data_dir, "stats.jsonl")
}

pub fn default_stats_ring() -> (r: usize)
    ensures
        r == 500,
{
    500
}

pub fn default_stats_retention() -> (r: String)
    ensures
        r@ == "7d"@,
{
    owned("7d")
}

pub fn default_shadow_file(data_dir: &str) -> (r: String)
    ensures
        r@ == join_path(data_dir@, "judge.jsonl"@),
{
    data_path(data_dir, "judge.jsonl")
}

pub fn default_shadow_nmin() -> (r: usize)
    ensures
        r == 200,
{
    200
}

pub fn default_shadow_window() -> (r: usize)
    ensures
        r == 500,
{
    500
}

pub fn default_shadow_soak() -> (r: usize)
    ensures
        r == 100,
{
    100
}

pub fn default_semcache_ttl() -> (r: String)
    ensures
        r@ == "1h"@,
{
    owned("1h")
}

pub fn default_semcache_max() -> (r: usize)
    ensures
        r == 1000,
{
    1000
}

impl CmfCfg {
    /// `[cmf]` with every field at its default, data files under `data_dir`.
    pub fn defaults(data_dir: &str) -> (c: Self)
        ensures
            c.python_bin@ == "python3"@,
            c.converter@ == "../cmf/converter/convert_dtgma_to_cmf.py"@,
            c.models_dir@ == join_path(data_dir@, "models"@),
            c.cortiq_server_url@ == "http://127.0.0.1:8081/v1"@,
            c.hf_token_env@ == Seq::<char>::empty(),
            c.cortiq_bin@ == "cortiq"@,
            !c.auto_install,
            !c.auto_update,
            !c.manage_server,
            c.local_model@ == Seq::<char>::empty(),
            c.local_host@ == "127.0.0.1"@,
            c.local_port == 8081,
            c.model_id@ == "cmf-local"@,
            !c.local_only,
    {
        CmfCfg {
            python_bin: default_cmf_python(),
            converter: default_cmf_converter(),
            models_dir: default_cmf_models_dir(data_dir),
            cortiq_server_url: default_cmf_server_url(),
            hf_token_env: String::new(),
            cortiq_bin: default_cortiq_bin(),
            auto_install: false,
            auto_update: false,
            manage_server: false,
            local_model: String::new(),
            local_host: default_cmf_local_host(),
            local_port: default_cmf_local_port(),
            model_id: default_cmf_model_id(),
            local_only: false,
        }
    }
}

impl Default for RouteCfg {
    fn default() -> (r: Self)
        ensures
            r.text_strategy@ == "last_user"@,
            r.max_chars == 4000,
            r.cache_ttl@ == "60s"@,
            r.profile@ == "balanced"@,
    {
        RouteCfg {
            text_strategy: default_text_strategy(),
            max_chars: default_max_chars(),
            cache_ttl: default_cache_ttl(),
            profile: default_profile(),
        }
    }
}

impl Default for RoutingPolicy {
    fn default() -> (r: Self)
        ensures
            r.mode@ == "fixed_table"@,
            r.min_class@.len() == 0,
    {
        RoutingPolicy { mode: default_mode(), min_class: Vec::new() }
    }
}

impl Default for BreakerCfg {
    fn default() -> (r: Self)
        ensures
            r.threshold == 5,
            r.cooldown@ == "30s"@,
    {
        BreakerCfg { threshold: default_breaker_threshold(), cooldown: default_breaker_cooldown() }
    }
}

impl Default for ProtocolsCfg {
    fn default() -> (r: Self)
        ensures
            !r.openai_chat,
            !r.openai_completions,
            !r.openai_embeddings,
            !r.openai_models,
            !r.anthropic_messages,
            !r.mcp,
            !r.native_passthrough,
    {
        ProtocolsCfg {
            openai_chat: false,
            openai_completions: false,
            openai_embeddings: false,
            openai_models: false,
            anthropic_messages: false,
            mcp: false,
            native_passthrough: false,
        }
    }
}

impl Default for CortiqCfg {
    fn default() -> (r: Self)
        ensures
            r.echo,
    {
        CortiqCfg { echo: true }
    }
}

impl Default for IdempotencyCfg {
    fn default() -> (r: Self)
        ensures
            r.ttl@ == "10m"@,
    {
        IdempotencyCfg { ttl: default_idem_ttl() }
    }
}

impl Default for LogCfg {
    fn default() -> (r: Self)
        ensures
            !r.bodies,
            r.level@ == "info"@,
    {
        LogCfg { bodies: false, level: default_log_level() }
    }
}

impl Default for TelemetryCfg {
    fn default() -> (r: Self)
        ensures
            !r.metrics,
            r.otlp_endpoint_env is None,
    {
        TelemetryCfg { metrics: false, otlp_endpoint_env: None }
    }
}

impl Default for AdminCfg {
    fn default() -> (r: Self)
        ensures
            r.enabled,
            r.token_env is None,
            r.listen is None,
    {
        AdminCfg { enabled: default_admin_enabled(), token_env: None, listen: None }
    }
}

impl Default for CacheCfg {
    fn default() -> (r: Self)
        ensures
            !r.enabled,
            r.ttl@ == "1h"@,
            r.max_entries == 1000,
            r.embed_model is None,
    {
        CacheCfg {
            enabled: false,
            ttl: default_semcache_ttl(),
            max_entries: default_semcache_max(),
            embed_model: None,
        }
    }
}

impl StatsCfg {
    /// `[stats]` with every field at its default, the log under `data_dir`.
    pub fn defaults(data_dir: &str) -> (r: Self)
        ensures
            r.enabled,
            r.file@ == join_path(data_dir@, "stats.jsonl"@),
            r.ring_size == 500,
            r.retention@ == "7d"@,
    {
        StatsCfg {
            enabled: default_stats_enabled(),
            file: default_stats_file(data_dir),
            ring_size: default_stats_ring(),
            retention: default_stats_retention(),
        }
    }
}

impl ShadowCfg {
    /// `[shadow]` with every field at its default, the judge log under `data_dir`.
    pub fn defaults(data_dir: &str) -> (r: Self)
        ensures
            !r.enabled,
            r.local_model_id@.len() == 0,
            r.judge_model_id@.len() == 0,
            r.file@ == join_path(data_dir@, "judge.jsonl"@),
            r.n_min == 200,
            r.window == 500,
            r.soak == 100,
            !r.serve_when_promoted,
    {
        ShadowCfg {
            enabled: false,
            local_model_id: String::new(),
            judge_model_id: String::new(),
            file: default_shadow_file(data_dir),
            n_min: default_shadow_nmin(),
            window: default_shadow_window(),
            soak: default_shadow_soak(),
            serve_when_promoted: false,
        }
    }
}


// ───────────────────────────── validation ───────────────────────────────────

/// Why a configuration is rejected.
pub enum ConfigError {
    /// No `[[models]]` entry and no managed local CMF model.
    NoModels,
    /// Two `[[models]]` entries share this id.
    DuplicateModelId(String),
    /// `routing.default` names no known model.
    UnknownDefault(String),
    /// Tier `tier` lists the unknown model id `id`.
    UnknownRoutingTarget { tier: String, id: String },
    /// Two routing tiers share this name.
    DuplicateTier(String),
}

/// A managed local CMF model is configured (`manage_server` and a non-blank `local_model`).
pub open spec fn has_local_model(cmf: CmfCfg) -> bool {
    cmf.manage_server && trim(cmf.local_model@).len() > 0
}

/// Ids of the `[[models]]` entries, in order.
pub open spec fn model_ids(models: Seq<ModelCfg>) -> Seq<Seq<char>> {
    models.map_values(|m: ModelCfg| m.id@)
}

/// An id the routing table may name: a pool model or the managed local model.
pub open spec fn known_id(cfg: Config, id: Seq<char>) -> bool {
    model_ids(cfg.models@).contains(id) || (has_local_model(cfg.cmf) && id == cfg.cmf.model_id@)
}

/// Entry `j` repeats the id of an earlier entry.
pub open spec fn dup_at(ids: Seq<Seq<char>>, j: int) -> bool {
    0 <= j < ids.len() && exists|i: int| 0 <= i < j && ids[i] == ids[j]
}

/// The model ids a tier names, in order.
pub open spec fn tier_list(t: TierTargets) -> Seq<Seq<char>> {
    match t {
        TierTargets::List(v) => v@.map_values(|s: String| s@),
        TierTargets::One(s) => seq![s@],
    }
}

/// Target `x` of tier entry `k` is not a known id.
pub open spec fn bad_target_at(cfg: Config, k: int, x: int) -> bool {
    &&& 0 <= k < cfg.routing.tiers@.len()
    &&& 0 <= x < tier_list(cfg.routing.tiers@[k].1).len()
    &&& !known_id(cfg, tier_list(cfg.routing.tiers@[k].1)[x])
}

pub open spec fn lex_before(k2: int, x2: int, k: int, x: int) -> bool {
    k2 < k || (k2 == k && x2 < x)
}

pub open spec fn no_models(cfg: Config) -> bool {
    cfg.models@.len() == 0 && !has_local_model(cfg.cmf)
}

pub open spec fn has_dup(cfg: Config) -> bool {
    exists|j: int| dup_at(model_ids(cfg.models@), j)
}

pub open spec fn bad_default(cfg: Config) -> bool {
    cfg.routing.default@.len() > 0 && !known_id(cfg, cfg.routing.default@)
}

pub open spec fn has_bad_target(cfg: Config) -> bool {
    exists|k: int, x: int| bad_target_at(cfg, k, x)
}

/// Names of the routing tiers, in order.
pub open spec fn tier_names(cfg: Config) -> Seq<Seq<char>> {
    cfg.routing.tiers@.map_values(|p: (String, TierTargets)| p.0@)
}

/// Some tier name occurs twice (the routing table is a map from tier names).
pub open spec fn has_dup_tier(cfg: Config) -> bool {
    exists|j: int| dup_at(tier_names(cfg), j)
}

/// The configuration passes validation.
pub open spec fn config_valid(cfg: Config) -> bool {
    !no_models(cfg) && !has_dup(cfg) && !bad_default(cfg) && !has_bad_target(cfg) && !has_dup_tier(
        cfg,
    )
}

/// The managed local servers `[cmf]` describes: the single legacy local model
/// when it is configured, none otherwise.
pub open spec fn servers_of(cmf: CmfCfg) -> Seq<(Seq<char>, Seq<char>, u16)> {
    if has_local_model(cmf) {
        seq![(cmf.model_id@, cmf.local_model@, cmf.local_port)]
    } else {
        Seq::empty()
    }
}

pub open spec fn server_views(v: Seq<CmfServer>) -> Seq<(Seq<char>, Seq<char>, u16)> {
    v.map_values(|s: CmfServer| (s.id@, s.model@, s.port))
}

impl ConfigError {
    /// The message shown to the operator.
    pub fn message(&self) -> (m: String)
        ensures
            match self {
                ConfigError::NoModels => m@
                    == "config: at least one [[models]] entry (or a managed local CMF model) is required"@,
                ConfigError::DuplicateModelId(id) => m@ == "config: duplicate model id '"@ + id@
                    + "'"@,
                ConfigError::UnknownDefault(id) => m@ == "config: routing.default '"@ + id@
                    + "' is not a known model id"@,
                ConfigError::UnknownRoutingTarget { tier, id } => m@ == "config: routing."@
                    + tier@ + " references unknown model id '"@ + id@ + "'"@,
                ConfigError::DuplicateTier(name) => m@ == "config: duplicate routing tier '"@
                    + name@ + "'"@,
            },
    {
        match self {
            ConfigError::NoModels => owned(
                "config: at least one [[models]] entry (or a managed local CMF model) is required",
            ),
            ConfigError::DuplicateModelId(id) => {
                let mut m = owned("config: duplicate model id '");
                append_str(&mut m, id.as_str());
                append_str(&mut m, "'");
                m
            },
            ConfigError::UnknownDefault(id) => {
                let mut m = owned("config: routing.default '");
                append_str(&mut m, id.as_str());
                append_str(&mut m, "' is not a known model id");
                m
            },
            ConfigError::UnknownRoutingTarget { tier, id } => {
                let mut m = owned("config: routing.");
                append_str(&mut m, tier.as_str());
                append_str(&mut m, " references unknown model id '");
                append_str(&mut m, id.as_str());
                append_str(&mut m, "'");
                m
            },
            ConfigError::DuplicateTier(name) => {
                let mut m = owned("config: duplicate routing tier '");
                append_str(&mut m, name.as_str());
                append_str(&mut m, "'");
                m
            },
        }
    }
}

impl CmfCfg {
    /// Whether a managed local CMF model is configured.
    pub fn has_local(&self) -> (b: bool)
        ensures
            b == has_local_model(*self),
    {
        self.manage_server && !is_blank(self.local_model.as_str())
    }

    /// The managed local model servers this section describes.
    pub fn effective_servers(&self) -> (v: Vec<CmfServer>)
        ensures
            server_views(v@) == servers_of(*self),
    {
        let mut v: Vec<CmfServer> = Vec::new();
        if self.has_local() {
            v.push(
                CmfServer {
                    id: self.model_id.clone(),
                    model: self.local_model.clone(),
                    port: self.local_port,
                },
            );
        }
        assert(server_views(v@) =~= servers_of(*self));
        v
    }
}

/// The model ids a tier names, as owned strings.
pub fn tier_targets(t: &TierTargets) -> (v: Vec<String>)
    ensures
        v@.map_values(|s: String| s@) == tier_list(*t),
{
    match t {
        TierTargets::List(l) => {
            let mut v: Vec<String> = Vec::new();
            let mut i: usize = 0;
            while i < l.len()
                invariant
                    i <= l.len(),
                    v@.map_values(|s: String| s@) =~= l@.take(i as int).map_values(|s: String| s@),
                decreases l.len() - i,
            {
                let ghost before = v@;
                v.push(l[i].clone());
                assert(v@.map_values(|s: String| s@) =~= before.map_values(|s: String| s@).push(
                    l@[i as int]@,
                ));
                assert(l@.take(i + 1) =~= l@.take(i as int).push(l@[i as int]));
                assert(l@.take(i + 1).map_values(|s: String| s@) =~= l@.take(i as int).map_values(
                    |s: String| s@,
                ).push(l@[i as int]@));
                i += 1;
            }
            assert(l@.take(l.len() as int) =~= l@);
            v
        },
        TierTargets::One(s) => {
            let mut v: Vec<String> = Vec::new();
            v.push(s.clone());
            assert(v@.map_values(|s: String| s@) =~= seq![s@]);
            v
        },
    }
}

impl Config {
    /// Whether `id` is a pool model id or the managed local model id.
    pub fn is_known_id(&self, id: &String) -> (b: bool)
        ensures
            b == known_id(*self, id@),
    {
        let mut i: usize = 0;
        while i < self.models.len()
            invariant
                i <= self.models.len(),
                forall|j: int| 0 <= j < i ==> self.models@[j].id@ != id@,
            decreases self.models.len() - i,
        {
            if self.models[i].id == *id {
                assert(model_ids(self.models@)[i as int] == id@);
                return true;
            }
            i += 1;
        }
        assert(!model_ids(self.models@).contains(id@)) by {
            if model_ids(self.models@).contains(id@) {
                let j = choose|j: int| 0 <= j < model_ids(self.models@).len() && model_ids(self.models@)[j] == id@;
                assert(self.models@[j].id@ == id@);
            }
        }
        self.cmf.has_local() && self.cmf.model_id == *id
    }

    /// Index of the first model whose id repeats an earlier one.
    fn first_duplicate(&self) -> (r: Option<usize>)
        ensures
            match r {
                Some(j) => dup_at(model_ids(self.models@), j as int) && forall|j2: int| 0 <= j2 < j ==> !dup_at(model_ids(self.models@), j2),
                None => !has_dup(*self),
            },
    {
        let ghost ids = model_ids(self.models@);
        let mut j: usize = 0;
        while j < self.models.len()
            invariant
                j <= self.models.len(),
                ids == model_ids(self.models@),
                forall|j2: int| 0 <= j2 < j ==> !dup_at(ids, j2),
            decreases self.models.len() - j,
        {
            let mut i: usize = 0;
            while i < j
                invariant
                    i <= j < self.models.len(),
                    ids == model_ids(self.models@),
                    forall|j2: int| 0 <= j2 < j ==> !dup_at(ids, j2),
                    forall|i2: int| 0 <= i2 < i ==> ids[i2] != ids[j as int],
                decreases j - i,
            {
                if self.models[i].id == self.models[j].id {
                    assert(ids[i as int] == ids[j as int]);
                    assert(dup_at(ids, j as int));
                    return Some(j);
                }
                i += 1;
            }
            j += 1;
        }
        assert forall|j2: int| !dup_at(ids, j2) by {
            if 0 <= j2 < ids.len() {
                assert(j2 < j);
            }
        }
        None
    }

    fn first_duplicate_tier(&self) -> (r: Option<usize>)
        ensures
            match r {
                Some(j) => dup_at(tier_names(*self), j as int),
                None => !has_dup_tier(*self),
            },
    {
        let ghost names = tier_names(*self);
        let mut j: usize = 0;
        while j < self.routing.tiers.len()
            invariant
                j <= self.routing.tiers.len(),
                names == tier_names(*self),
                forall|j2: int| 0 <= j2 < j ==> !dup_at(names, j2),
            decreases self.routing.tiers.len() - j,
        {
            let mut i: usize = 0;
            while i < j
                invariant
                    i <= j < self.routing.tiers.len(),
                    names == tier_names(*self),
                    forall|j2: int| 0 <= j2 < j ==> !dup_at(names, j2),
                    forall|i2: int| 0 <= i2 < i ==> names[i2] != names[j as int],
                decreases j - i,
            {
                if str_eq(self.routing.tiers[i].0.as_str(), self.routing.tiers[j].0.as_str()) {
                    assert(names[i as int] == names[j as int]);
                    assert(dup_at(names, j as int));
                    return Some(j);
                }
                i += 1;
            }
            j += 1;
        }
        assert forall|j2: int| !dup_at(names, j2) by {
            if 0 <= j2 < names.len() {
                assert(j2 < j);
            }
        }
        None
    }

    /// Integrity validation: a non-empty model pool, unique model ids, every
    /// routing target (default and tiers) naming a known model, and unique
    /// tier names. The first violation found, in that order, is reported.
    pub fn validate(&self) -> (r: Result<(), ConfigError>)
        ensures
            r is Ok <==> config_valid(*self),
            (r matches Err(ConfigError::NoModels)) <==> no_models(*self),
            r matches Err(ConfigError::DuplicateModelId(id)) ==> {
                &&& !no_models(*self)
                &&& exists|j: int|
                    #![trigger dup_at(model_ids(self.models@), j)]
                    dup_at(model_ids(self.models@), j) && model_ids(self.models@)[j] == id@
                        && forall|j2: int| 0 <= j2 < j ==> !dup_at(model_ids(self.models@), j2)
            },
            (!no_models(*self) && has_dup(*self)) ==> r matches Err(ConfigError::DuplicateModelId(_)),
            (r matches Err(ConfigError::UnknownDefault(id))) <==> (!no_models(*self) && !has_dup(
                *self,
            ) && bad_default(*self)),
            r matches Err(ConfigError::UnknownDefault(id)) ==> id@ == self.routing.default@,
            r matches Err(ConfigError::UnknownRoutingTarget { tier, id }) ==> {
                &&& !no_models(*self) && !has_dup(*self) && !bad_default(*self)
                &&& exists|k: int, x: int|
                    #![trigger bad_target_at(*self, k, x)]
                    bad_target_at(*self, k, x) && tier@ == self.routing.tiers@[k].0@ && id@
                        == tier_list(self.routing.tiers@[k].1)[x] && forall|k2: int, x2: int|
                        lex_before(k2, x2, k, x) ==> !bad_target_at(*self, k2, x2)
            },
            (!no_models(*self) && !has_dup(*self) && !bad_default(*self) && has_bad_target(*self))
                ==> r matches Err(ConfigError::UnknownRoutingTarget { .. }),
            r matches Err(ConfigError::DuplicateTier(name)) ==> {
                &&& !no_models(*self) && !has_dup(*self) && !bad_default(*self) && !has_bad_target(*self)
                &&& exists|j: int|
                    #![trigger dup_at(tier_names(*self), j)]
                    dup_at(tier_names(*self), j) && tier_names(*self)[j] == name@
            },
            (!no_models(*self) && !has_dup(*self) && !bad_default(*self) && !has_bad_target(*self)
                && has_dup_tier(*self)) ==> r matches Err(ConfigError::DuplicateTier(_)),
    {
        if self.models.len() == 0 && !self.cmf.has_local() {
            return Err(ConfigError::NoModels);
        }
        match self.first_duplicate() {
            Some(j) => {
                return Err(ConfigError::DuplicateModelId(self.models[j].id.clone()));
            },
            None => {},
        }
        if !self.routing.default.as_str().is_empty() && !self.is_known_id(&self.routing.default) {
            return Err(ConfigError::UnknownDefault(self.routing.default.clone()));
        }
        let mut k: usize = 0;
        while k < self.routing.tiers.len()
            invariant
                k <= self.routing.tiers.len(),
                !no_models(*self) && !has_dup(*self) && !bad_default(*self),
                forall|k2: int, x2: int| 0 <= k2 < k ==> !bad_target_at(*self, k2, x2),
            decreases self.routing.tiers.len() - k,
        {
            let targets = tier_targets(&self.routing.tiers[k].1);
            let mut x: usize = 0;
            while x < targets.len()
                invariant
                    k < self.routing.tiers.len(),
                    !no_models(*self) && !has_dup(*self) && !bad_default(*self),
                    x <= targets.len(),
                    targets@.map_values(|s: String| s@) == tier_list(self.routing.tiers@[k as int].1),
                    forall|k2: int, x2: int| 0 <= k2 < k ==> !bad_target_at(*self, k2, x2),
                    forall|x2: int| 0 <= x2 < x ==> !bad_target_at(*self, k as int, x2),
                decreases targets.len() - x,
            {
                if !self.is_known_id(&targets[x]) {
                    assert(bad_target_at(*self, k as int, x as int));
                    return Err(
                        ConfigError::UnknownRoutingTarget {
                            tier: self.routing.tiers[k].0.clone(),
                            id: targets[x].clone(),
                        },
                    );
                }
                x += 1;
            }
            k += 1;
        }
        assert(!has_bad_target(*self));
        match self.first_duplicate_tier() {
            Some(j) => {
                return Err(ConfigError::DuplicateTier(self.routing.tiers[j].0.clone()));
            },
            None => {},
        }
        Ok(())
    }
}

} // verus!
