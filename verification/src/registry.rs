//! Model pool registry: decides which provider adapter serves each model id
//! (`[[models]]` entries plus the managed local CMF servers) and resolves
//! `model_id → provider description`.

use vstd::prelude::*;
use crate::config::{server_views, servers_of, CmfServer, Config, ModelCfg};
use crate::providers::Caps;
use crate::text::{append_str, dec, owned, push_dec, str_eq, views};

verus! {

/// Which adapter talks to a model.
#[derive(PartialEq, Eq, Structural, Clone, Copy)]
pub enum ProviderKind {
    /// OpenAI-compatible (openai, ollama, http, openrouter, lmstudio).
    OpenAiCompatible,
    /// Anthropic Messages API.
    Anthropic,
}

/// Everything needed to build the provider for one model id.
pub struct ProviderSpec {
    pub id: String,
    pub kind: ProviderKind,
    pub base_url: String,
    pub model: String,
    pub api_key_env: Option<String>,
    pub caps: Caps,
    /// Registered from `[cmf]` (a managed local server) rather than `[[models]]`.
    pub managed: bool,
}

pub struct ProviderView {
    pub id: Seq<char>,
    pub kind: ProviderKind,
    pub base_url: Seq<char>,
    pub model: Seq<char>,
    pub api_key_env: Option<Seq<char>>,
    pub tools: bool,
    pub vision: bool,
    pub managed: bool,
}

/// Registered providers, one per model id.
pub struct Registry {
    entries: Vec<ProviderSpec>,
}

/// A `[[models]]` entry names a provider no adapter handles.
pub struct RegistryError {
    pub provider: String,
    pub model_id: String,
}

pub open spec fn view_of(p: ProviderSpec) -> ProviderView {
    ProviderView {
        id: p.id@,
        kind: p.kind,
        base_url: p.base_url@,
        model: p.model@,
        api_key_env: match p.api_key_env {
            Some(s) => Some(s@),
            None => None,
        },
        tools: p.caps.tools,
        vision: p.caps.vision,
        managed: p.managed,
    }
}

impl View for Registry {
    type V = Seq<ProviderView>;

    closed spec fn view(&self) -> Seq<ProviderView> {
        self.entries@.map_values(|p: ProviderSpec| view_of(p))
    }
}

/// The adapter a provider name selects, if any.
pub open spec fn kind_of(provider: Seq<char>) -> Option<ProviderKind> {
    if provider == "openai"@ || provider == "ollama"@ || provider == "http"@ || provider
        == "openrouter"@ || provider == "lmstudio"@ {
        Some(ProviderKind::OpenAiCompatible)
    } else if provider == "anthropic"@ {
        Some(ProviderKind::Anthropic)
    } else {
        None
    }
}

/// Provider description of a pool model whose provider name is supported.
pub open spec fn model_view(m: ModelCfg) -> ProviderView {
    ProviderView {
        id: m.id@,
        kind: kind_of(m.provider@).unwrap(),
        base_url: m.base_url@,
        model: m.model@,
        api_key_env: match m.api_key_env {
            Some(s) => Some(s@),
            None => None,
        },
        tools: views(m.caps@).contains("tools"@),
        vision: views(m.caps@).contains("vision"@),
        managed: false,
    }
}

/// Provider description of a managed local server on `host`.
pub open spec fn managed_view(s: (Seq<char>, Seq<char>, u16), host: Seq<char>) -> ProviderView {
    ProviderView {
        id: s.0,
        kind: ProviderKind::OpenAiCompatible,
        base_url: "http://"@ + host + ":"@ + dec(s.2 as nat) + "/v1"@,
        model: "cortiq"@,
        api_key_env: None,
        tools: false,
        vision: false,
        managed: true,
    }
}

pub open spec fn has_id(es: Seq<ProviderView>, id: Seq<char>) -> bool {
    exists|i: int| 0 <= i < es.len() && es[i].id == id
}

/// Registering `e`: replaces the entry with the same id, or appends.
pub open spec fn reg_insert(es: Seq<ProviderView>, e: ProviderView) -> Seq<ProviderView> {
    if has_id(es, e.id) {
        es.update(choose|i: int| 0 <= i < es.len() && es[i].id == e.id, e)
    } else {
        es.push(e)
    }
}

/// Registry after registering the pool models in order.
pub open spec fn reg_models(ms: Seq<ModelCfg>) -> Seq<ProviderView>
    decreases ms.len(),
{
    if ms.len() == 0 {
        Seq::empty()
    } else {
        reg_insert(reg_models(ms.drop_last()), model_view(ms.last()))
    }
}

/// Registry after adding managed servers whose id is not registered yet.
pub open spec fn reg_servers(
    es: Seq<ProviderView>,
    ss: Seq<(Seq<char>, Seq<char>, u16)>,
    host: Seq<char>,
) -> Seq<ProviderView>
    decreases ss.len(),
{
    if ss.len() == 0 {
        es
    } else {
        let prev = reg_servers(es, ss.drop_last(), host);
        if has_id(prev, ss.last().0) {
            prev
        } else {
            prev.push(managed_view(ss.last(), host))
        }
    }
}

pub open spec fn unknown_provider_at(ms: Seq<ModelCfg>, i: int) -> bool {
    0 <= i < ms.len() && kind_of(ms[i].provider@) is None
}

/// The registry a configuration describes (when every provider is supported).
pub open spec fn registry_of(cfg: Config) -> Seq<ProviderView> {
    reg_servers(reg_models(cfg.models@), servers_of(cfg.cmf), cfg.cmf.local_host@)
}

pub open spec fn unique_ids(es: Seq<ProviderView>) -> bool {
    forall|i: int, j: int| 0 <= i < j < es.len() ==> es[i].id != es[j].id
}

/// Index of the entry registered under `id`.
pub open spec fn lookup(es: Seq<ProviderView>, id: Seq<char>) -> Option<ProviderView> {
    if has_id(es, id) {
        Some(es[choose|i: int| 0 <= i < es.len() && es[i].id == id])
    } else {
        None
    }
}

pub fn provider_kind(provider: &str) -> (k: Option<ProviderKind>)
    ensures
        k == kind_of(provider@),
{
    if str_eq(provider, "openai") || str_eq(provider, "ollama") || str_eq(provider, "http")
        || str_eq(provider, "openrouter") || str_eq(provider, "lmstudio") {
        Some(ProviderKind::OpenAiCompatible)
    } else if str_eq(provider, "anthropic") {
        Some(ProviderKind::Anthropic)
    } else {
        None
    }
}

fn clone_opt(o: &Option<String>) -> (r: Option<String>)
    ensures
        match *o {
            Some(s) => r matches Some(t) && t@ == s@,
            None => r is None,
        },
{
    match o {
        Some(s) => Some(s.clone()),
        None => None,
    }
}

impl RegistryError {
    /// The message shown to the operator.
    pub fn message(&self) -> (m: String)
        ensures
            m@ == "unknown provider '"@ + self.provider@ + "' for model '"@ + self.model_id@
                + "'"@,
    {
        let mut m = owned("unknown provider '");
        append_str(&mut m, self.provider.as_str());
        append_str(&mut m, "' for model '");
        append_str(&mut m, self.model_id.as_str());
        append_str(&mut m, "'");
        m
    }
}

impl Registry {
    /// Position of the entry registered under `id`.
    fn position(&self, id: &str) -> (r: Option<usize>)
        ensures
            match r {
                Some(i) => i < self@.len() && self@[i as int].id == id@,
                None => !has_id(self@, id@),
            },
    {
        let mut i: usize = 0;
        while i < self.entries.len()
            invariant
                i <= self.entries.len(),
                forall|j: int| 0 <= j < i ==> self@[j].id != id@,
            decreases self.entries.len() - i,
        {
            if str_eq(self.entries[i].id.as_str(), id) {
                return Some(i);
            }
            i += 1;
        }
        None
    }

    fn insert(&mut self, e: ProviderSpec)
        requires
            unique_ids(old(self)@),
        ensures
            final(self)@ == reg_insert(old(self)@, view_of(e)),
            unique_ids(final(self)@),
    {
        match self.position(e.id.as_str()) {
            Some(i) => {
                proof {
                    let k = choose|k: int| 0 <= k < self@.len() && self@[k].id == e.id@;
                    assert(k == i);
                }
                self.entries.set(i, e);
                assert(self@ =~= reg_insert(old(self)@, view_of(e)));
            },
            None => {
                self.entries.push(e);
                assert(self@ =~= reg_insert(old(self)@, view_of(e)));
            },
        }
    }

    /// Builds the registry from `[[models]]`, then adds each managed local CMF
    /// server whose id is not already taken by a `[[models]]` entry. Fails on
    /// the first model whose provider no adapter handles.
    pub fn from_config(cfg: &Config) -> (r: Result<Self, RegistryError>)
        ensures
            match r {
                Ok(reg) => (forall|i: int| !unknown_provider_at(cfg.models@, i)) && reg@
                    == registry_of(*cfg) && unique_ids(reg@),
                Err(e) => exists|i: int|
                    #![trigger unknown_provider_at(cfg.models@, i)]
                    unknown_provider_at(cfg.models@, i) && (forall|j: int|
                        0 <= j < i ==> !unknown_provider_at(cfg.models@, j)) && e.provider@
                        == cfg.models@[i].provider@ && e.model_id@ == cfg.models@[i].id@,
            },
    {
        let mut reg = Registry { entries: Vec::new() };
        let mut i: usize = 0;
        while i < cfg.models.len()
            invariant
                i <= cfg.models.len(),
                unique_ids(reg@),
                reg@ == reg_models(cfg.models@.take(i as int)),
                forall|j: int| 0 <= j < i ==> !unknown_provider_at(cfg.models@, j),
            decreases cfg.models.len() - i,
        {
            let m = &cfg.models[i];
            match provider_kind(m.provider.as_str()) {
                None => {
                    assert(unknown_provider_at(cfg.models@, i as int));
                    return Err(RegistryError { provider: m.provider.clone(), model_id: m.id.clone() });
                },
                Some(kind) => {
                    let caps = Caps::from_list(&m.caps);
                    let e = ProviderSpec {
                        id: m.id.clone(),
                        kind,
                        base_url: m.base_url.clone(),
                        model: m.model.clone(),
                        api_key_env: clone_opt(&m.api_key_env),
                        caps,
                        managed: false,
                    };
                    assert(view_of(e) == model_view(cfg.models@[i as int]));
                    reg.insert(e);
                    assert(cfg.models@.take(i + 1).drop_last() =~= cfg.models@.take(i as int));
                },
            }
            i += 1;
        }
        assert(cfg.models@.take(cfg.models.len() as int) =~= cfg.models@);
        let servers = cfg.cmf.effective_servers();
        let ghost ss = server_views(servers@);
        let ghost base = reg@;
        let mut k: usize = 0;
        while k < servers.len()
            invariant
                k <= servers.len(),
                ss == server_views(servers@),
                unique_ids(reg@),
                reg@ == reg_servers(base, ss.take(k as int), cfg.cmf.local_host@),
            decreases servers.len() - k,
        {
            let s = &servers[k];
            assert(ss.take(k + 1).drop_last() =~= ss.take(k as int));
            assert(ss.take(k + 1).last() == ss[k as int]);
            if self_missing(&reg, s) {
                let mut url = owned("http://");
                append_str(&mut url, cfg.cmf.local_host.as_str());
                append_str(&mut url, ":");
                push_dec(&mut url, s.port as u64);
                append_str(&mut url, "/v1");
                let e = ProviderSpec {
                    id: s.id.clone(),
                    kind: ProviderKind::OpenAiCompatible,
                    base_url: url,
                    model: owned("cortiq"),
                    api_key_env: None,
                    caps: Caps { tools: false, vision: false, streaming: true },
                    managed: true,
                };
                let ghost before = reg@;
                reg.entries.push(e);
                assert(reg@ =~= before.push(view_of(e)));
                assert(view_of(e) == managed_view(ss[k as int], cfg.cmf.local_host@));
            }
            k += 1;
        }
        assert(ss.take(servers.len() as int) =~= ss);
        Ok(reg)
    }

    /// The provider registered under `id`.
    pub fn get(&self, id: &str) -> (r: Option<&ProviderSpec>)
        requires
            unique_ids(self@),
        ensures
            match r {
                Some(p) => lookup(self@, id@) == Some(view_of(*p)),
                None => lookup(self@, id@) is None,
            },
    {
        match self.position(id) {
            Some(i) => {
                proof {
                    let k = choose|k: int| 0 <= k < self@.len() && self@[k].id == id@;
                    assert(k == i);
                }
                Some(&self.entries[i])
            },
            None => None,
        }
    }

    /// Whether `id` is registered.
    pub fn contains(&self, id: &str) -> (b: bool)
        ensures
            b == has_id(self@, id@),
    {
        self.position(id).is_some()
    }

    /// Some registered model id (the first one), used as a last-resort fallback target.
    pub fn any_id(&self) -> (r: Option<String>)
        ensures
            self@.len() == 0 ==> r is None,
            self@.len() > 0 ==> (r matches Some(s) && s@ == self@[0].id),
    {
        if self.entries.len() == 0 {
            None
        } else {
            Some(self.entries[0].id.clone())
        }
    }

    /// All registered model ids.
    pub fn ids(&self) -> (r: Vec<String>)
        ensures
            views(r@) == self@.map_values(|p: ProviderView| p.id),
    {
        let mut r: Vec<String> = Vec::new();
        let mut i: usize = 0;
        while i < self.entries.len()
            invariant
                i <= self.entries.len(),
                views(r@) =~= self@.take(i as int).map_values(|p: ProviderView| p.id),
            decreases self.entries.len() - i,
        {
            let ghost before = r@;
            r.push(self.entries[i].id.clone());
            assert(views(r@) =~= views(before).push(self.entries@[i as int].id@));
            assert(self@[i as int].id == self.entries@[i as int].id@);
            assert(self@.take(i + 1) =~= self@.take(i as int).push(self@[i as int]));
            assert(self@.take(i + 1).map_values(|p: ProviderView| p.id) =~= self@.take(
                i as int,
            ).map_values(|p: ProviderView| p.id).push(self@[i as int].id));
            i += 1;
        }
        assert(self@.take(self.entries.len() as int) =~= self@);
        r
    }

    /// The registered providers, in registration order.
    pub fn entries(&self) -> (r: &Vec<ProviderSpec>)
        ensures
            r@.map_values(|p: ProviderSpec| view_of(p)) == self@,
    {
        &self.entries
    }
}

fn self_missing(reg: &Registry, s: &CmfServer) -> (b: bool)
    ensures
        b == !has_id(reg@, s.id@),
{
    !reg.contains(s.id.as_str())
}

} // verus!
