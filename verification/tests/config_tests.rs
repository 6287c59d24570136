use cortiq_gateway::admin::{
    check_new_model, cmf_file_for_model, cmf_path_referenced, heal_routing_after_cmf_change, model_slot, remove_model,
    secret_names, strip_id_from_routing,
};
use cortiq_gateway::config::{
    AdminCfg, BreakerCfg, CacheCfg, CmfCfg, CmfServer, Config, ConfigError, CortiqCfg,
    IdempotencyCfg, LogCfg, ModelCfg, ProtocolsCfg, RouteCfg, RouterCfg, RoutingCfg,
    RoutingPolicy, ShadowCfg, StatsCfg, TelemetryCfg, TierTargets,
};
use cortiq_gateway::pipeline::{embedding_target, first_embedding_model};
use cortiq_gateway::registry::Registry;
use cortiq_gateway::routing::RoutingTable;

fn model(id: &str, base_url: &str, model: &str, key: Option<&str>, caps: &[&str]) -> ModelCfg {
    ModelCfg {
        id: id.to_string(),
        provider: "openai".to_string(),
        base_url: base_url.to_string(),
        model: model.to_string(),
        cost_tier: "cheap".to_string(),
        kind: "chat".to_string(),
        api_key_env: key.map(|k| k.to_string()),
        caps: caps.iter().map(|c| c.to_string()).collect(),
    }
}

/// The sample configuration of the original tests, built by hand.
fn sample() -> Config {
    Config {
        listen: "0.0.0.0:9000".to_string(),
        router: RouterCfg {
            enabled: true,
            url: "http://localhost:8080".to_string(),
            timeout_ms: 300,
            verify_tls: true,
            api_key_env: Some("CORTIQ_ROUTER_KEY".to_string()),
            taxonomy_id: None,
        },
        route: RouteCfg::default(),
        models: vec![
            model("local-qwen", "http://localhost:8000/v1", "qwen2.5-7b-instruct", None, &["tools"]),
            model("gpt-4o-mini", "https://api.openai.com/v1", "gpt-4o-mini", Some("OPENAI_API_KEY"), &[]),
        ],
        routing: RoutingCfg {
            tiers: vec![
                ("low".to_string(), TierTargets::List(vec!["local-qwen".to_string()])),
                (
                    "medium".to_string(),
                    TierTargets::List(vec!["gpt-4o-mini".to_string(), "local-qwen".to_string()]),
                ),
            ],
            default: "gpt-4o-mini".to_string(),
            policy: RoutingPolicy {
                mode: "cost_aware".to_string(),
                min_class: vec![
                    ("low".to_string(), "cheap".to_string()),
                    ("medium".to_string(), "mid".to_string()),
                ],
            },
        },
        breaker: BreakerCfg::default(),
        protocols: ProtocolsCfg::default(),
        cortiq: CortiqCfg::default(),
        api_keys: vec![],
        idempotency: IdempotencyCfg::default(),
        log: LogCfg::default(),
        telemetry: TelemetryCfg::default(),
        admin: AdminCfg::default(),
        stats: StatsCfg::defaults("data"),
        cache: CacheCfg::default(),
        shadow: ShadowCfg::defaults("data"),
        cmf: CmfCfg::defaults("data"),
    }
}

#[test]
fn validate_rejects_unknown_routing_target() {
    let mut cfg = sample();
    cfg.routing.default = "does-not-exist".into();
    assert!(cfg.validate().is_err());
}

#[test]
fn sample_is_valid() {
    assert!(sample().validate().is_ok());
}

#[test]
fn validate_reports_first_violation() {
    let mut cfg = sample();
    cfg.models.clear();
    assert!(matches!(cfg.validate(), Err(ConfigError::NoModels)));

    let mut cfg = sample();
    cfg.models.push(model("local-qwen", "x", "y", None, &[]));
    match cfg.validate() {
        Err(ConfigError::DuplicateModelId(id)) => assert_eq!(id, "local-qwen"),
        _ => panic!("expected a duplicate id"),
    }

    let mut cfg = sample();
    cfg.routing.tiers.push(("high".to_string(), TierTargets::One("ghost".to_string())));
    match cfg.validate() {
        Err(e @ ConfigError::UnknownRoutingTarget { .. }) => assert_eq!(
            e.message(),
            "config: routing.high references unknown model id 'ghost'"
        ),
        _ => panic!("expected an unknown target"),
    }
}

#[test]
fn routing_table_follows_tiers() {
    let cfg = sample();
    let t = RoutingTable::from_config(&cfg);
    assert_eq!(t.candidates("medium"), vec!["gpt-4o-mini".to_string(), "local-qwen".to_string()]);
    assert_eq!(t.candidates("unknown"), vec!["gpt-4o-mini".to_string()]);
    assert_eq!(t.default_model(), "gpt-4o-mini");
}

#[test]
fn registry_builds_every_model() {
    let cfg = sample();
    let r = Registry::from_config(&cfg).ok().unwrap();
    assert!(r.contains("local-qwen"));
    assert!(r.get("local-qwen").unwrap().caps.tools);
    assert!(!r.get("gpt-4o-mini").unwrap().caps.tools);
    assert!(!r.contains("nope"));
}

#[test]
fn strip_removes_id_everywhere() {
    let mut cfg = sample();
    cfg.routing.tiers.push(("one".to_string(), TierTargets::One("local-qwen".to_string())));
    strip_id_from_routing(&mut cfg.routing, "local-qwen");
    for (_, t) in &cfg.routing.tiers {
        match t {
            TierTargets::List(v) => assert!(!v.iter().any(|x| x == "local-qwen")),
            TierTargets::One(s) => assert_ne!(s, "local-qwen"),
        }
    }
    assert_eq!(cfg.routing.default, "gpt-4o-mini");
    strip_id_from_routing(&mut cfg.routing, "gpt-4o-mini");
    assert_eq!(cfg.routing.default, "");
}

#[test]
fn model_edits() {
    let cfg = sample();
    assert!(check_new_model(&cfg, "new").is_ok());
    let e = check_new_model(&cfg, "local-qwen").err().unwrap();
    assert_eq!(e.status, 400);
    assert_eq!(e.message, "model id 'local-qwen' already exists");
    assert_eq!(model_slot(&cfg, "gpt-4o-mini", "renamed").ok(), Some(1));
    let e = model_slot(&cfg, "zzz", "x").err().unwrap();
    assert_eq!((e.status, e.message.as_str()), (404, "model 'zzz' not found"));
    let e = model_slot(&cfg, "gpt-4o-mini", "local-qwen").err().unwrap();
    assert_eq!(e.status, 400);
}

#[test]
fn deleting_a_pool_model_cleans_routing() {
    let mut cfg = sample();
    let r = remove_model(&mut cfg, "local-qwen").ok().unwrap();
    assert!(!r.managed);
    assert!(r.file.is_none());
    assert_eq!(cfg.models.len(), 1);
    assert!(cfg.validate().is_ok());
    let mut cfg = sample();
    let e = remove_model(&mut cfg, "nope").err().unwrap();
    assert_eq!(e.status, 404);
}

#[test]
fn deleting_the_managed_model() {
    let mut cfg = sample();
    cfg.cmf.manage_server = true;
    cfg.cmf.local_model = "data/models/x.cmf".to_string();
    cfg.routing.default = "cmf-local".to_string();
    let r = remove_model(&mut cfg, "cmf-local").ok().unwrap();
    assert!(r.managed);
    assert_eq!(r.file.as_deref(), Some("data/models/x.cmf"));
    assert!(!cfg.cmf.manage_server);
    assert_eq!(cfg.routing.default, "");
}

#[test]
fn local_cmf_file_of_model() {
    let cmf = CmfCfg::defaults("data");
    let m = model("m", "http://127.0.0.1:8081/v1", " stem ", None, &[]);
    assert_eq!(cmf_file_for_model(&cmf, &m).as_deref(), Some("data/models/stem.cmf"));
    let cloud = model("c", "https://api.openai.com/v1", "gpt", None, &[]);
    assert_eq!(cmf_file_for_model(&cmf, &cloud), None);
    let unsafe_stem = model("u", "http://127.0.0.1:8081/v1", "../x", None, &[]);
    assert_eq!(cmf_file_for_model(&cmf, &unsafe_stem), None);
}

#[test]
fn secrets_listed_once() {
    let mut cfg = sample();
    cfg.models.push(model("z", "u", "m", Some("OPENAI_API_KEY"), &[]));
    assert_eq!(secret_names(&cfg), vec!["OPENAI_API_KEY".to_string(), "CORTIQ_ROUTER_KEY".to_string()]);
}

#[test]
fn healing_renames_replaced_server() {
    let mut cfg = sample();
    cfg.cmf.manage_server = true;
    cfg.cmf.local_model = "data/models/new.cmf".to_string();
    cfg.cmf.model_id = "cmf-new".to_string();
    cfg.routing.default = "cmf-old".to_string();
    cfg.routing.tiers.push((
        "local".to_string(),
        TierTargets::List(vec!["cmf-old".to_string(), "gone".to_string(), "local-qwen".to_string()]),
    ));
    let old = vec![CmfServer { id: "cmf-old".to_string(), model: "old.cmf".to_string(), port: 8081 }];
    heal_routing_after_cmf_change(&mut cfg, &old);
    assert_eq!(cfg.routing.default, "cmf-new");
    match &cfg.routing.tiers[2].1 {
        TierTargets::List(v) => assert_eq!(v, &vec!["cmf-new".to_string(), "local-qwen".to_string()]),
        TierTargets::One(_) => panic!("tiers become lists"),
    }
    assert!(cfg.validate().is_ok());
}

#[test]
fn embedding_model_defaults_to_first_embedding_entry() {
    let mut cfg = sample();
    assert_eq!(first_embedding_model(&cfg), None);
    let reg = Registry::from_config(&cfg).ok().unwrap();
    match embedding_target(&cfg, &reg, "") {
        Err(cortiq_gateway::error::GatewayError::InvalidRequest(m)) => {
            assert_eq!(m, "no embedding model configured")
        }
        _ => panic!("expected an invalid request"),
    }
    let mut e1 = model("emb-a", "http://localhost:8000/v1", "bge", None, &[]);
    e1.kind = "embedding".to_string();
    let mut e2 = model("emb-b", "http://localhost:8000/v1", "e5", None, &[]);
    e2.kind = "embedding".to_string();
    cfg.models.push(e1);
    cfg.models.push(e2);
    assert_eq!(first_embedding_model(&cfg), Some("emb-a".to_string()));
    let reg = Registry::from_config(&cfg).ok().unwrap();
    // a registered id is used as asked, cortiq-auto and unknown ids fall back
    assert_eq!(embedding_target(&cfg, &reg, "emb-b").ok(), Some("emb-b".to_string()));
    assert_eq!(embedding_target(&cfg, &reg, "cortiq-auto").ok(), Some("emb-a".to_string()));
    assert_eq!(embedding_target(&cfg, &reg, "nope").ok(), Some("emb-a".to_string()));
    assert_eq!(embedding_target(&cfg, &reg, "").ok(), Some("emb-a".to_string()));
}

#[test]
fn cmf_paths_compare_as_paths() {
    let mut cfg = sample();
    cfg.cmf.manage_server = true;
    cfg.cmf.local_model = "/srv/models/x.cmf".to_string();
    assert!(cmf_path_referenced(&cfg, "/srv/models/x.cmf"));
    assert!(cmf_path_referenced(&cfg, "/srv//models/x.cmf"));
    assert!(cmf_path_referenced(&cfg, "/srv/models/./x.cmf"));
    assert!(!cmf_path_referenced(&cfg, "/srv/models/y.cmf"));
    // a pool model served by the local server shares its file by stem
    cfg.models.push(model("m", "http://127.0.0.1:8081/v1", "stem", None, &[]));
    assert!(cmf_path_referenced(&cfg, "data/models/stem.cmf"));
    assert!(cmf_path_referenced(&cfg, "data/models//stem.cmf"));
}

#[test]
fn models_listing_starts_with_the_virtual_model() {
    let cfg = sample();
    assert_eq!(
        cortiq_gateway::adapters::model_listing(&cfg),
        vec![
            ("cortiq-auto".to_string(), "cortiq".to_string()),
            ("local-qwen".to_string(), "openai".to_string()),
            ("gpt-4o-mini".to_string(), "openai".to_string()),
        ]
    );
}

#[test]
fn native_route_answers() {
    let t = RoutingTable::from_config(&sample());
    let routed = cortiq_gateway::adapters::native_route(&t, Some("medium"));
    assert_eq!(routed.source, "router");
    assert_eq!(routed.candidates, vec!["gpt-4o-mini".to_string(), "local-qwen".to_string()]);
    assert_eq!(routed.selected, "gpt-4o-mini");
    let fallback = cortiq_gateway::adapters::native_route(&t, None);
    assert_eq!(fallback.source, "fallback");
    assert_eq!(fallback.candidates, vec!["gpt-4o-mini".to_string()]);
    assert_eq!(fallback.selected, "gpt-4o-mini");
}

#[test]
fn disabled_adapters_are_refused() {
    let mut p = ProtocolsCfg::default();
    match cortiq_gateway::adapters::gate(&p, cortiq_gateway::adapters::Adapter::Mcp) {
        Err(e) => assert_eq!(e.message(), "mcp protocol is disabled"),
        Ok(_) => panic!("adapters are off by default"),
    }
    p.openai_chat = true;
    assert!(cortiq_gateway::adapters::gate(&p, cortiq_gateway::adapters::Adapter::OpenAiChat).is_ok());
    match cortiq_gateway::adapters::gate(&p, cortiq_gateway::adapters::Adapter::OpenAiCompletions) {
        Err(e) => {
            assert_eq!(e.message(), "openai_completions protocol is disabled");
            assert_eq!(e.parts().0, 400);
        }
        Ok(_) => panic!("switched off"),
    }
}

#[test]
fn probe_targets() {
    let mut cfg = sample();
    assert_eq!(cortiq_gateway::admin::probe_supported(&cfg, "local-qwen").ok(), Some(true));
    cfg.models[1].provider = "anthropic".to_string();
    assert_eq!(cortiq_gateway::admin::probe_supported(&cfg, "gpt-4o-mini").ok(), Some(false));
    match cortiq_gateway::admin::probe_supported(&cfg, "cmf-local") {
        Err(e) => {
            assert_eq!(e.status, 404);
            assert_eq!(e.message, "model 'cmf-local' not found");
        }
        Ok(_) => panic!("no managed model is configured"),
    }
    cfg.cmf.manage_server = true;
    cfg.cmf.local_model = "/models/q.cmf".to_string();
    assert_eq!(cortiq_gateway::admin::probe_supported(&cfg, "cmf-local").ok(), Some(true));
}

#[test]
fn duplicate_tier_names_are_refused() {
    let mut cfg = sample();
    cfg.routing.tiers.push(("low".to_string(), TierTargets::One("gpt-4o-mini".to_string())));
    match cfg.validate() {
        Err(e @ ConfigError::DuplicateTier(_)) => {
            assert_eq!(e.message(), "config: duplicate routing tier 'low'")
        }
        _ => panic!("expected a duplicate tier"),
    }
}
