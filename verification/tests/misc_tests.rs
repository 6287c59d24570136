use cortiq_gateway::admin::{
    authorized, bearer_token, choose_key, constant_time_eq, fallback_bytes, file_stem, hex_of,
    import_model, mask_key, port_candidates, port_verdict, probe_error, provider_err, random_token,
    recent_page, search_limit, stats_range,
};
use cortiq_gateway::cmf::{
    base_url, health_url, parse_ver, version_lt, version_token, CmfStatus,
};
use cortiq_gateway::config::{
    AdminCfg, BreakerCfg, CacheCfg, CmfCfg, CmfServer, Config, CortiqCfg, IdempotencyCfg, LogCfg,
    ProtocolsCfg, RouteCfg, RouterCfg, RoutingCfg, RoutingPolicy, ShadowCfg, StatsCfg, TelemetryCfg,
};
use cortiq_gateway::jobs::{Job, JobStore};
use cortiq_gateway::model::RoutingDirective;
use cortiq_gateway::providers::{anthropic_usage, joined_text, reply_choices, reply_usage, ChoiceFields};
use cortiq_gateway::router_client::{
    base_url as router_base, classify_status, decision_from_reply, route_url, transport_status,
};
use cortiq_gateway::secrets::SecretStore;
use cortiq_gateway::sse::SseBuffer;
use cortiq_gateway::translate::{ToAnthropic, ToCompletions, ToOpenAi};

#[test]
fn status_kinds() {
    assert_eq!(classify_status(1), "unreachable");
    assert_eq!(classify_status(2), "timeout");
    assert_eq!(classify_status(401), "auth");
    assert_eq!(classify_status(403), "auth");
    assert_eq!(classify_status(402), "payment");
    assert_eq!(classify_status(429), "quota");
    assert_eq!(classify_status(500), "error");
    assert_eq!(transport_status(true), 2);
    assert_eq!(router_base("http://r:8080//"), "http://r:8080");
    assert_eq!(route_url("http://r"), "http://r/v1/route");
    let d = decision_from_reply(None, Some("high".to_string()), None);
    assert_eq!(d.task_label, "__unknown__");
    assert_eq!(d.complexity_tier, "high");
    assert_eq!(d.source, "router");
}

#[test]
fn secrets_resolve_store_first() {
    let mut s = SecretStore::new("config/secrets.toml");
    assert_eq!(s.source("K", None), "missing");
    assert_eq!(s.source("K", Some("")), "missing");
    assert_eq!(s.resolve("K", Some("env")), Some("env".to_string()));
    assert_eq!(s.source("K", Some("env")), "env");
    s.set("K", "stored");
    assert_eq!(s.resolve("K", Some("env")), Some("stored".to_string()));
    assert_eq!(s.source("K", Some("env")), "store");
    s.set("K", "");
    assert_eq!(s.resolve("K", Some("env")), Some("env".to_string()));
    s.set("K", "again");
    s.clear("K");
    assert_eq!(s.resolve("K", None), None);
    assert_eq!(s.path(), "config/secrets.toml");
    assert!(s.entries().is_empty());
}

#[test]
fn versions_compare_numerically() {
    assert_eq!(parse_ver("0.2.10"), (0, 2, 10));
    assert_eq!(parse_ver(" 1 . x"), (1, 0, 0));
    assert!(version_lt("0.1.9", "0.2.0"));
    assert!(!version_lt("0.2.0", "0.2.0"));
    assert!(version_lt("0.2.9", "0.2.10"));
    assert_eq!(version_token("cortiq 0.1.2\n"), Some("0.1.2".to_string()));
    assert_eq!(version_token("   "), None);
}

#[test]
fn cmf_status_bookkeeping() {
    let mut st = CmfStatus::new();
    let servers = vec![CmfServer { id: "a".to_string(), model: "a.cmf".to_string(), port: 8081 }];
    st.init_servers(&servers, "127.0.0.1");
    assert!(st.enabled);
    assert_eq!(st.servers[0].base_url, "http://127.0.0.1:8081/v1");
    st.set_running("a", true);
    assert!(st.is_running("a"));
    st.fail_server("a", "boom");
    assert_eq!(st.servers[0].last_error.as_deref(), Some("boom"));
    assert_eq!(st.log.last().map(|s| s.as_str()), Some("✗ [a] boom"));
    st.mark_all_stopped();
    assert!(!st.is_running("a"));
    for i in 0..100 {
        st.log(format!("line {i}"));
    }
    assert_eq!(st.log.len(), 80);
    assert_eq!(st.log[79], "line 99");
    st.forget("a");
    assert!(st.servers.is_empty());
    assert_eq!(health_url("h", 1), "http://h:1/healthz");
    assert_eq!(base_url("h", 2), "http://h:2/v1");
}

fn job(id: &str, started: u64, state: &str) -> Job<u8> {
    Job {
        id: id.to_string(),
        repo: "r".to_string(),
        quant: "Q8_2F".to_string(),
        output: format!("/m/{id}.cmf"),
        state: state.to_string(),
        log: vec![],
        started,
        finished: None,
        size_bytes: None,
        progress: Some(0),
        phase: None,
    }
}

#[test]
fn job_table_lifecycle() {
    let mut store: JobStore<u8> = JobStore::new();
    store.insert(job("a", 10, "running"));
    assert!(store.cancellable("a"));
    for i in 0..205 {
        store.push_line("a", format!("l{i}"));
    }
    let a = store.get("a").unwrap();
    assert_eq!(a.log.len(), 200);
    assert_eq!(a.log[0], "l5");
    store.set_progress("a", 50, "convert".to_string());
    store.set_progress("a", 60, String::new());
    let a = store.get("a").unwrap();
    assert_eq!(a.progress, Some(60));
    assert_eq!(a.phase.as_deref(), Some("convert"));
    assert_eq!(store.delete("a").err().unwrap(), "cancel the running job before deleting");
    store.finish("a", true, 99, Some(0), 100);
    assert_eq!(store.get("a").unwrap().state, "error");
    store.insert(job("b", 20, "running"));
    store.finish("b", true, 99, Some(5), 100);
    let b = store.get("b").unwrap();
    assert_eq!(b.state, "done");
    assert_eq!(b.progress, Some(100));
    store.insert(job("c", 30, "running"));
    store.set_state("c", "cancelled", 40);
    store.finish("c", true, 99, Some(5), 100);
    assert_eq!(store.get("c").unwrap().state, "cancelled");
    let ids: Vec<String> = store.list().into_iter().map(|j| j.id).collect();
    assert_eq!(ids, vec!["c", "b", "a"]);
    assert!(store.delete("a").ok().unwrap().is_some());
    assert!(store.delete("a").ok().unwrap().is_none());
    assert!(store.get("a").is_none());
}

#[test]
fn job_list_keeps_twenty_newest() {
    let mut store: JobStore<u8> = JobStore::new();
    for i in 0..25u64 {
        store.insert(job(&format!("j{i}"), i, "done"));
    }
    let l = store.list();
    assert_eq!(l.len(), 20);
    assert_eq!(l[0].id, "j24");
    assert_eq!(l[19].id, "j5");
}

#[test]
fn admin_auth_and_masks() {
    assert!(constant_time_eq(b"abc", b"abc"));
    assert!(!constant_time_eq(b"abc", b"abd"));
    assert!(!constant_time_eq(b"abc", b"ab"));
    assert_eq!(bearer_token(Some("Bearer  tok ")), "tok");
    assert_eq!(bearer_token(Some("bearer x")), "x");
    assert_eq!(bearer_token(Some("raw")), "raw");
    assert_eq!(bearer_token(None), "");
    assert!(authorized("secret", "secret"));
    assert!(!authorized("", ""));
    assert!(!authorized("secret", "nope"));
    assert_eq!(mask_key("ab"), "•••");
    assert_eq!(mask_key("abcdefgh"), "••••••••");
    assert_eq!(mask_key("sk-gw-1234567890"), "sk-gw-…7890");
}

#[test]
fn tokens_and_hex() {
    assert_eq!(hex_of(&vec![0, 15, 255]), "000fff");
    let t = random_token(18);
    assert_eq!(t.len(), 36);
    assert!(t.chars().all(|c| c.is_ascii_hexdigit() && !c.is_ascii_uppercase()));
    let b = fallback_bytes(0x0102, 3);
    assert_eq!(b, vec![0x02, 0x01 ^ 31, 62]);
    assert_eq!(choose_key("  ", "abc"), "sk-gw-abc");
    assert_eq!(choose_key(" mine ", "abc"), "mine");
}

#[test]
fn provider_errors_and_hints() {
    assert_eq!(provider_err("{\"error\":{\"message\":\"bad key\"}}", 401), "401: bad key");
    assert_eq!(provider_err("{\"error\":\"nope\"}", 400), "400: nope");
    assert_eq!(provider_err("{\"message\":\"m\"}", 500), "500: m");
    assert_eq!(provider_err("not json", 502), "HTTP 502");
    assert_eq!(probe_error("ok"), "ok");
    assert!(probe_error("HTTP 401").ends_with("not a provisioning/management key)"));
}

#[test]
fn small_admin_rules() {
    assert_eq!(file_stem("/data/models/qwen.q4.cmf").as_deref(), Some("qwen.q4"));
    assert_eq!(file_stem("/data/.hidden").as_deref(), Some(".hidden"));
    assert_eq!(file_stem("a/.."), None);
    assert_eq!(recent_page(Some(900), None), (500, 0));
    assert_eq!(recent_page(None, Some(3)), (50, 3));
    assert_eq!(search_limit(None), 24);
    assert_eq!(search_limit(Some(99)), 50);
    assert_eq!(stats_range(Some("1h")), 3600);
    assert_eq!(stats_range(Some("bogus")), 86400);
    assert_eq!(stats_range(None), 86400);
    let p = port_candidates(65500);
    assert_eq!(p.len(), 35);
    assert_eq!(p[0], 65501);
    assert_eq!(*p.last().unwrap(), 65535);
    assert_eq!(port_candidates(8081).len(), 50);
    assert_eq!(port_verdict(false, true), (true, "free"));
    assert_eq!(port_verdict(true, true).1, "in use by this gateway's managed CMF server");
}

#[test]
fn registering_an_import() {
    let cfg_cmf = CmfCfg::defaults("data");
    let mut cfg = minimal_config(cfg_cmf);
    let m = import_model(&cfg, "done", "/data/models/bonsai.cmf").ok().unwrap();
    assert_eq!(m.id, "cmf-bonsai");
    assert_eq!(m.model, "bonsai");
    assert_eq!(m.base_url, "http://127.0.0.1:8081/v1");
    let e = import_model(&cfg, "running", "/x.cmf").err().unwrap();
    assert_eq!(e.message, "conversion not finished");
    cfg.models.push(m);
    let e = import_model(&cfg, "done", "/data/models/bonsai.cmf").err().unwrap();
    assert_eq!(e.message, "model 'cmf-bonsai' already registered");
}

fn minimal_config(cmf: CmfCfg) -> Config {
    Config {
        listen: "0.0.0.0:8080".to_string(),
        router: RouterCfg {
            enabled: false,
            url: String::new(),
            timeout_ms: 300,
            verify_tls: true,
            api_key_env: None,
            taxonomy_id: None,
        },
        route: RouteCfg::default(),
        models: vec![],
        routing: RoutingCfg { tiers: vec![], default: String::new(), policy: RoutingPolicy::default() },
        breaker: BreakerCfg::default(),
        protocols: ProtocolsCfg::default(),
        cortiq: CortiqCfg::default(),
        api_keys: vec![],
        idempotency: IdempotencyCfg::default(),
        log: LogCfg::default(),
        telemetry: TelemetryCfg::default(),
        admin: AdminCfg::default(),
        stats: StatsCfg::defaults("data"),
        cache: CacheCfg::default(),
        shadow: ShadowCfg::defaults("data"),
        cmf,
    }
}

#[test]
fn sse_payloads_across_chunks() {
    let mut b = SseBuffer::new();
    assert!(b.push_str("data: {\"a\":1}\n").is_empty());
    let out = b.push_str("\ndata: x\r\n\n: comment\n");
    assert_eq!(out, vec!["{\"a\":1}".to_string(), "x".to_string()]);
    assert!(b.push_bytes(&[0xff, 0xfe]).is_empty());
}

#[test]
fn openai_stream_as_anthropic_events() {
    let (mut t, start) = ToAnthropic::start();
    assert_eq!(start.len(), 2);
    assert!(start[0].starts_with("event: message_start\ndata: {"));
    let ev = t.feed(b"data: {\"choices\":[{\"delta\":{\"content\":\"Hi\"}}]}\n\ndata: {\"choices\":[],\"usage\":{\"completion_tokens\":7}}\n\ndata: [DONE]\n\n");
    assert_eq!(ev, vec![
        "event: content_block_delta\ndata: {\"delta\":{\"text\":\"Hi\",\"type\":\"text_delta\"},\"index\":0,\"type\":\"content_block_delta\"}\n\n".to_string()
    ]);
    let end = t.finish();
    assert_eq!(end.len(), 3);
    assert!(end[1].contains("\"output_tokens\":7}"));
    assert_eq!(end[2], "event: message_stop\ndata: {\"type\":\"message_stop\"}\n\n");
}

#[test]
fn anthropic_stream_as_openai_chunks() {
    let mut t = ToOpenAi::new();
    let ev = t.feed(b"event: message_start\ndata: {\"type\":\"message_start\",\"message\":{\"usage\":{\"input_tokens\":3}}}\n\nevent: content_block_delta\ndata: {\"type\":\"content_block_delta\",\"delta\":{\"text\":\"yo\"}}\n\n");
    assert_eq!(ev.len(), 2);
    assert_eq!(ev[0], "data: {\"choices\":[{\"delta\":{\"role\":\"assistant\"},\"finish_reason\":null,\"index\":0}]}\n\n");
    assert_eq!(ev[1], "data: {\"choices\":[{\"delta\":{\"content\":\"yo\"},\"finish_reason\":null,\"index\":0}]}\n\n");
    let ev = t.feed(b"data: {\"type\":\"message_delta\",\"delta\":{\"stop_reason\":\"end_turn\"},\"usage\":{\"output_tokens\":4}}\n\n");
    assert_eq!(ev[1], "data: {\"choices\":[],\"usage\":{\"completion_tokens\":4,\"prompt_tokens\":3,\"total_tokens\":7}}\n\n");
    assert_eq!(t.finish(), "data: [DONE]\n\n");
}

#[test]
fn chat_chunks_as_completions() {
    let mut t = ToCompletions::new();
    let ev = t.feed(b"data: {\"choices\":[{\"delta\":{\"content\":\"a\"}}],\"usage\":{\"total_tokens\":2}}\n\ndata: [DONE]\n\n");
    assert_eq!(ev, vec![
        "data: {\"choices\":[],\"object\":\"text_completion\",\"usage\":{\"total_tokens\":2}}\n\n".to_string(),
        "data: {\"choices\":[{\"finish_reason\":null,\"index\":0,\"text\":\"a\"}],\"object\":\"text_completion\"}\n\n".to_string(),
        "data: [DONE]\n\n".to_string(),
    ]);
}

#[test]
fn routing_directives() {
    match RoutingDirective::parse("cortiq-auto:quality-first") {
        RoutingDirective::Auto { profile } => assert_eq!(profile.as_deref(), Some("quality-first")),
        _ => panic!("auto expected"),
    }
    assert!(RoutingDirective::parse("gpt-4o").is_pinned());
    assert_eq!(RoutingDirective::parse("cortiq-auto").cache_sig(), "auto:");
}

#[test]
fn chat_reply_defaults() {
    let fields = vec![
        ChoiceFields { index: None, role: None, content: None, finish_reason: None },
        ChoiceFields {
            index: Some(7),
            role: Some("tool".to_string()),
            content: Some("hi".to_string()),
            finish_reason: Some("length".to_string()),
        },
        ChoiceFields { index: Some(0x1_0000_0002), role: None, content: None, finish_reason: None },
    ];
    let c = reply_choices(&fields);
    assert_eq!(c.len(), 3);
    assert_eq!((c[0].index, c[0].role.as_str(), c[0].content.as_str(), c[0].finish_reason.as_str()), (0, "assistant", "", "stop"));
    assert_eq!((c[1].index, c[1].role.as_str(), c[1].content.as_str(), c[1].finish_reason.as_str()), (7, "tool", "hi", "length"));
    // a reported index is narrowed as a cast narrows it
    assert_eq!(c[2].index, 2);
}

#[test]
fn reply_token_counts() {
    assert_eq!(reply_usage(Some(10), Some(5), None), (10, 5, 15));
    assert_eq!(reply_usage(Some(10), Some(5), Some(99)), (10, 5, 99));
    assert_eq!(reply_usage(None, None, None), (0, 0, 0));
    assert_eq!(reply_usage(Some(u32::MAX as u64), Some(2), None), (u32::MAX, 2, 1));
    assert_eq!(anthropic_usage(Some(3), None), (3, 0, 3));
    assert_eq!(anthropic_usage(Some(3), Some(4)), (3, 4, 7));
}

#[test]
fn anthropic_text_blocks_join() {
    let blocks = vec![Some("Hel".to_string()), None, Some("lo".to_string())];
    assert_eq!(joined_text(&blocks), "Hello");
    assert_eq!(joined_text(&vec![]), "");
}

#[test]
fn strings_sort_like_std() {
    let input: Vec<String> = ["beta", "Alpha", "alpha", "", "ä", "b", "alphabet", "zeta", "alpha"]
        .iter()
        .map(|s| s.to_string())
        .collect();
    let mut expected = input.clone();
    expected.sort();
    assert_eq!(cortiq_gateway::order::sorted_strings(input), expected);
    assert!(cortiq_gateway::order::str_le("abc", "abd"));
    assert!(cortiq_gateway::order::str_le("ab", "abc"));
    assert!(!cortiq_gateway::order::str_le("b", "abc"));
    assert!(cortiq_gateway::order::str_le("same", "same"));
}

#[test]
fn model_files_listed_in_order() {
    let names: Vec<String> = ["z.cmf", "notes.txt", "a.cmf", "m.cmf.part", "b.cmf"]
        .iter()
        .map(|s| s.to_string())
        .collect();
    assert_eq!(
        cortiq_gateway::admin::cmf_listing("/data/models//", &names),
        vec![
            ("a.cmf".to_string(), "/data/models/a.cmf".to_string()),
            ("b.cmf".to_string(), "/data/models/b.cmf".to_string()),
            ("z.cmf".to_string(), "/data/models/z.cmf".to_string()),
        ]
    );
    assert_eq!(
        cortiq_gateway::admin::cmf_listing("models", &vec!["x.cmf".to_string()]),
        vec![("x.cmf".to_string(), "models/x.cmf".to_string())]
    );
}

#[test]
fn anthropic_requests_lift_the_system_prompt() {
    let m = |r: &str, c: &str| cortiq_gateway::model::Message { role: r.to_string(), content: c.to_string() };
    let (system, wire) = cortiq_gateway::providers::anthropic_wire(&vec![
        m("system", ""),
        m("system", "be brief"),
        m("user", "hi"),
        m("system", "no lists"),
        m("assistant", "hello"),
        m("tool", "42"),
    ]);
    assert_eq!(system, "be brief\nno lists");
    let pairs: Vec<(String, String)> = wire.into_iter().map(|x| (x.role, x.content)).collect();
    assert_eq!(
        pairs,
        vec![
            ("user".to_string(), "hi".to_string()),
            ("assistant".to_string(), "hello".to_string()),
            ("user".to_string(), "42".to_string()),
        ]
    );
    let (system, wire) = cortiq_gateway::providers::anthropic_wire(&vec![m("user", "q")]);
    assert_eq!(system, "");
    assert_eq!(wire.len(), 1);
    assert_eq!(cortiq_gateway::providers::anthropic_max_tokens(None), 1024);
    assert_eq!(cortiq_gateway::providers::anthropic_max_tokens(Some(7)), 7);
}

#[test]
fn port_checks_use_the_local_host() {
    assert_eq!(cortiq_gateway::admin::port_check_host("  "), "127.0.0.1");
    assert_eq!(cortiq_gateway::admin::port_check_host("0.0.0.0"), "0.0.0.0");
    let mut st = cortiq_gateway::cmf::CmfStatus::new();
    let server = cortiq_gateway::config::CmfServer { id: "cmf-local".into(), model: "m.cmf".into(), port: 8081 };
    st.init_servers(&vec![server], "127.0.0.1");
    assert!(!st.serves_port(8081));
    st.set_running("cmf-local", true);
    assert!(st.serves_port(8081));
    assert!(!st.serves_port(8082));
}

#[test]
fn completions_skip_null_usage_and_non_json() {
    let mut t = ToCompletions::new();
    let ev = t.feed(b"data: {\"choices\":[{\"delta\":{\"content\":\"b\"}}],\"usage\":null}\n\ndata: not json\n\n");
    assert_eq!(ev, vec![
        "data: {\"choices\":[{\"finish_reason\":null,\"index\":0,\"text\":\"b\"}],\"object\":\"text_completion\"}\n\n".to_string(),
    ]);
}

#[test]
fn anthropic_events_with_absent_fields() {
    let mut t = ToOpenAi::new();
    let ev = t.feed(b"data: {\"type\":\"message_delta\",\"delta\":{}}\n\ndata: {\"delta\":{\"text\":\"x\"}}\n\n");
    assert_eq!(ev, vec![
        "data: {\"choices\":[{\"delta\":{},\"finish_reason\":\"stop\",\"index\":0}]}\n\n".to_string(),
        "data: {\"choices\":[],\"usage\":{\"completion_tokens\":0,\"prompt_tokens\":0,\"total_tokens\":0}}\n\n".to_string(),
    ]);
}

#[test]
fn stream_tally_counts_delta_characters() {
    let mut tally = cortiq_gateway::stream::StreamTally::new();
    tally.observe("{\"choices\":[{\"delta\":{\"content\":\"héllo wörld!\"}}]}");
    tally.observe("[DONE]");
    tally.observe("garbage");
    assert_eq!(tally.delta_chars, 12);
    assert_eq!(tally.finish(), (0, 3));
    tally.observe("{\"choices\":[],\"usage\":{\"prompt_tokens\":5,\"completion_tokens\":9}}");
    assert_eq!(tally.finish(), (5, 9));
}

#[test]
fn only_the_exact_auto_names_route() {
    match RoutingDirective::parse("cortiq-auto") {
        RoutingDirective::Auto { profile } => assert_eq!(profile, None),
        _ => panic!("auto expected"),
    }
    match RoutingDirective::parse("cortiq-auto:") {
        RoutingDirective::Auto { profile } => assert_eq!(profile.as_deref(), Some("")),
        _ => panic!("auto expected"),
    }
    match RoutingDirective::parse("cortiq-autopilot") {
        RoutingDirective::Pinned { model_id } => assert_eq!(model_id, "cortiq-autopilot"),
        _ => panic!("pinned expected"),
    }
    match RoutingDirective::parse("cortiq-aut") {
        RoutingDirective::Pinned { model_id } => assert_eq!(model_id, "cortiq-aut"),
        _ => panic!("pinned expected"),
    }
}

#[test]
fn secrets_file_text_loads() {
    let s = SecretStore::from_file_text("c/secrets.toml", Some("B = \"two\"\nA = \"one\"\n"));
    assert_eq!(s.path(), "c/secrets.toml");
    assert_eq!(
        s.entries(),
        vec![("A".to_string(), "one".to_string()), ("B".to_string(), "two".to_string())]
    );
    assert_eq!(s.resolve("A", Some("env")), Some("one".to_string()));
    assert!(SecretStore::from_file_text("p", Some("not = [toml")).entries().is_empty());
    assert!(SecretStore::from_file_text("p", Some("n = 3")).entries().is_empty());
    assert!(SecretStore::from_file_text("p", None).entries().is_empty());
}

#[test]
fn registry_and_provider_answers() {
    assert_eq!(
        cortiq_gateway::cmf::newest_version("{\"crate\":{\"newest_version\":\"0.3.1\"}}"),
        Some("0.3.1".to_string())
    );
    assert_eq!(cortiq_gateway::cmf::newest_version("{\"crate\":{}}"), None);
    assert_eq!(cortiq_gateway::cmf::newest_version("<html>"), None);
    assert_eq!(
        cortiq_gateway::admin::provider_model_list(
            "{\"data\":[{\"id\":\"mistral-small\"},{\"name\":\"x\"},{\"id\":\"llama-3\"},{\"id\":7},{\"id\":\"Qwen\"}]}"
        ),
        vec!["Qwen".to_string(), "llama-3".to_string(), "mistral-small".to_string()]
    );
    assert!(cortiq_gateway::admin::provider_model_list("{\"data\":{}}").is_empty());
    assert!(cortiq_gateway::admin::provider_model_list("oops").is_empty());
}

#[test]
fn totals_count_all_tokens() {
    let mut t: cortiq_gateway::stats::Totals<u64> = cortiq_gateway::stats::Totals::new();
    t.prompt_tokens = 12;
    t.completion_tokens = 30;
    assert_eq!(t.total_tokens(), 42);
    t.completion_tokens = u64::MAX;
    assert_eq!(t.total_tokens(), u64::MAX);
}

#[test]
fn delta_text_is_escaped_as_json() {
    let mut t = ToCompletions::new();
    let ev = t.feed(b"data: {\"choices\":[{\"delta\":{\"content\":\"q\\\"b\\\\n\\n\\t\\u0001\\u001f\\u007f\xc3\xa9/\"}}]}\n\n");
    assert_eq!(ev, vec![
        "data: {\"choices\":[{\"finish_reason\":null,\"index\":0,\"text\":\"q\\\"b\\\\n\\n\\t\\u0001\\u001f\u{7f}\u{e9}/\"}],\"object\":\"text_completion\"}\n\n".to_string(),
    ]);
}
