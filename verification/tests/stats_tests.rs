use cortiq_gateway::config::StatsCfg;
use cortiq_gateway::stats::{
    avg, escape_label, parse_duration_secs, parse_group_by, GroupBy, RequestRecord, Stats,
};

fn rec(ts: u64, model: &str, account: &str, ok: bool, cost: u64) -> RequestRecord<u8, u64> {
    RequestRecord {
        ts,
        account: account.to_string(),
        protocol: "openai_chat".to_string(),
        directive: "auto".to_string(),
        task_label: "code".to_string(),
        tier: "low".to_string(),
        score: 0,
        model_id: model.to_string(),
        route_source: "router".to_string(),
        prompt_tokens: 10,
        completion_tokens: 5,
        cost_usd: cost,
        latency_ms: 100,
        outcome: if ok { "ok" } else { "error" }.to_string(),
        failover: !ok,
        error: None,
    }
}

fn cfg(ring: usize) -> StatsCfg {
    StatsCfg { enabled: true, file: " ".to_string(), ring_size: ring, retention: "7d".to_string() }
}

#[test]
fn durations_parse() {
    assert_eq!(parse_duration_secs("7d"), Some(604_800));
    assert_eq!(parse_duration_secs(" 24h "), Some(86_400));
    assert_eq!(parse_duration_secs("90m"), Some(5_400));
    assert_eq!(parse_duration_secs("3600s"), Some(3_600));
    assert_eq!(parse_duration_secs("42"), Some(42));
    assert_eq!(parse_duration_secs(""), None);
    assert_eq!(parse_duration_secs("xd"), None);
    assert_eq!(parse_duration_secs("-5m"), None);
}

#[test]
fn averages_and_labels() {
    assert_eq!(avg(10, 0), 0);
    assert_eq!(avg(10, 3), 3);
    assert_eq!(escape_label("a\"b\\c\nd"), "a\\\"b\\\\c d");
    assert!(parse_group_by("tier") == GroupBy::Tier);
    assert!(parse_group_by("whatever") == GroupBy::Model);
}

#[test]
fn totals_and_breakdown() {
    let mut s: Stats<u8, u64> = Stats::new(&cfg(10));
    assert!(s.file().is_none());
    let now = 1_000_000;
    s.record(rec(now - 30, "m1", "", true, 3), now);
    s.record(rec(now - 20, "m2", "acme", false, 4), now);
    s.record(rec(now - 10, "m2", "acme", true, 5), now);
    assert_eq!(s.total_cost(), 12);
    let snap = s.snapshot(now, 3600, GroupBy::Model);
    assert_eq!(snap.totals.requests, 3);
    assert_eq!(snap.totals.errors, 1);
    assert_eq!(snap.totals.ok, 2);
    assert_eq!(snap.totals.failovers, 1);
    assert_eq!(snap.totals.prompt_tokens, 30);
    assert_eq!(snap.totals.cost_usd, 12);
    assert_eq!(snap.breakdown.len(), 2);
    assert_eq!(snap.breakdown[0].0, "m2");
    assert_eq!(snap.breakdown[0].1.requests, 2);
    assert_eq!(snap.breakdown[0].1.errors, 1);
    assert_eq!(snap.breakdown[1].0, "m1");
    assert_eq!(snap.breakdown[0].1.cost_usd, 9);
    assert_eq!(snap.breakdown[1].1.cost_usd, 3);
    let by_account = s.snapshot(now, 3600, GroupBy::Account);
    assert_eq!(by_account.breakdown[0].0, "acme");
    assert_eq!(by_account.breakdown[1].0, "anonymous");
    assert_eq!(by_account.breakdown[0].1.cost_usd, 9);
}

#[test]
fn series_costs_per_minute() {
    let mut s: Stats<u8, u64> = Stats::new(&cfg(10));
    let now = 600_000;
    s.record(rec(now - 125, "m1", "", true, 2), now);
    s.record(rec(now - 121, "m1", "", true, 3), now);
    s.record(rec(now - 5, "m1", "", true, 7), now);
    let snap = s.snapshot(now, 3600, GroupBy::Model);
    assert_eq!(snap.series.len(), 2);
    assert_eq!(snap.series[0].cost_usd, 5);
    assert_eq!(snap.series[1].cost_usd, 7);
    assert_eq!(snap.totals.cost_usd, 12);
    // saturating amounts
    let mut t: Stats<u8, u64> = Stats::new(&cfg(10));
    t.record(rec(now - 5, "m1", "", true, u64::MAX), now);
    t.record(rec(now - 4, "m1", "", true, 1), now);
    assert_eq!(t.total_cost(), u64::MAX);
}

#[test]
fn recent_is_newest_first_and_bounded() {
    let mut s: Stats<u8, u64> = Stats::new(&cfg(2));
    for i in 0..3u64 {
        s.record(rec(100 + i, &format!("m{i}"), "", true, 0), 200);
    }
    let r = s.recent(10, 0);
    assert_eq!(r.len(), 2);
    assert_eq!(r[0].model_id, "m2");
    assert_eq!(r[1].model_id, "m1");
    let page = s.recent(1, 1);
    assert_eq!(page.len(), 1);
    assert_eq!(page[0].model_id, "m1");
    assert!(s.recent(5, 7).is_empty());
}

#[test]
fn disabled_stats_record_nothing() {
    let mut c = cfg(5);
    c.enabled = false;
    let mut s: Stats<u8, u64> = Stats::new(&c);
    s.record(rec(1, "m", "", true, 1), 2);
    assert!(s.recent(10, 0).is_empty());
}

#[test]
fn prometheus_text() {
    let mut s: Stats<u8, u64> = Stats::new(&cfg(5));
    s.record(rec(60, "m\"1", "", true, 0), 61);
    let text = s.prometheus("0.000000");
    assert!(text.starts_with("# HELP gw_requests_total Total gateway requests.\n# TYPE gw_requests_total counter\ngw_requests_total 1\n"));
    assert!(text.contains("gw_tokens_total{direction=\"in\"} 10\n"));
    assert!(text.contains("gw_cost_usd_total 0.000000\n"));
    assert!(text.ends_with(
        "gw_provider_calls_total{model_id=\"m\\\"1\",outcome=\"ok\"} 1\ngw_provider_calls_total{model_id=\"m\\\"1\",outcome=\"error\"} 0\n"
    ));
}

#[test]
fn old_buckets_leave_the_window() {
    let mut s: Stats<u8, u64> = Stats::new(&StatsCfg {
        enabled: true,
        file: String::new(),
        ring_size: 5,
        retention: "2m".to_string(),
    });
    s.record(rec(0, "m", "", true, 0), 0);
    s.record(rec(600, "m", "", true, 0), 600);
    let snap = s.snapshot(600, 100_000, GroupBy::Model);
    assert_eq!(snap.series.len(), 1);
    assert_eq!(snap.series[0].minute, 600);
    // all-time counters keep everything
    assert!(s.prometheus("0").contains("gw_requests_total 2\n"));
    s.clear();
    assert_eq!(s.snapshot(600, 100_000, GroupBy::Model).totals.requests, 0);
}

#[test]
fn replay_counts_only_recent_records() {
    let mut s: Stats<u8, u64> = Stats::new(&cfg(5));
    s.replay_record(rec(10, "old", "", true, 0), 10_000_000);
    s.replay_record(rec(9_999_990, "new", "", true, 0), 10_000_000);
    assert_eq!(s.recent(10, 0).len(), 2);
    let snap = s.snapshot(10_000_000, 10_000_000, GroupBy::Model);
    assert_eq!(snap.totals.requests, 1);
    assert_eq!(snap.breakdown[0].0, "new");
}

#[test]
fn metrics_counters_only_grow() {
    let mut s: Stats<u8, u64> = Stats::new(&cfg(1));
    let now = 2_000_000;
    let mut last = 0u64;
    for i in 0..5u64 {
        s.record(rec(now - 5 + i, "m1", "", i % 2 == 0, 1), now);
        let text = s.prometheus("0");
        let line = text.lines().find(|l| l.starts_with("gw_requests_total ")).unwrap();
        let n: u64 = line["gw_requests_total ".len()..].parse().unwrap();
        assert_eq!(n, last + 1);
        last = n;
    }
    // the ring keeps one request, the counters keep them all
    assert_eq!(s.recent(10, 0).len(), 1);
    assert_eq!(s.total_cost(), 5);
}

#[test]
fn snapshot_rows_add_up() {
    let mut s: Stats<u8, u64> = Stats::new(&cfg(10));
    let now = 2_000_000;
    for i in 0..7u64 {
        s.record(rec(now - 200 + i * 30, if i % 2 == 0 { "a" } else { "b" }, "", i % 3 == 0, 1), now);
    }
    for g in [GroupBy::Model, GroupBy::Account, GroupBy::Tier, GroupBy::Label] {
        let snap = s.snapshot(now, 3600, g);
        let t = &snap.totals;
        assert_eq!(t.ok + t.errors, t.requests);
        assert_eq!(t.total_tokens(), t.prompt_tokens + t.completion_tokens);
        for (_, row) in &snap.breakdown {
            assert_eq!(row.ok + row.errors, row.requests);
        }
        assert_eq!(snap.breakdown.iter().map(|(_, r)| r.requests).sum::<u64>(), t.requests);
    }
}
