use cortiq_gateway::promotion::{Promotion, PromotionCfg, PromotionState};

/// Wilson-95 lower bound of `s` successes in `n` trials.
fn wilson_lb(s: usize, n: usize, z: f64) -> f64 {
    if n == 0 {
        return 0.0;
    }
    let n = n as f64;
    let p = s as f64 / n;
    let z2 = z * z;
    let denom = 1.0 + z2 / n;
    let centre = p + z2 / (2.0 * n);
    let margin = z * ((p * (1.0 - p) / n) + z2 / (4.0 * n * n)).sqrt();
    ((centre - margin) / denom).clamp(0.0, 1.0)
}

fn cfg() -> PromotionCfg {
    PromotionCfg { enabled: true, window: 500, n_min: 200, soak: 0, file: None }
}

/// One judgment, with the pass-rate tests of the default tuning.
fn record(p: &mut Promotion, label: &str, pass: bool, hard_fail: bool) -> PromotionState {
    let c = p.push_judgment(label, pass, hard_fail);
    let lb = wilson_lb(c.passes, c.n, 1.96);
    let point = if c.n > 0 { c.passes as f64 / c.n as f64 } else { 0.0 };
    p.settle(label, lb >= 0.95, point < 0.90)
}

#[test]
fn no_promotion_on_a_lucky_streak() {
    let mut p = Promotion::new(cfg());
    for _ in 0..50 {
        record(&mut p, "code", true, false);
    }
    assert_eq!(p.state("code"), PromotionState::ShadowJudged);
    assert!(!p.serves_local("code"));
}

#[test]
fn promotes_only_with_enough_high_evidence() {
    let mut p = Promotion::new(cfg());
    for i in 0..200 {
        record(&mut p, "code", i % 100 != 0, false);
    }
    assert_eq!(p.state("code"), PromotionState::Canary);
    assert!(p.serves_local("code"));
}

#[test]
fn demo_full_lifecycle() {
    let mut p = Promotion::new(PromotionCfg { soak: 50, ..cfg() });
    for i in 0..210 {
        record(&mut p, "ru_tech", i % 100 != 0, false);
    }
    assert_eq!(p.state("ru_tech"), PromotionState::Canary, "n≥200 & LB≥0.95 → CANARY");
    for i in 0..60 {
        record(&mut p, "ru_tech", i % 100 != 0, false);
    }
    assert_eq!(p.state("ru_tech"), PromotionState::LocalServed, "soak → LOCAL_SERVED");
    assert!(p.serves_local("ru_tech"));
    for _ in 0..250 {
        record(&mut p, "code", false, false);
    }
    assert_eq!(p.state("code"), PromotionState::ShadowJudged);
    assert!(!p.serves_local("code"));
    for _ in 0..120 {
        record(&mut p, "ru_tech", false, false);
    }
    assert!(!p.serves_local("ru_tech"));
}

#[test]
fn hard_fail_and_regression_block_or_demote() {
    let mut p = Promotion::new(cfg());
    for i in 0..200 {
        record(&mut p, "risky", true, i % 20 == 0);
    }
    assert_ne!(p.state("risky"), PromotionState::LocalServed);

    let mut p2 = Promotion::new(PromotionCfg { soak: 0, ..cfg() });
    for i in 0..200 {
        record(&mut p2, "t", i % 100 != 0, false);
    }
    assert_eq!(p2.state("t"), PromotionState::Canary);
    for _ in 0..300 {
        record(&mut p2, "t", false, false);
    }
    assert!(matches!(p2.state("t"), PromotionState::Demoted | PromotionState::ShadowJudged));
}

#[test]
fn unknown_label_is_cloud_only() {
    let p = Promotion::new(cfg());
    assert_eq!(p.state("nothing"), PromotionState::CloudOnly);
    assert!(!p.serves_local("nothing"));
}

#[test]
fn window_keeps_only_recent_judgments() {
    let mut p = Promotion::new(PromotionCfg { window: 3, ..cfg() });
    for _ in 0..5 {
        p.push_judgment("w", true, false);
    }
    let c = p.push_judgment("w", false, true);
    assert_eq!(c.n, 3);
    assert_eq!(c.passes, 2);
    assert_eq!(c.hard_fails, 1);
    assert_eq!(c.recent_hard_fails, 1);
}

#[test]
fn snapshot_orders_by_judgments() {
    let mut p = Promotion::new(cfg());
    p.push_judgment("a", true, false);
    for _ in 0..3 {
        p.push_judgment("b", false, false);
    }
    let rows = p.snapshot();
    assert_eq!(rows.len(), 2);
    assert_eq!(rows[0].0, "b");
    assert_eq!(rows[0].2, 3);
    assert_eq!(rows[0].3, 0);
    assert_eq!(rows[1].0, "a");
    assert_eq!(rows[1].3, 1);
}

#[test]
fn regression_then_reearn() {
    let mut p = Promotion::new(cfg());
    for i in 0..200 {
        record(&mut p, "x", i % 100 != 0, false);
    }
    assert_eq!(p.state("x"), PromotionState::Canary);
    // two hard fails among the recent judgments demote a serving label
    p.push_judgment("x", true, true);
    p.push_judgment("x", true, true);
    assert_eq!(p.settle("x", true, false), PromotionState::Demoted);
    // a demoted label goes back to shadow judging first
    assert_eq!(p.settle("x", true, false), PromotionState::ShadowJudged);
}

#[test]
fn shadow_settings_become_tuning() {
    let mut s = cortiq_gateway::config::ShadowCfg::defaults("data");
    s.enabled = true;
    let c = PromotionCfg::from_shadow(&s);
    assert!(!c.enabled, "no local model named");
    s.local_model_id = "cmf-local".to_string();
    s.file = String::new();
    let c = PromotionCfg::from_shadow(&s);
    assert!(c.enabled);
    assert_eq!(c.file, None);
    assert_eq!((c.window, c.n_min, c.soak), (s.window, s.n_min, s.soak));
    s.file = "data/judge.jsonl".to_string();
    assert_eq!(PromotionCfg::from_shadow(&s).file, Some("data/judge.jsonl".to_string()));
}
