use cortiq_gateway::config::CmfCfg;
use cortiq_gateway::lifecycle::{Action, Event, Lifecycle, Note};

fn managed(auto_install: bool, auto_update: bool) -> CmfCfg {
    let mut c = CmfCfg::defaults("data");
    c.manage_server = true;
    c.local_model = "/models/q.cmf".to_string();
    c.auto_install = auto_install;
    c.auto_update = auto_update;
    c
}

fn show(n: &Note) -> String {
    match n {
        Note::Init => "init".to_string(),
        Note::Log(m) => format!("log {m}"),
        Note::Fail(m) => format!("fail {m}"),
        Note::FailServer(id, m) => format!("fail [{id}] {m}"),
        Note::Installed(v) => format!("installed {v:?}"),
        Note::Latest(v) => format!("latest {v}"),
        Note::Running(id) => format!("running {id}"),
        Note::Healthy(id) => format!("healthy {id}"),
    }
}

fn step(m: &mut Lifecycle, ev: Event) -> (Action, Vec<String>) {
    let (a, notes) = m.step(ev);
    (a, notes.iter().map(show).collect())
}

#[test]
fn nothing_to_manage() {
    let mut m = Lifecycle::new(&CmfCfg::defaults("data"));
    assert_eq!(step(&mut m, Event::Begin), (Action::Done, vec![]));
}

#[test]
fn full_startup_with_update() {
    let mut m = Lifecycle::new(&managed(false, true));
    assert_eq!(step(&mut m, Event::Begin), (Action::ProbeVersion, vec!["init".to_string()]));
    assert_eq!(
        step(&mut m, Event::Version(Some("0.1.2".into()))),
        (Action::FetchLatest, vec!["installed Some(\"0.1.2\")".to_string()])
    );
    assert_eq!(
        step(&mut m, Event::Latest(Some("0.2.0".into()))),
        (
            Action::Install { force: true },
            vec!["latest 0.2.0".to_string(), "log updating cortiq-cli 0.1.2 → 0.2.0…".to_string()]
        )
    );
    assert_eq!(step(&mut m, Event::Installed(Ok(()))), (Action::ProbeVersion, vec![]));
    assert_eq!(
        step(&mut m, Event::Version(Some("0.2.0".into()))),
        (
            Action::CheckModel(0),
            vec!["installed Some(\"0.2.0\")".to_string(), "log updated to 0.2.0".to_string()]
        )
    );
    assert_eq!(
        step(&mut m, Event::ModelPresent(true)),
        (
            Action::Spawn(0),
            vec!["log starting: cortiq serve /models/q.cmf --host 127.0.0.1 --port 8081".to_string()]
        )
    );
    assert_eq!(
        step(&mut m, Event::Spawned(Ok(()))),
        (Action::CheckRunning(0), vec!["running cmf-local".to_string()])
    );
    assert_eq!(step(&mut m, Event::Running(true)), (Action::WaitHealthy(0), vec![]));
    assert_eq!(
        step(&mut m, Event::Healthy(true)),
        (
            Action::Done,
            vec![
                "healthy cmf-local".to_string(),
                "log local CMF server ready — 'cmf-local' at http://127.0.0.1:8081/v1".to_string()
            ]
        )
    );
    // a finished lifecycle stays finished
    assert_eq!(step(&mut m, Event::Begin), (Action::Done, vec![]));
}

#[test]
fn missing_cli_without_auto_install_stops() {
    let mut m = Lifecycle::new(&managed(false, false));
    step(&mut m, Event::Begin);
    assert_eq!(
        step(&mut m, Event::Version(None)),
        (
            Action::Done,
            vec!["fail cortiq binary not found (set [cmf].auto_install = true, or install cortiq-cli)".to_string()]
        )
    );
}

#[test]
fn missing_cli_is_installed_then_spawn_fails() {
    let mut m = Lifecycle::new(&managed(true, false));
    step(&mut m, Event::Begin);
    let (a, notes) = step(&mut m, Event::Version(None));
    assert_eq!(a, Action::Install { force: false });
    assert_eq!(notes.len(), 1);
    assert_eq!(step(&mut m, Event::Installed(Ok(()))), (Action::ProbeVersion, vec![]));
    assert_eq!(
        step(&mut m, Event::Version(Some("0.3.0".into()))),
        (
            Action::CheckModel(0),
            vec!["log installed cortiq-cli".to_string(), "installed Some(\"0.3.0\")".to_string()]
        )
    );
    step(&mut m, Event::ModelPresent(true));
    assert_eq!(
        step(&mut m, Event::Spawned(Err("no such file".into()))),
        (Action::CheckRunning(0), vec!["fail [cmf-local] failed to spawn: no such file".to_string()])
    );
    assert_eq!(step(&mut m, Event::Running(false)), (Action::Done, vec![]));
}

#[test]
fn failed_install_and_missing_model() {
    let mut m = Lifecycle::new(&managed(true, false));
    step(&mut m, Event::Begin);
    step(&mut m, Event::Version(None));
    assert_eq!(
        step(&mut m, Event::Installed(Err("boom".into()))),
        (Action::Done, vec!["fail cargo install cortiq-cli failed: boom".to_string()])
    );

    let mut m = Lifecycle::new(&managed(false, true));
    step(&mut m, Event::Begin);
    step(&mut m, Event::Version(Some("0.2.0".into())));
    // an older or equal published version leaves the CLI alone
    assert_eq!(
        step(&mut m, Event::Latest(Some("0.1.9".into()))),
        (Action::CheckModel(0), vec!["latest 0.1.9".to_string()])
    );
    assert_eq!(
        step(&mut m, Event::ModelPresent(false)),
        (Action::CheckRunning(0), vec!["fail [cmf-local] model file not found: /models/q.cmf".to_string()])
    );
}

#[test]
fn failed_update_keeps_current_and_unhealthy_server() {
    let mut m = Lifecycle::new(&managed(false, true));
    step(&mut m, Event::Begin);
    step(&mut m, Event::Version(Some("0.1.0".into())));
    step(&mut m, Event::Latest(Some("0.1.1".into())));
    assert_eq!(
        step(&mut m, Event::Installed(Err("offline".into()))),
        (Action::CheckModel(0), vec!["log update failed (keeping current): offline".to_string()])
    );
    step(&mut m, Event::ModelPresent(true));
    step(&mut m, Event::Spawned(Ok(())));
    step(&mut m, Event::Running(true));
    assert_eq!(
        step(&mut m, Event::Healthy(false)),
        (Action::Done, vec!["fail [cmf-local] did not become healthy in time".to_string()])
    );
    // an unexpected event ends the run
    let mut m = Lifecycle::new(&managed(false, false));
    assert_eq!(step(&mut m, Event::Healthy(true)), (Action::Done, vec![]));
}

#[test]
fn manual_install_records() {
    let start = cortiq_gateway::lifecycle::manual_install_start();
    assert_eq!(show(&start), "log installing cortiq-cli from crates.io (this compiles — a few minutes)…");
    let ok: Vec<String> =
        cortiq_gateway::lifecycle::manual_install_notes(Ok(Some("0.4.0".into()))).iter().map(show).collect();
    assert_eq!(ok, vec!["installed Some(\"0.4.0\")".to_string(), "log installed cortiq-cli 0.4.0".to_string()]);
    let unknown: Vec<String> = cortiq_gateway::lifecycle::manual_install_notes(Ok(None)).iter().map(show).collect();
    assert_eq!(unknown, vec!["installed None".to_string(), "log installed cortiq-cli ?".to_string()]);
    let failed: Vec<String> =
        cortiq_gateway::lifecycle::manual_install_notes(Err("exit 101".into())).iter().map(show).collect();
    assert_eq!(failed, vec!["fail cargo install cortiq-cli failed: exit 101".to_string()]);
}
