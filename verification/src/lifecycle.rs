//! The lifecycle of the managed local CMF servers as a state machine: make
//! sure the `cortiq` CLI is installed, update it when asked to, spawn each
//! configured server, then wait until each spawned one is healthy. The
//! machine decides; whoever drives it performs each action (a process run, a
//! registry query, a file check, a spawn, a health poll) and hands back what
//! came of it. Each step also says what to record in the observable status.

use vstd::prelude::*;
use crate::cmf::{base_url_of, older, version_lt, CmfStatus};
use crate::config::{server_views, CmfCfg, CmfServer};
use crate::text::{append_str, dec, owned, push_dec};

verus! {

/// Where the lifecycle stands; an index names a configured server.
#[derive(PartialEq, Eq, Structural, Clone, Copy, Debug)]
pub enum Stage {
    Start,
    /// Waiting for the first `cortiq --version`.
    Probe,
    /// Waiting for the install of a missing CLI.
    Install,
    /// Waiting for `cortiq --version` after that install.
    Reprobe,
    /// Waiting for the newest published version.
    Latest,
    /// Waiting for the update install.
    Update,
    /// Waiting for `cortiq --version` after the update.
    Updated,
    /// Waiting to learn whether server `i`'s model file exists.
    Model(usize),
    /// Waiting for the spawn of server `i`.
    Spawn(usize),
    /// Waiting to learn whether server `i` is (still) marked running.
    Running(usize),
    /// Waiting for server `i`'s health check.
    Health(usize),
    Done,
}

/// What the driver does next.
#[derive(PartialEq, Eq, Structural, Clone, Copy, Debug)]
pub enum Action {
    /// Run `cortiq --version`; answer `Event::Version`.
    ProbeVersion,
    /// `cargo install cortiq-cli` (with `--force` for an update); answer
    /// `Event::Installed`.
    Install { force: bool },
    /// Ask the registry for the newest `cortiq-cli`; answer `Event::Latest`.
    FetchLatest,
    /// Check that server `i`'s model file exists; answer `Event::ModelPresent`.
    CheckModel(usize),
    /// Spawn `cortiq serve` for server `i`; answer `Event::Spawned`.
    Spawn(usize),
    /// Read whether server `i` is marked running; answer `Event::Running`.
    CheckRunning(usize),
    /// Poll server `i`'s health endpoint; answer `Event::Healthy`.
    WaitHealthy(usize),
    /// Nothing left to do.
    Done,
}

/// What came of the last action.
pub enum Event {
    /// Starts the run.
    Begin,
    Version(Option<String>),
    Installed(Result<(), String>),
    Latest(Option<String>),
    ModelPresent(bool),
    Spawned(Result<(), String>),
    Running(bool),
    Healthy(bool),
}

/// What to record in the observable status.
pub enum Note {
    /// Seed one fresh slot per configured server.
    Init,
    /// A lifecycle log line.
    Log(String),
    /// A failure not tied to one server.
    Fail(String),
    /// A failure of server `id`.
    FailServer(String, String),
    /// The installed CLI version.
    Installed(Option<String>),
    /// The newest published CLI version.
    Latest(String),
    /// Server `id` was spawned.
    Running(String),
    /// Server `id` answers its health check.
    Healthy(String),
}

pub enum EventView {
    Begin,
    Version(Option<Seq<char>>),
    Installed(Result<(), Seq<char>>),
    Latest(Option<Seq<char>>),
    ModelPresent(bool),
    Spawned(Result<(), Seq<char>>),
    Running(bool),
    Healthy(bool),
}

pub enum NoteView {
    Init,
    Log(Seq<char>),
    Fail(Seq<char>),
    FailServer(Seq<char>, Seq<char>),
    Installed(Option<Seq<char>>),
    Latest(Seq<char>),
    Running(Seq<char>),
    Healthy(Seq<char>),
}

pub open spec fn opt_seq(o: Option<String>) -> Option<Seq<char>> {
    crate::model::opt_view(o)
}

pub open spec fn res_seq(r: Result<(), String>) -> Result<(), Seq<char>> {
    match r {
        Ok(()) => Ok(()),
        Err(e) => Err(e@),
    }
}

impl View for Event {
    type V = EventView;

    open spec fn view(&self) -> EventView {
        match *self {
            Event::Begin => EventView::Begin,
            Event::Version(v) => EventView::Version(opt_seq(v)),
            Event::Installed(r) => EventView::Installed(res_seq(r)),
            Event::Latest(v) => EventView::Latest(opt_seq(v)),
            Event::ModelPresent(b) => EventView::ModelPresent(b),
            Event::Spawned(r) => EventView::Spawned(res_seq(r)),
            Event::Running(b) => EventView::Running(b),
            Event::Healthy(b) => EventView::Healthy(b),
        }
    }
}

impl View for Note {
    type V = NoteView;

    open spec fn view(&self) -> NoteView {
        match *self {
            Note::Init => NoteView::Init,
            Note::Log(m) => NoteView::Log(m@),
            Note::Fail(m) => NoteView::Fail(m@),
            Note::FailServer(id, m) => NoteView::FailServer(id@, m@),
            Note::Installed(v) => NoteView::Installed(opt_seq(v)),
            Note::Latest(v) => NoteView::Latest(v@),
            Note::Running(id) => NoteView::Running(id@),
            Note::Healthy(id) => NoteView::Healthy(id@),
        }
    }
}

pub open spec fn note_views(v: Seq<Note>) -> Seq<NoteView> {
    v.map_values(|n: Note| n@)
}

/// Mathematical model of the machine.
pub struct LifecycleView {
    /// `(id, model, port)` of each configured server.
    pub servers: Seq<(Seq<char>, Seq<char>, u16)>,
    pub host: Seq<char>,
    pub auto_install: bool,
    pub auto_update: bool,
    pub stage: Stage,
    /// The CLI version known so far.
    pub version: Option<Seq<char>>,
}

/// The lifecycle of the managed local servers of one configuration.
pub struct Lifecycle {
    servers: Vec<CmfServer>,
    host: String,
    auto_install: bool,
    auto_update: bool,
    stage: Stage,
    version: Option<String>,
}

impl View for Lifecycle {
    type V = LifecycleView;

    closed spec fn view(&self) -> LifecycleView {
        LifecycleView {
            servers: server_views(self.servers@),
            host: self.host@,
            auto_install: self.auto_install,
            auto_update: self.auto_update,
            stage: self.stage,
            version: opt_seq(self.version),
        }
    }
}

// ───────────────────────────── the messages ──────────────────────────────

pub open spec fn msg_installing() -> Seq<char> {
    "cortiq not found — installing cortiq-cli from crates.io (this compiles, may take a few minutes)…"@
}

pub open spec fn msg_no_binary() -> Seq<char> {
    "cortiq binary not found (set [cmf].auto_install = true, or install cortiq-cli)"@
}

pub open spec fn msg_starting(model: Seq<char>, host: Seq<char>, port: u16) -> Seq<char> {
    "starting: cortiq serve "@ + model + " --host "@ + host + " --port "@ + dec(port as nat)
}

pub open spec fn msg_ready(id: Seq<char>, host: Seq<char>, port: u16) -> Seq<char> {
    "local CMF server ready — '"@ + id + "' at "@ + base_url_of(host, port)
}

// ───────────────────────────── the transitions ───────────────────────────

pub open spec fn with_stage(m: LifecycleView, s: Stage) -> LifecycleView {
    LifecycleView { stage: s, ..m }
}

/// Waiting phase from server `i` on: ask about the next server, or finish.
pub open spec fn running_from(m: LifecycleView, i: int) -> (LifecycleView, Action) {
    if 0 <= i < m.servers.len() {
        (with_stage(m, Stage::Running(i as usize)), Action::CheckRunning(i as usize))
    } else {
        (with_stage(m, Stage::Done), Action::Done)
    }
}

/// Spawning phase from server `i` on; after the last server, the waiting
/// phase.
pub open spec fn spawn_from(m: LifecycleView, i: int) -> (LifecycleView, Action) {
    if 0 <= i < m.servers.len() {
        (with_stage(m, Stage::Model(i as usize)), Action::CheckModel(i as usize))
    } else {
        running_from(m, 0)
    }
}

/// Once the installed version is known: check for an update when asked to,
/// else start spawning.
pub open spec fn after_version(m: LifecycleView) -> (LifecycleView, Action) {
    if m.auto_update {
        (with_stage(m, Stage::Latest), Action::FetchLatest)
    } else {
        spawn_from(m, 0)
    }
}

pub open spec fn plus_notes(
    r: (LifecycleView, Action),
    notes: Seq<NoteView>,
) -> (LifecycleView, Action, Seq<NoteView>) {
    (r.0, r.1, notes)
}

/// One step: the next state, the action to perform, and the notes to record.
/// An event the stage does not expect ends the run.
pub open spec fn next(m: LifecycleView, ev: EventView) -> (LifecycleView, Action, Seq<NoteView>) {
    let n = m.servers.len();
    let stop = (with_stage(m, Stage::Done), Action::Done, Seq::<NoteView>::empty());
    match (m.stage, ev) {
        (Stage::Start, EventView::Begin) => if n == 0 {
            stop
        } else {
            (with_stage(m, Stage::Probe), Action::ProbeVersion, seq![NoteView::Init])
        },
        (Stage::Probe, EventView::Version(v)) => match v {
            Some(_) => plus_notes(after_version(LifecycleView { version: v, ..m }), seq![NoteView::Installed(v)]),
            None => if m.auto_install {
                (
                    with_stage(m, Stage::Install),
                    Action::Install { force: false },
                    seq![NoteView::Log(msg_installing())],
                )
            } else {
                (with_stage(m, Stage::Done), Action::Done, seq![NoteView::Fail(msg_no_binary())])
            },
        },
        (Stage::Install, EventView::Installed(r)) => match r {
            Ok(()) => (with_stage(m, Stage::Reprobe), Action::ProbeVersion, Seq::empty()),
            Err(e) => (
                with_stage(m, Stage::Done),
                Action::Done,
                seq![NoteView::Fail("cargo install cortiq-cli failed: "@ + e)],
            ),
        },
        (Stage::Reprobe, EventView::Version(v)) => plus_notes(
            after_version(LifecycleView { version: v, ..m }),
            (if v is Some {
                seq![NoteView::Log("installed cortiq-cli"@)]
            } else {
                Seq::empty()
            }) + seq![NoteView::Installed(v)],
        ),
        (Stage::Latest, EventView::Latest(l)) => match l {
            None => plus_notes(spawn_from(m, 0), Seq::empty()),
            Some(latest) => match m.version {
                Some(c) => if older(c, latest) {
                    (
                        with_stage(m, Stage::Update),
                        Action::Install { force: true },
                        seq![
                            NoteView::Latest(latest),
                            NoteView::Log("updating cortiq-cli "@ + c + " → "@ + latest + "…"@),
                        ],
                    )
                } else {
                    plus_notes(spawn_from(m, 0), seq![NoteView::Latest(latest)])
                },
                None => plus_notes(spawn_from(m, 0), seq![NoteView::Latest(latest)]),
            },
        },
        (Stage::Update, EventView::Installed(r)) => match r {
            Ok(()) => (with_stage(m, Stage::Updated), Action::ProbeVersion, Seq::empty()),
            Err(e) => plus_notes(
                spawn_from(m, 0),
                seq![NoteView::Log("update failed (keeping current): "@ + e)],
            ),
        },
        (Stage::Updated, EventView::Version(v)) => plus_notes(
            spawn_from(LifecycleView { version: v, ..m }, 0),
            seq![
                NoteView::Installed(v),
                NoteView::Log(
                    "updated to "@ + match v {
                        Some(x) => x,
                        None => "?"@,
                    },
                ),
            ],
        ),
        (Stage::Model(i), EventView::ModelPresent(b)) => if i < n {
            let s = m.servers[i as int];
            if b {
                (
                    with_stage(m, Stage::Spawn(i)),
                    Action::Spawn(i),
                    seq![NoteView::Log(msg_starting(s.1, m.host, s.2))],
                )
            } else {
                plus_notes(
                    spawn_from(m, i + 1),
                    seq![NoteView::FailServer(s.0, "model file not found: "@ + s.1)],
                )
            }
        } else {
            stop
        },
        (Stage::Spawn(i), EventView::Spawned(r)) => if i < n {
            let s = m.servers[i as int];
            plus_notes(
                spawn_from(m, i + 1),
                match r {
                    Ok(()) => seq![NoteView::Running(s.0)],
                    Err(e) => seq![NoteView::FailServer(s.0, "failed to spawn: "@ + e)],
                },
            )
        } else {
            stop
        },
        (Stage::Running(i), EventView::Running(b)) => if i < n {
            if b {
                (with_stage(m, Stage::Health(i)), Action::WaitHealthy(i), Seq::empty())
            } else {
                plus_notes(running_from(m, i + 1), Seq::empty())
            }
        } else {
            stop
        },
        (Stage::Health(i), EventView::Healthy(b)) => if i < n {
            let s = m.servers[i as int];
            plus_notes(
                running_from(m, i + 1),
                if b {
                    seq![NoteView::Healthy(s.0), NoteView::Log(msg_ready(s.0, m.host, s.2))]
                } else {
                    seq![NoteView::FailServer(s.0, "did not become healthy in time"@)]
                },
            )
        } else {
            stop
        },
        _ => stop,
    }
}

// ───────────────────────────── the machine ───────────────────────────────

fn one(n: Note) -> (v: Vec<Note>)
    ensures
        note_views(v@) == seq![n@],
{
    let mut v: Vec<Note> = Vec::new();
    v.push(n);
    assert(note_views(v@) =~= seq![n@]);
    v
}

fn two(a: Note, b: Note) -> (v: Vec<Note>)
    ensures
        note_views(v@) == seq![a@, b@],
{
    let mut v: Vec<Note> = Vec::new();
    v.push(a);
    v.push(b);
    assert(note_views(v@) =~= seq![a@, b@]);
    v
}

fn none() -> (v: Vec<Note>)
    ensures
        note_views(v@) == Seq::<NoteView>::empty(),
{
    let v: Vec<Note> = Vec::new();
    assert(note_views(v@) =~= Seq::<NoteView>::empty());
    v
}

fn text_of(s: &str, tail: &str) -> (r: String)
    ensures
        r@ == s@ + tail@,
{
    let mut r = owned(s);
    append_str(&mut r, tail);
    r
}

impl Lifecycle {
    /// A machine for the managed servers that `cfg` describes, not started.
    pub fn new(cfg: &CmfCfg) -> (m: Self)
        ensures
            m@.servers == crate::config::servers_of(*cfg),
            m@.host == cfg.local_host@,
            m@.auto_install == cfg.auto_install,
            m@.auto_update == cfg.auto_update,
            m@.stage == Stage::Start,
            m@.version is None,
    {
        Lifecycle {
            servers: cfg.effective_servers(),
            host: cfg.local_host.clone(),
            auto_install: cfg.auto_install,
            auto_update: cfg.auto_update,
            stage: Stage::Start,
            version: None,
        }
    }

    /// Configured server `i`.
    pub fn server(&self, i: usize) -> (s: &CmfServer)
        requires
            i < self@.servers.len(),
        ensures
            (s.id@, s.model@, s.port) == self@.servers[i as int],
    {
        &self.servers[i]
    }

    /// The configured servers.
    pub fn servers(&self) -> (v: &Vec<CmfServer>)
        ensures
            server_views(v@) == self@.servers,
    {
        &self.servers
    }

    /// The host the servers bind to.
    pub fn host(&self) -> (h: &str)
        ensures
            h@ == self@.host,
    {
        self.host.as_str()
    }

    fn running_from(&mut self, i: usize) -> (a: Action)
        ensures
            (final(self)@, a) == running_from(old(self)@, i as int),
    {
        if i < self.servers.len() {
            self.stage = Stage::Running(i);
            Action::CheckRunning(i)
        } else {
            self.stage = Stage::Done;
            Action::Done
        }
    }

    fn spawn_from(&mut self, i: usize) -> (a: Action)
        ensures
            (final(self)@, a) == spawn_from(old(self)@, i as int),
    {
        if i < self.servers.len() {
            self.stage = Stage::Model(i);
            Action::CheckModel(i)
        } else {
            self.running_from(0)
        }
    }

    fn after_version(&mut self) -> (a: Action)
        ensures
            (final(self)@, a) == after_version(old(self)@),
    {
        if self.auto_update {
            self.stage = Stage::Latest;
            Action::FetchLatest
        } else {
            self.spawn_from(0)
        }
    }

    fn stop(&mut self) -> (r: (Action, Vec<Note>))
        ensures
            (final(self)@, r.0, note_views(r.1@)) == (
                with_stage(old(self)@, Stage::Done),
                Action::Done,
                Seq::<NoteView>::empty(),
            ),
    {
        self.stage = Stage::Done;
        (Action::Done, none())
    }

    /// Takes what came of the last action: moves to the next stage, says what
    /// to do next and what to record.
    pub fn step(&mut self, ev: Event) -> (r: (Action, Vec<Note>))
        ensures
            (final(self)@, r.0, note_views(r.1@)) == next(old(self)@, ev@),
    {
        let n = self.servers.len();
        match (self.stage, ev) {
            (Stage::Start, Event::Begin) => {
                if n == 0 {
                    self.stop()
                } else {
                    self.stage = Stage::Probe;
                    (Action::ProbeVersion, one(Note::Init))
                }
            },
            (Stage::Probe, Event::Version(v)) => {
                match v {
                    Some(x) => {
                        self.version = Some(x.clone());
                        let a = self.after_version();
                        (a, one(Note::Installed(Some(x))))
                    },
                    None => {
                        if self.auto_install {
                            self.stage = Stage::Install;
                            let msg = owned("cortiq not found — installing cortiq-cli from crates.io (this compiles, may take a few minutes)…");
                            (Action::Install { force: false }, one(Note::Log(msg)))
                        } else {
                            self.stage = Stage::Done;
                            let msg = owned("cortiq binary not found (set [cmf].auto_install = true, or install cortiq-cli)");
                            (Action::Done, one(Note::Fail(msg)))
                        }
                    },
                }
            },
            (Stage::Install, Event::Installed(r)) => {
                match r {
                    Ok(()) => {
                        self.stage = Stage::Reprobe;
                        (Action::ProbeVersion, none())
                    },
                    Err(e) => {
                        self.stage = Stage::Done;
                        let msg = text_of("cargo install cortiq-cli failed: ", e.as_str());
                        (Action::Done, one(Note::Fail(msg)))
                    },
                }
            },
            (Stage::Reprobe, Event::Version(v)) => {
                match v {
                    Some(x) => {
                        self.version = Some(x.clone());
                        let a = self.after_version();
                        let ghost xv = x@;
                        let notes = two(Note::Log(owned("installed cortiq-cli")), Note::Installed(Some(x)));
                        assert(seq![NoteView::Log("installed cortiq-cli"@)] + seq![NoteView::Installed(Some(xv))]
                            =~= seq![NoteView::Log("installed cortiq-cli"@), NoteView::Installed(Some(xv))]);
                        (a, notes)
                    },
                    None => {
                        self.version = None;
                        let a = self.after_version();
                        let notes = one(Note::Installed(None));
                        assert(Seq::<NoteView>::empty() + seq![NoteView::Installed(None)] =~= seq![NoteView::Installed(None)]);
                        (a, notes)
                    },
                }
            },
            (Stage::Latest, Event::Latest(l)) => {
                match l {
                    None => {
                        let a = self.spawn_from(0);
                        (a, none())
                    },
                    Some(latest) => {
                        let upgrade = match &self.version {
                            Some(c) => version_lt(c.as_str(), latest.as_str()),
                            None => false,
                        };
                        if upgrade {
                            let mut msg = owned("updating cortiq-cli ");
                            match &self.version {
                                Some(c) => append_str(&mut msg, c.as_str()),
                                None => {},
                            }
                            append_str(&mut msg, " → ");
                            append_str(&mut msg, latest.as_str());
                            append_str(&mut msg, "…");
                            self.stage = Stage::Update;
                            (Action::Install { force: true }, two(Note::Latest(latest), Note::Log(msg)))
                        } else {
                            let a = self.spawn_from(0);
                            (a, one(Note::Latest(latest)))
                        }
                    },
                }
            },
            (Stage::Update, Event::Installed(r)) => {
                match r {
                    Ok(()) => {
                        self.stage = Stage::Updated;
                        (Action::ProbeVersion, none())
                    },
                    Err(e) => {
                        let a = self.spawn_from(0);
                        let msg = text_of("update failed (keeping current): ", e.as_str());
                        (a, one(Note::Log(msg)))
                    },
                }
            },
            (Stage::Updated, Event::Version(v)) => {
                let msg = match &v {
                    Some(x) => text_of("updated to ", x.as_str()),
                    None => text_of("updated to ", "?"),
                };
                self.version = match &v {
                    Some(x) => Some(x.clone()),
                    None => None,
                };
                let a = self.spawn_from(0);
                (a, two(Note::Installed(v), Note::Log(msg)))
            },
            (Stage::Model(i), Event::ModelPresent(b)) => {
                if i < n {
                    if b {
                        let mut msg = owned("starting: cortiq serve ");
                        append_str(&mut msg, self.servers[i].model.as_str());
                        append_str(&mut msg, " --host ");
                        append_str(&mut msg, self.host.as_str());
                        append_str(&mut msg, " --port ");
                        push_dec(&mut msg, self.servers[i].port as u64);
                        self.stage = Stage::Spawn(i);
                        (Action::Spawn(i), one(Note::Log(msg)))
                    } else {
                        let id = self.servers[i].id.clone();
                        let msg = text_of("model file not found: ", self.servers[i].model.as_str());
                        let a = self.spawn_from(i + 1);
                        (a, one(Note::FailServer(id, msg)))
                    }
                } else {
                    self.stop()
                }
            },
            (Stage::Spawn(i), Event::Spawned(r)) => {
                if i < n {
                    let id = self.servers[i].id.clone();
                    let note = match r {
                        Ok(()) => Note::Running(id),
                        Err(e) => Note::FailServer(id, text_of("failed to spawn: ", e.as_str())),
                    };
                    let a = self.spawn_from(i + 1);
                    (a, one(note))
                } else {
                    self.stop()
                }
            },
            (Stage::Running(i), Event::Running(b)) => {
                if i < n {
                    if b {
                        self.stage = Stage::Health(i);
                        (Action::WaitHealthy(i), none())
                    } else {
                        let a = self.running_from(i + 1);
                        (a, none())
                    }
                } else {
                    self.stop()
                }
            },
            (Stage::Health(i), Event::Healthy(b)) => {
                if i < n {
                    let id = self.servers[i].id.clone();
                    let notes = if b {
                        let mut msg = owned("local CMF server ready — '");
                        append_str(&mut msg, id.as_str());
                        append_str(&mut msg, "' at ");
                        let url = crate::cmf::base_url(self.host.as_str(), self.servers[i].port);
                        append_str(&mut msg, url.as_str());
                        two(Note::Healthy(id), Note::Log(msg))
                    } else {
                        one(Note::FailServer(id, owned("did not become healthy in time")))
                    };
                    let a = self.running_from(i + 1);
                    (a, notes)
                } else {
                    self.stop()
                }
            },
            _ => self.stop(),
        }
    }
}

// ───────────────────────────── install on demand ─────────────────────────

/// What an install asked for from the admin panel records before it runs.
pub fn manual_install_start() -> (n: Note)
    ensures
        n@ == NoteView::Log("installing cortiq-cli from crates.io (this compiles — a few minutes)…"@),
{
    Note::Log(owned("installing cortiq-cli from crates.io (this compiles — a few minutes)…"))
}

/// What an install asked for from the admin panel records once it ran:
/// after a success, the version probed then and `installed cortiq-cli
/// <version>` (`?` when none was found); after a failure, the failure.
pub open spec fn manual_install(outcome: Result<Option<Seq<char>>, Seq<char>>) -> Seq<NoteView> {
    match outcome {
        Ok(v) => seq![
            NoteView::Installed(v),
            NoteView::Log(
                "installed cortiq-cli "@ + match v {
                    Some(x) => x,
                    None => "?"@,
                },
            ),
        ],
        Err(e) => seq![NoteView::Fail("cargo install cortiq-cli failed: "@ + e)],
    }
}

pub fn manual_install_notes(outcome: Result<Option<String>, String>) -> (v: Vec<Note>)
    ensures
        note_views(v@) == manual_install(match outcome {
            Ok(v) => Ok(opt_seq(v)),
            Err(e) => Err(e@),
        }),
{
    match outcome {
        Ok(v) => {
            let msg = match &v {
                Some(x) => text_of("installed cortiq-cli ", x.as_str()),
                None => text_of("installed cortiq-cli ", "?"),
            };
            two(Note::Installed(v), Note::Log(msg))
        },
        Err(e) => one(Note::Fail(text_of("cargo install cortiq-cli failed: ", e.as_str()))),
    }
}

/// A finished lifecycle stays finished: whatever comes, it records nothing
/// and asks for nothing.
pub proof fn law_done_is_final(m: LifecycleView, ev: EventView)
    requires
        m.stage == Stage::Done,
    ensures
        next(m, ev) == (m, Action::Done, Seq::<NoteView>::empty()),
{
    assert(with_stage(m, Stage::Done) == m);
}

/// Each outside action is asked for only on the evidence that calls for it:
/// the CLI is installed only when it is missing and installing is allowed,
/// and updated only to a newer published version; a server is spawned only
/// once its model file is known to exist; a health check waits only on a
/// server still marked running.
pub proof fn law_actions_need_evidence(m: LifecycleView, ev: EventView)
    ensures
        next(m, ev).1 == (Action::Install { force: false }) ==> m.stage == Stage::Probe && ev
            == EventView::Version(None) && m.auto_install,
        next(m, ev).1 == (Action::Install { force: true }) ==> m.stage == Stage::Latest && (exists|c: Seq<char>, l: Seq<char>|
            m.version == Some(c) && ev == EventView::Latest(Some(l)) && older(c, l)),
        forall|i: usize|
            next(m, ev).1 == Action::Spawn(i) ==> m.stage == Stage::Model(i) && ev
                == EventView::ModelPresent(true) && i < m.servers.len(),
        forall|i: usize|
            next(m, ev).1 == Action::WaitHealthy(i) ==> m.stage == Stage::Running(i) && ev
                == EventView::Running(true) && i < m.servers.len(),
{
    if m.stage == Stage::Latest {
        match ev {
            EventView::Latest(Some(l)) => match m.version {
                Some(c) => {
                    if next(m, ev).1 == (Action::Install { force: true }) {
                        assert(m.version == Some(c) && ev == EventView::Latest(Some(l)) && older(c, l));
                    }
                },
                None => {},
            },
            _ => {},
        }
    }
}

} // verus!
