//! Local CMF model server lifecycle: the observable status of the managed
//! `cortiq serve` processes (what the admin API shows), the command lines
//! they are started with, and the version logic of the `cortiq` CLI.

use vstd::prelude::*;
use crate::config::{CmfCfg, CmfServer};
use crate::text::{
    append_str, chars_of, dec, is_ws, owned, parse_uint, push_char, push_dec, str_eq,
    string_of_range, trim, trim_bounds,
};

verus! {

/// Observable state of one managed local model server.
pub struct CmfServerStatus {
    /// Pool id it is registered under.
    pub id: String,
    /// Path of the `.cmf` being served.
    pub model: String,
    /// Port the server binds to.
    pub port: u16,
    /// OpenAI base URL the local server is registered under.
    pub base_url: String,
    /// The child `cortiq serve` process has been spawned.
    pub running: bool,
    /// `/healthz` on the local server answered 200.
    pub healthy: bool,
    /// Last fatal error for this server, if any.
    pub last_error: Option<String>,
}

/// Observable state of the managed local CMF layer.
pub struct CmfStatus {
    /// `manage_server` is on and at least one local model is configured.
    pub enabled: bool,
    /// Version reported by `cortiq --version` (None = not installed).
    pub installed_version: Option<String>,
    /// Newest `cortiq-cli` on crates.io (populated when `auto_update` runs).
    pub latest_version: Option<String>,
    /// Per-model server status.
    pub servers: Vec<CmfServerStatus>,
    /// Recent lifecycle log lines.
    pub log: Vec<String>,
}

/// Longest lifecycle log kept by `log`.
pub const LOG_KEEP: usize = 80;

pub open spec fn keep_tail(l: Seq<Seq<char>>, cap: nat) -> Seq<Seq<char>> {
    if l.len() > cap {
        l.skip(l.len() - cap)
    } else {
        l
    }
}

pub open spec fn log_view(l: Seq<String>) -> Seq<Seq<char>> {
    l.map_values(|s: String| s@)
}

/// `http://{host}:{port}/v1`.
pub open spec fn base_url_of(host: Seq<char>, port: u16) -> Seq<char> {
    "http://"@ + host + ":"@ + dec(port as nat) + "/v1"@
}

/// `http://{host}:{port}/healthz`.
pub open spec fn health_url_of(host: Seq<char>, port: u16) -> Seq<char> {
    "http://"@ + host + ":"@ + dec(port as nat) + "/healthz"@
}

/// Index of the status slot of server `id`, if any (the first one).
pub open spec fn slot_of(s: Seq<CmfServerStatus>, id: Seq<char>) -> Option<int> {
    if exists|i: int| 0 <= i < s.len() && s[i].id@ == id {
        Some(choose|i: int| 0 <= i < s.len() && s[i].id@ == id && forall|j: int| 0 <= j < i ==> s[j].id@ != id)
    } else {
        None
    }
}

pub fn base_url(host: &str, port: u16) -> (r: String)
    ensures
        r@ == base_url_of(host@, port),
{
    let mut r = owned("http://");
    append_str(&mut r, host);
    append_str(&mut r, ":");
    push_dec(&mut r, port as u64);
    append_str(&mut r, "/v1");
    r
}

pub fn health_url(host: &str, port: u16) -> (r: String)
    ensures
        r@ == health_url_of(host@, port),
{
    let mut r = owned("http://");
    append_str(&mut r, host);
    append_str(&mut r, ":");
    push_dec(&mut r, port as u64);
    append_str(&mut r, "/healthz");
    r
}

/// The arguments of `cortiq serve` for one server:
/// `serve <model> --host <host> --port <port>`.
pub fn serve_args(server: &CmfServer, host: &str) -> (a: Vec<String>)
    ensures
        log_view(a@) == seq!["serve"@, server.model@, "--host"@, host@, "--port"@, dec(
            server.port as nat,
        )],
{
    let mut a: Vec<String> = Vec::new();
    a.push(owned("serve"));
    a.push(server.model.clone());
    a.push(owned("--host"));
    a.push(owned(host));
    a.push(owned("--port"));
    let mut p = String::new();
    push_dec(&mut p, server.port as u64);
    a.push(p);
    assert(log_view(a@) =~= seq!["serve"@, server.model@, "--host"@, host@, "--port"@, dec(
        server.port as nat,
    )]);
    a
}

impl CmfServerStatus {
    /// A fresh, not yet started status slot for `server` on `host`.
    pub fn fresh(server: &CmfServer, host: &str) -> (st: Self)
        ensures
            st.id@ == server.id@,
            st.model@ == server.model@,
            st.port == server.port,
            st.base_url@ == base_url_of(host@, server.port),
            !st.running,
            !st.healthy,
            st.last_error is None,
    {
        CmfServerStatus {
            id: server.id.clone(),
            model: server.model.clone(),
            port: server.port,
            base_url: base_url(host, server.port),
            running: false,
            healthy: false,
            last_error: None,
        }
    }
}

impl CmfStatus {
    /// Nothing known yet: disabled, no version, no servers, empty log.
    pub fn new() -> (s: Self)
        ensures
            !s.enabled,
            s.installed_version is None,
            s.latest_version is None,
            s.servers@.len() == 0,
            s.log@.len() == 0,
    {
        CmfStatus {
            enabled: false,
            installed_version: None,
            latest_version: None,
            servers: Vec::new(),
            log: Vec::new(),
        }
    }

    /// Appends a lifecycle line, keeping only the last `LOG_KEEP` lines.
    pub fn log(&mut self, msg: String)
        ensures
            log_view(final(self).log@) == keep_tail(log_view(old(self).log@).push(msg@), LOG_KEEP as nat),
            final(self).servers@ == old(self).servers@,
            final(self).enabled == old(self).enabled,
            final(self).installed_version == old(self).installed_version,
            final(self).latest_version == old(self).latest_version,
    {
        let ghost full = log_view(self.log@).push(msg@);
        self.log.push(msg);
        assert(log_view(self.log@) =~= full);
        let n = self.log.len();
        if n > LOG_KEEP {
            let mut kept: Vec<String> = Vec::new();
            let mut i: usize = n - LOG_KEEP;
            while i < n
                invariant
                    n - LOG_KEEP <= i <= n,
                    n == self.log@.len(),
                    n > LOG_KEEP,
                    log_view(self.log@) == full,
                    log_view(kept@) =~= full.subrange(n - LOG_KEEP, i as int),
                decreases n - i,
            {
                let ghost before = kept@;
                kept.push(self.log[i].clone());
                assert(log_view(kept@) =~= log_view(before).push(self.log@[i as int]@));
                assert(full[i as int] == self.log@[i as int]@);
                i += 1;
            }
            self.log = kept;
            assert(full.subrange(n - LOG_KEEP, n as int) =~= full.skip(n - LOG_KEEP));
        }
    }

    /// A failure not tied to one server: `✗ {msg}` goes to the log (which this
    /// path does not trim).
    pub fn fail(&mut self, msg: &str)
        ensures
            log_view(final(self).log@) == log_view(old(self).log@).push("✗ "@ + msg@),
            final(self).servers@ == old(self).servers@,
            final(self).enabled == old(self).enabled,
            final(self).installed_version == old(self).installed_version,
            final(self).latest_version == old(self).latest_version,
    {
        let mut line = owned("✗ ");
        append_str(&mut line, msg);
        let ghost before = log_view(self.log@);
        self.log.push(line);
        assert(log_view(self.log@) =~= before.push("✗ "@ + msg@));
    }

    /// Index of the first status slot of server `id`.
    fn slot(&self, id: &str) -> (r: Option<usize>)
        ensures
            match r {
                Some(i) => i < self.servers@.len() && slot_of(self.servers@, id@) == Some(i as int),
                None => slot_of(self.servers@, id@) is None,
            },
    {
        let mut i: usize = 0;
        while i < self.servers.len()
            invariant
                i <= self.servers@.len(),
                forall|j: int| 0 <= j < i ==> self.servers@[j].id@ != id@,
            decreases self.servers.len() - i,
        {
            if str_eq(self.servers[i].id.as_str(), id) {
                proof {
                    let s = self.servers@;
                    assert(s[i as int].id@ == id@);
                    let k = choose|k: int|
                        0 <= k < s.len() && s[k].id@ == id@ && forall|j: int| 0 <= j < k ==> s[j].id@ != id@;
                    if k < i {
                    } else if k > i {
                        assert(s[i as int].id@ != id@);
                    }
                }
                return Some(i);
            }
            i += 1;
        }
        None
    }

    /// Records a fatal error against server `id` (its slot, if it has one)
    /// and logs `✗ [{id}] {msg}`.
    pub fn fail_server(&mut self, id: &str, msg: &str)
        ensures
            log_view(final(self).log@) == log_view(old(self).log@).push(
                "✗ ["@ + id@ + "] "@ + msg@,
            ),
            final(self).servers@.len() == old(self).servers@.len(),
            match slot_of(old(self).servers@, id@) {
                Some(i) => {
                    &&& final(self).servers@[i].last_error matches Some(e) && e@ == msg@
                    &&& final(self).servers@[i].id == old(self).servers@[i].id
                    &&& final(self).servers@[i].model == old(self).servers@[i].model
                    &&& final(self).servers@[i].port == old(self).servers@[i].port
                    &&& final(self).servers@[i].base_url == old(self).servers@[i].base_url
                    &&& final(self).servers@[i].running == old(self).servers@[i].running
                    &&& final(self).servers@[i].healthy == old(self).servers@[i].healthy
                    &&& forall|j: int|
                        0 <= j < old(self).servers@.len() && j != i ==> final(self).servers@[j]
                            == old(self).servers@[j]
                },
                None => final(self).servers@ == old(self).servers@,
            },
            final(self).enabled == old(self).enabled,
            final(self).installed_version == old(self).installed_version,
            final(self).latest_version == old(self).latest_version,
    {
        match self.slot(id) {
            Some(i) => {
                let mut sv = self.servers.remove(i);
                sv.last_error = Some(owned(msg));
                self.servers.insert(i, sv);
            },
            None => {},
        }
        let mut line = owned("✗ [");
        append_str(&mut line, id);
        append_str(&mut line, "] ");
        append_str(&mut line, msg);
        let ghost before = log_view(self.log@);
        self.log.push(line);
        assert(log_view(self.log@) =~= before.push("✗ ["@ + id@ + "] "@ + msg@));
    }

    /// Seeds one not-yet-started slot per configured server and marks the
    /// layer enabled.
    pub fn init_servers(&mut self, servers: &Vec<CmfServer>, host: &str)
        ensures
            final(self).enabled,
            final(self).servers@.len() == servers@.len(),
            forall|i: int|
                0 <= i < servers@.len() ==> {
                    let st = #[trigger] final(self).servers@[i];
                    &&& st.id@ == servers@[i].id@
                    &&& st.model@ == servers@[i].model@
                    &&& st.port == servers@[i].port
                    &&& st.base_url@ == base_url_of(host@, servers@[i].port)
                    &&& !st.running
                    &&& !st.healthy
                    &&& st.last_error is None
                },
            log_view(final(self).log@) == log_view(old(self).log@),
            final(self).installed_version == old(self).installed_version,
            final(self).latest_version == old(self).latest_version,
    {
        self.enabled = true;
        let mut v: Vec<CmfServerStatus> = Vec::new();
        let mut i: usize = 0;
        while i < servers.len()
            invariant
                i <= servers@.len(),
                v@.len() == i,
                forall|k: int|
                    0 <= k < i ==> {
                        let st = #[trigger] v@[k];
                        &&& st.id@ == servers@[k].id@
                        &&& st.model@ == servers@[k].model@
                        &&& st.port == servers@[k].port
                        &&& st.base_url@ == base_url_of(host@, servers@[k].port)
                        &&& !st.running
                        &&& !st.healthy
                        &&& st.last_error is None
                    },
            decreases servers.len() - i,
        {
            v.push(CmfServerStatus::fresh(&servers[i], host));
            i += 1;
        }
        self.servers = v;
    }

    fn set_flags(&mut self, id: &str, running: Option<bool>, healthy: Option<bool>)
        ensures
            final(self).servers@.len() == old(self).servers@.len(),
            match slot_of(old(self).servers@, id@) {
                Some(i) => {
                    &&& final(self).servers@[i].id == old(self).servers@[i].id
                    &&& final(self).servers@[i].last_error == old(self).servers@[i].last_error
                    &&& final(self).servers@[i].model == old(self).servers@[i].model
                    &&& final(self).servers@[i].port == old(self).servers@[i].port
                    &&& final(self).servers@[i].base_url == old(self).servers@[i].base_url
                    &&& final(self).servers@[i].running == match running {
                        Some(b) => b,
                        None => old(self).servers@[i].running,
                    }
                    &&& final(self).servers@[i].healthy == match healthy {
                        Some(b) => b,
                        None => old(self).servers@[i].healthy,
                    }
                    &&& forall|j: int|
                        0 <= j < old(self).servers@.len() && j != i ==> final(self).servers@[j]
                            == old(self).servers@[j]
                },
                None => final(self).servers@ == old(self).servers@,
            },
            final(self).log@ == old(self).log@,
            final(self).enabled == old(self).enabled,
            final(self).installed_version == old(self).installed_version,
            final(self).latest_version == old(self).latest_version,
    {
        match self.slot(id) {
            Some(i) => {
                let mut sv = self.servers.remove(i);
                match running {
                    Some(b) => {
                        sv.running = b;
                    },
                    None => {},
                }
                match healthy {
                    Some(b) => {
                        sv.healthy = b;
                    },
                    None => {},
                }
                self.servers.insert(i, sv);
            },
            None => {},
        }
    }

    /// Marks server `id` spawned (or not).
    pub fn set_running(&mut self, id: &str, running: bool)
        ensures
            final(self).servers@.len() == old(self).servers@.len(),
            match slot_of(old(self).servers@, id@) {
                Some(i) => {
                    &&& final(self).servers@[i].id == old(self).servers@[i].id
                    &&& final(self).servers@[i].running == running
                    &&& final(self).servers@[i].model == old(self).servers@[i].model
                    &&& final(self).servers@[i].port == old(self).servers@[i].port
                    &&& final(self).servers@[i].base_url == old(self).servers@[i].base_url
                    &&& final(self).servers@[i].healthy == old(self).servers@[i].healthy
                    &&& final(self).servers@[i].last_error == old(self).servers@[i].last_error
                    &&& forall|j: int|
                        0 <= j < old(self).servers@.len() && j != i ==> final(self).servers@[j]
                            == old(self).servers@[j]
                },
                None => final(self).servers@ == old(self).servers@,
            },
            final(self).log@ == old(self).log@,
            final(self).enabled == old(self).enabled,
            final(self).installed_version == old(self).installed_version,
            final(self).latest_version == old(self).latest_version,
    {
        self.set_flags(id, Some(running), None)
    }

    /// Marks server `id` answering its health check (or not).
    pub fn set_healthy(&mut self, id: &str, healthy: bool)
        ensures
            final(self).servers@.len() == old(self).servers@.len(),
            match slot_of(old(self).servers@, id@) {
                Some(i) => {
                    &&& final(self).servers@[i].id == old(self).servers@[i].id
                    &&& final(self).servers@[i].healthy == healthy
                    &&& final(self).servers@[i].model == old(self).servers@[i].model
                    &&& final(self).servers@[i].port == old(self).servers@[i].port
                    &&& final(self).servers@[i].base_url == old(self).servers@[i].base_url
                    &&& final(self).servers@[i].running == old(self).servers@[i].running
                    &&& final(self).servers@[i].last_error == old(self).servers@[i].last_error
                    &&& forall|j: int|
                        0 <= j < old(self).servers@.len() && j != i ==> final(self).servers@[j]
                            == old(self).servers@[j]
                },
                None => final(self).servers@ == old(self).servers@,
            },
            final(self).log@ == old(self).log@,
            final(self).enabled == old(self).enabled,
            final(self).installed_version == old(self).installed_version,
            final(self).latest_version == old(self).latest_version,
    {
        self.set_flags(id, None, Some(healthy))
    }

    /// Whether some slot of server `id` is marked spawned.
    pub fn is_running(&self, id: &str) -> (b: bool)
        ensures
            b == exists|i: int|
                0 <= i < self.servers@.len() && self.servers@[i].id@ == id@
                    && self.servers@[i].running,
    {
        let mut i: usize = 0;
        while i < self.servers.len()
            invariant
                i <= self.servers@.len(),
                forall|j: int|
                    0 <= j < i ==> !(self.servers@[j].id@ == id@ && self.servers@[j].running),
            decreases self.servers.len() - i,
        {
            if self.servers[i].running && str_eq(self.servers[i].id.as_str(), id) {
                return true;
            }
            i += 1;
        }
        false
    }

    /// Whether a server marked running binds `port`.
    pub fn serves_port(&self, port: u16) -> (b: bool)
        ensures
            b == exists|i: int|
                0 <= i < self.servers@.len() && self.servers@[i].port == port
                    && self.servers@[i].running,
    {
        let mut i: usize = 0;
        while i < self.servers.len()
            invariant
                i <= self.servers@.len(),
                forall|j: int|
                    0 <= j < i ==> !(self.servers@[j].port == port && self.servers@[j].running),
            decreases self.servers.len() - i,
        {
            if self.servers[i].running && self.servers[i].port == port {
                return true;
            }
            i += 1;
        }
        false
    }

    /// All servers stopped: none running, none healthy.
    pub fn mark_all_stopped(&mut self)
        ensures
            final(self).servers@.len() == old(self).servers@.len(),
            forall|i: int|
                0 <= i < old(self).servers@.len() ==> {
                    let st = #[trigger] final(self).servers@[i];
                    &&& !st.running
                    &&& !st.healthy
                    &&& st.id == old(self).servers@[i].id
                    &&& st.model == old(self).servers@[i].model
                    &&& st.port == old(self).servers@[i].port
                    &&& st.base_url == old(self).servers@[i].base_url
                    &&& st.last_error == old(self).servers@[i].last_error
                },
            final(self).log@ == old(self).log@,
            final(self).enabled == old(self).enabled,
            final(self).installed_version == old(self).installed_version,
            final(self).latest_version == old(self).latest_version,
    {
        let mut i: usize = 0;
        while i < self.servers.len()
            invariant
                i <= self.servers@.len(),
                self.servers@.len() == old(self).servers@.len(),
                forall|k: int|
                    0 <= k < i ==> {
                        let st = #[trigger] self.servers@[k];
                        &&& !st.running
                        &&& !st.healthy
                        &&& st.id == old(self).servers@[k].id
                        &&& st.model == old(self).servers@[k].model
                        &&& st.port == old(self).servers@[k].port
                        &&& st.base_url == old(self).servers@[k].base_url
                        &&& st.last_error == old(self).servers@[k].last_error
                    },
                forall|k: int| i <= k < self.servers@.len() ==> self.servers@[k] == old(self).servers@[k],
                self.log@ == old(self).log@,
                self.enabled == old(self).enabled,
                self.installed_version == old(self).installed_version,
                self.latest_version == old(self).latest_version,
            decreases self.servers.len() - i,
        {
            let mut sv = self.servers.remove(i);
            sv.running = false;
            sv.healthy = false;
            self.servers.insert(i, sv);
            i += 1;
        }
    }

    /// Forgets every slot of server `id`, keeping the others in order.
    pub fn forget(&mut self, id: &str)
        ensures
            final(self).servers@ == old(self).servers@.filter(|s: CmfServerStatus| s.id@ != id@),
            final(self).log@ == old(self).log@,
            final(self).enabled == old(self).enabled,
            final(self).installed_version == old(self).installed_version,
            final(self).latest_version == old(self).latest_version,
    {
        let ghost src = self.servers@;
        let ghost keep = |s: CmfServerStatus| s.id@ != id@;
        proof {
            reveal(Seq::filter);
        }
        let mut i: usize = 0;
        let ghost mut j: int = 0;
        assert(src.take(0).filter(keep) =~= Seq::<CmfServerStatus>::empty());
        assert(src.skip(0) =~= src);
        while i < self.servers.len()
            invariant
                0 <= j <= src.len(),
                i <= self.servers@.len(),
                self.servers@.take(i as int) == src.take(j).filter(keep),
                self.servers@.skip(i as int) == src.skip(j),
                keep == (|s: CmfServerStatus| s.id@ != id@),
                self.log@ == old(self).log@,
                self.enabled == old(self).enabled,
                self.installed_version == old(self).installed_version,
                self.latest_version == old(self).latest_version,
            decreases self.servers@.len() - i,
        {
            let ghost before = self.servers@;
            assert(before.skip(i as int).len() == before.len() - i);
            assert(src.skip(j).len() == src.len() - j);
            assert(j < src.len());
            assert(before.skip(i as int)[0] == before[i as int]);
            assert(src.skip(j)[0] == src[j]);
            assert(src.take(j + 1).drop_last() =~= src.take(j));
            if str_eq(self.servers[i].id.as_str(), id) {
                self.servers.remove(i);
                assert(!keep(src[j]));
                assert(src.take(j + 1).last() == src[j]);
                assert(src.take(j + 1).filter(keep) =~= src.take(j).filter(keep)) by {
                    reveal(Seq::filter);
                }
                assert(self.servers@.take(i as int) =~= before.take(i as int));
                assert(self.servers@.skip(i as int) =~= before.skip(i as int).skip(1));
                assert(src.skip(j).skip(1) =~= src.skip(j + 1));
            } else {
                assert(keep(src[j]));
                assert(src.take(j + 1).last() == src[j]);
                assert(src.take(j + 1).filter(keep) =~= src.take(j).filter(keep).push(src[j])) by {
                    reveal(Seq::filter);
                }
                assert(self.servers@.take(i + 1) =~= before.take(i as int).push(before[i as int]));
                assert(before.skip(i + 1) =~= before.skip(i as int).skip(1));
                assert(src.skip(j).skip(1) =~= src.skip(j + 1));
                i += 1;
            }
            proof {
                j = j + 1;
            }
        }
        assert(self.servers@.take(i as int) =~= self.servers@);
        assert(src.skip(j).len() == 0);
        assert(src.take(j) =~= src);
    }
}

// ───────────────────────────── versions ─────────────────────────────────────

/// `s.split(c)`: the pieces between occurrences of `c` (always at least one).
pub open spec fn split_on(s: Seq<char>, c: char) -> Seq<Seq<char>>
    decreases s.len(),
{
    if s.len() == 0 {
        seq![Seq::empty()]
    } else {
        let p = split_on(s.drop_last(), c);
        if s.last() == c {
            p.push(Seq::empty())
        } else {
            p.update(p.len() - 1, p.last().push(s.last()))
        }
    }
}

proof fn lemma_split_nonempty(s: Seq<char>, c: char)
    ensures
        split_on(s, c).len() >= 1,
    decreases s.len(),
{
    if s.len() > 0 {
        lemma_split_nonempty(s.drop_last(), c);
    }
}

/// Component `i` of a dotted version: the trimmed piece as a `u32`, or 0 when
/// it is missing or not a number.
pub open spec fn ver_part(pieces: Seq<Seq<char>>, i: int) -> nat {
    if 0 <= i < pieces.len() {
        match parse_uint(trim(pieces[i]), u32::MAX as nat) {
            Some(v) => v,
            None => 0,
        }
    } else {
        0
    }
}

/// `(major, minor, patch)` of a version string.
pub open spec fn version_of(s: Seq<char>) -> (nat, nat, nat) {
    let p = split_on(s, '.');
    (ver_part(p, 0), ver_part(p, 1), ver_part(p, 2))
}

/// Lexicographic order on version triples.
pub open spec fn triple_lt(a: (nat, nat, nat), b: (nat, nat, nat)) -> bool {
    a.0 < b.0 || (a.0 == b.0 && (a.1 < b.1 || (a.1 == b.1 && a.2 < b.2)))
}

pub open spec fn older(a: Seq<char>, b: Seq<char>) -> bool {
    triple_lt(version_of(a), version_of(b))
}

/// The dot-separated pieces of `s`.
fn split_dots(s: &str) -> (p: Vec<Vec<char>>)
    ensures
        p@.map_values(|v: Vec<char>| v@) == split_on(s@, '.'),
{
    let v = chars_of(s);
    let mut done: Vec<Vec<char>> = Vec::new();
    let mut cur: Vec<char> = Vec::new();
    let mut i: usize = 0;
    while i < v.len()
        invariant
            i <= v.len(),
            v@ == s@,
            done@.map_values(|w: Vec<char>| w@).push(cur@) == split_on(v@.take(i as int), '.'),
        decreases v.len() - i,
    {
        let ghost before = done@.map_values(|w: Vec<char>| w@).push(cur@);
        assert(v@.take(i + 1).drop_last() =~= v@.take(i as int));
        proof {
            lemma_split_nonempty(v@.take(i as int), '.');
        }
        let c = v[i];
        if c == '.' {
            let piece = cur;
            done.push(piece);
            cur = Vec::new();
            assert(done@.map_values(|w: Vec<char>| w@).push(cur@) =~= before.push(Seq::empty()));
        } else {
            cur.push(c);
            assert(done@.map_values(|w: Vec<char>| w@).push(cur@) =~= before.update(
                before.len() - 1,
                before.last().push(c),
            ));
        }
        i += 1;
    }
    assert(v@.take(v.len() as int) =~= v@);
    done.push(cur);
    done
}

/// The value of one version piece: trimmed, parsed as `u32`, 0 otherwise.
fn piece_value(w: &Vec<char>) -> (n: u32)
    ensures
        n as nat == match parse_uint(trim(w@), u32::MAX as nat) {
            Some(v) => v,
            None => 0,
        },
{
    let (a, b) = trim_bounds(w);
    let mut t: Vec<char> = Vec::new();
    let mut i: usize = a;
    while i < b
        invariant
            a <= i <= b <= w@.len(),
            t@ == w@.subrange(a as int, i as int),
        decreases b - i,
    {
        t.push(w[i]);
        assert(w@.subrange(a as int, i + 1) =~= w@.subrange(a as int, i as int).push(w@[i as int]));
        i += 1;
    }
    match crate::text::parse_uint_exec(&t, 4294967295u64) {
        Some(x) => x as u32,
        None => 0,
    }
}

/// `(major, minor, patch)` of a version string such as `0.2.1`: each
/// dot-separated piece trimmed and parsed, missing or malformed pieces 0.
pub fn parse_ver(s: &str) -> (r: (u32, u32, u32))
    ensures
        (r.0 as nat, r.1 as nat, r.2 as nat) == version_of(s@),
{
    let p = split_dots(s);
    let ghost pv = p@.map_values(|v: Vec<char>| v@);
    let x = if p.len() > 0 {
        piece_value(&p[0])
    } else {
        0
    };
    let y = if p.len() > 1 {
        piece_value(&p[1])
    } else {
        0
    };
    let z = if p.len() > 2 {
        piece_value(&p[2])
    } else {
        0
    };
    (x, y, z)
}

/// Whether version `a` is older than version `b`.
pub fn version_lt(a: &str, b: &str) -> (r: bool)
    ensures
        r == older(a@, b@),
{
    let (a0, a1, a2) = parse_ver(a);
    let (b0, b1, b2) = parse_ver(b);
    a0 < b0 || (a0 == b0 && (a1 < b1 || (a1 == b1 && a2 < b2)))
}

/// No version is older than itself.
pub proof fn law_version_order_irreflexive(a: Seq<char>)
    ensures
        !older(a, a),
{
}

/// "Older" is transitive, and of two versions at most one is older.
pub proof fn law_version_order_strict(a: Seq<char>, b: Seq<char>, c: Seq<char>)
    ensures
        older(a, b) && older(b, c) ==> older(a, c),
        !(older(a, b) && older(b, a)),
{
}

/// An older version never has a higher major number, nor, with the same
/// major, a higher minor; and two versions with the same numbers are not
/// older than each other.
pub proof fn law_older_compares_major_first(a: Seq<char>, b: Seq<char>)
    ensures
        older(a, b) ==> version_of(a).0 <= version_of(b).0,
        older(a, b) && version_of(a).0 == version_of(b).0 ==> version_of(a).1 <= version_of(b).1,
        version_of(a).0 < version_of(b).0 ==> older(a, b),
        version_of(a) == version_of(b) ==> !older(a, b),
{
}

/// The run of non-whitespace characters that ends `s`.
pub open spec fn trailing_run(s: Seq<char>) -> Seq<char>
    decreases s.len(),
{
    if s.len() == 0 || is_ws(s.last()) {
        Seq::empty()
    } else {
        trailing_run(s.drop_last()).push(s.last())
    }
}

/// The last whitespace-separated word of `s` (empty when `s` is all
/// whitespace).
pub open spec fn last_word(s: Seq<char>) -> Seq<char>
    decreases s.len(),
{
    if s.len() == 0 {
        Seq::empty()
    } else if is_ws(s.last()) {
        last_word(s.drop_last())
    } else {
        trailing_run(s)
    }
}

/// The version in the output of `cortiq --version` (e.g. `cortiq 0.1.2` gives
/// `0.1.2`): its last whitespace-separated word, if it has one.
pub fn version_token(out: &str) -> (r: Option<String>)
    ensures
        match r {
            Some(w) => w@ == last_word(out@) && w@.len() > 0,
            None => last_word(out@).len() == 0,
        },
{
    let v = chars_of(out);
    let mut e: usize = v.len();
    assert(v@.take(v.len() as int) =~= v@);
    while e > 0 && crate::text::is_ws_char(v[e - 1])
        invariant
            e <= v.len(),
            v@ == out@,
            last_word(v@) == last_word(v@.take(e as int)),
        decreases e,
    {
        assert(v@.take(e as int).drop_last() =~= v@.take(e - 1));
        e -= 1;
    }
    if e == 0 {
        return None;
    }
    let mut start: usize = e;
    assert(v@.subrange(e as int, e as int) =~= Seq::<char>::empty());
    assert(v@.take(e as int) =~= v@.take(e as int));
    while start > 0 && !crate::text::is_ws_char(v[start - 1])
        invariant
            start <= e <= v.len(),
            v@ == out@,
            trailing_run(v@.take(e as int)) == trailing_run(v@.take(start as int)) + v@.subrange(
                start as int,
                e as int,
            ),
        decreases start,
    {
        let ghost t = v@.take(start as int);
        assert(t.drop_last() =~= v@.take(start - 1));
        assert(v@.subrange(start - 1, e as int) =~= seq![t.last()] + v@.subrange(
            start as int,
            e as int,
        ));
        assert(trailing_run(t.drop_last()).push(t.last()) + v@.subrange(start as int, e as int)
            =~= trailing_run(t.drop_last()) + v@.subrange(start - 1, e as int));
        start -= 1;
    }
    assert(trailing_run(v@.take(start as int)) =~= Seq::<char>::empty());
    assert(v@.take(e as int).last() == v@[e - 1]);
    Some(string_of_range(&v, start, e))
}

// ───────────────────────────── the registry's answer ─────────────────────

/// What `serde_json` reads as `crate.newest_version` from a crates.io crate
/// answer (`None` when the body is not JSON or that value is not a string).
pub uninterp spec fn crates_newest(body: Seq<char>) -> Option<Seq<char>>;

/// Reads a crates.io answer with `serde_json::from_str` and picks
/// `crate.newest_version`. The contract only names the result.
#[verifier::external_body]
fn parse_newest(body: &str) -> (r: Option<String>)
    ensures
        crate::model::opt_view(r) == crates_newest(body@),
{
    let v: serde_json::Value = serde_json::from_str(body).ok()?;
    v["crate"]["newest_version"].as_str().map(|s| s.to_string())
}

/// The newest published version named by a crates.io crate answer.
pub fn newest_version(body: &str) -> (r: Option<String>)
    ensures
        crate::model::opt_view(r) == crates_newest(body@),
{
    parse_newest(body)
}

} // verus!
