//! The decisions behind the admin API: authentication, what a key or secret
//! looks like to the panel, and the configuration edits the panel makes
//! (models, keys, routing repair after managed servers change). Every edit
//! leaves a configuration that still references only known models.

use vstd::prelude::*;
use crate::config::{
    AdminCfg, ApiKeyCfg, CmfCfg, CmfServer, Config, ModelCfg, RoutingCfg, TierTargets, join_path,
};
use crate::text::{
    append_str, chars_of, contains_sub, dec, hex_padded, owned, push_char, push_dec,
    push_hex_padded, starts_with, str_eq, string_of_range, trim, views,
};

verus! {

/// An admin API failure: HTTP status and message.
pub struct ApiError {
    pub status: u16,
    pub message: String,
}

impl ApiError {
    /// 400 Bad Request.
    pub fn bad(msg: String) -> (e: Self)
        ensures
            e.status == 400,
            e.message@ == msg@,
    {
        ApiError { status: 400, message: msg }
    }

    /// 404 Not Found.
    pub fn not_found(msg: String) -> (e: Self)
        ensures
            e.status == 404,
            e.message@ == msg@,
    {
        ApiError { status: 404, message: msg }
    }
}

// ───────────────────────────── authentication ─────────────────────────────

/// Compares two byte strings in time that depends only on their lengths.
pub fn constant_time_eq(a: &[u8], b: &[u8]) -> (r: bool)
    ensures
        r == (a@ == b@),
{
    if a.len() != b.len() {
        return false;
    }
    let mut diff: u8 = 0;
    let mut i: usize = 0;
    while i < a.len()
        invariant
            i <= a@.len(),
            a@.len() == b@.len(),
            (diff == 0) == (forall|j: int| 0 <= j < i ==> a@[j] == b@[j]),
        decreases a.len() - i,
    {
        let x = a[i];
        let y = b[i];
        let d = diff | (x ^ y);
        assert((d == 0) == (diff == 0 && x == y)) by (bit_vector)
            requires
                d == diff | (x ^ y),
        ;
        diff = d;
        i += 1;
    }
    if diff == 0 {
        assert(a@ =~= b@);
    }
    diff == 0
}

/// The token of an `Authorization` header value: without a leading
/// `Bearer ` (or `bearer `), trimmed; empty when there is no header.
pub open spec fn bearer_of(header: Option<Seq<char>>) -> Seq<char> {
    match header {
        Some(v) => if starts_with(v, "Bearer "@) {
            trim(v.skip(7))
        } else if starts_with(v, "bearer "@) {
            trim(v.skip(7))
        } else {
            trim(v)
        },
        None => Seq::empty(),
    }
}

pub fn bearer_token(header: Option<&str>) -> (t: String)
    ensures
        t@ == bearer_of(crate::secrets::opt_ref_view(header)),
{
    match header {
        Some(v) => {
            let c = chars_of(v);
            let upper = chars_of("Bearer ");
            let lower = chars_of("bearer ");
            if crate::text::starts_with_exec(&c, &upper) || crate::text::starts_with_exec(&c, &lower) {
                proof {
                    reveal_strlit("Bearer ");
                    reveal_strlit("bearer ");
                }
                let rest = string_of_range(&c, 7, c.len());
                assert(rest@ =~= v@.skip(7));
                crate::text::trimmed(rest.as_str())
            } else {
                crate::text::trimmed(v)
            }
        },
        None => String::new(),
    }
}

/// Whether a request with bearer `token` may use the admin API: an admin
/// token must be configured and the two must match.
pub fn authorized(expected: &str, token: &str) -> (ok: bool)
    ensures
        ok == (expected@.len() > 0 && token@ == expected@),
{
    if expected.is_empty() {
        return false;
    }
    let r = constant_time_eq(token.as_bytes(), expected.as_bytes());
    proof {
        vstd::utf8::encode_utf8_decode_utf8(token@);
        vstd::utf8::encode_utf8_decode_utf8(expected@);
    }
    r
}

// ───────────────────────────── tokens and masks ───────────────────────────

/// Two lower-case hex digits per byte.
pub open spec fn hex_bytes(b: Seq<u8>) -> Seq<char>
    decreases b.len(),
{
    if b.len() == 0 {
        Seq::empty()
    } else {
        hex_bytes(b.drop_last()) + hex_padded(b.last() as nat, false, 2)
    }
}

/// Lower-case hex of a byte string.
pub fn hex_of(b: &Vec<u8>) -> (s: String)
    ensures
        s@ == hex_bytes(b@),
{
    let mut s = String::new();
    let mut i: usize = 0;
    while i < b.len()
        invariant
            i <= b@.len(),
            s@ == hex_bytes(b@.take(i as int)),
        decreases b.len() - i,
    {
        push_hex_padded(&mut s, b[i] as u64, false, 2);
        assert(b@.take(i + 1).drop_last() =~= b@.take(i as int));
        i += 1;
    }
    assert(b@.take(b@.len() as int) =~= b@);
    s
}

/// Byte `i` of the time-based stand-in for random bytes.
pub open spec fn fallback_byte(t: u128, i: nat) -> u8 {
    (((t >> (((i % 16) * 8) as u128)) as u8) ^ ((i as u8) as int * 31 % 256) as u8) as u8
}

/// `n` bytes derived from the time `t` (nanoseconds), used only when the
/// system's random source fails.
pub fn fallback_bytes(t: u128, n: usize) -> (b: Vec<u8>)
    ensures
        b@.len() == n,
        forall|i: int| 0 <= i < n ==> #[trigger] b@[i] == fallback_byte(t, i as nat),
{
    let mut b: Vec<u8> = Vec::new();
    let mut i: usize = 0;
    while i < n
        invariant
            i <= n,
            b@.len() == i,
            forall|k: int| 0 <= k < i ==> #[trigger] b@[k] == fallback_byte(t, k as nat),
        decreases n - i,
    {
        let shift: u128 = ((i % 16) * 8) as u128;
        let low: u8 = (t >> shift) as u8;
        let m: u8 = (i as u8).wrapping_mul(31);
        assert(m == ((i as u8) as int * 31 % 256) as u8) by (bit_vector)
            requires
                m == (i as u8).wrapping_mul(31),
        ;
        b.push(low ^ m);
        i += 1;
    }
    b
}

/// Fills `buf` from the operating system's random source
/// (`getrandom::getrandom`); false when that source fails. The contents
/// are whatever the source produced: nothing is claimed of them but their
/// number.
#[verifier::external_body]
fn os_random(buf: &mut Vec<u8>) -> (ok: bool)
    ensures
        final(buf)@.len() == old(buf)@.len(),
{
    getrandom::getrandom(buf.as_mut_slice()).is_ok()
}

/// Nanoseconds since the Unix epoch (0 when the clock is before it), from
/// `SystemTime::now`. Nothing is claimed of the value.
#[verifier::external_body]
fn now_nanos() -> (t: u128) {
    std::time::SystemTime::now().duration_since(std::time::UNIX_EPOCH).unwrap_or_default().as_nanos()
}

/// A random hex token from `n_bytes` bytes of the OS random source (or,
/// if that fails, bytes derived from the clock): `2 * n_bytes` lower-case
/// hex digits.
pub fn random_token(n_bytes: usize) -> (s: String)
    ensures
        exists|b: Seq<u8>| b.len() == n_bytes && s@ == hex_bytes(b),
{
    let mut buf: Vec<u8> = Vec::new();
    let mut i: usize = 0;
    while i < n_bytes
        invariant
            i <= n_bytes,
            buf@.len() == i,
        decreases n_bytes - i,
    {
        buf.push(0);
        i += 1;
    }
    if !os_random(&mut buf) {
        buf = fallback_bytes(now_nanos(), n_bytes);
    }
    hex_of(&buf)
}

/// How the panel shows a key: up to 8 characters become that many bullets
/// (at least 3); a longer key shows its first 6 and last 4 characters.
pub open spec fn masked(k: Seq<char>) -> Seq<char> {
    if k.len() <= 8 {
        Seq::new(if k.len() < 3 {
            3
        } else {
            k.len()
        }, |i: int| '•')
    } else {
        k.take(6) + seq!['…'] + k.skip(k.len() - 4)
    }
}

pub fn mask_key(key: &str) -> (r: String)
    ensures
        r@ == masked(key@),
{
    let c = chars_of(key);
    let n = c.len();
    if n <= 8 {
        let m = if n < 3 {
            3
        } else {
            n
        };
        let mut r = String::new();
        let mut i: usize = 0;
        while i < m
            invariant
                i <= m,
                r@ == Seq::new(i as nat, |j: int| '•'),
            decreases m - i,
        {
            push_char(&mut r, '•');
            assert(r@ =~= Seq::new((i + 1) as nat, |j: int| '•'));
            i += 1;
        }
        r
    } else {
        let mut r = string_of_range(&c, 0, 6);
        push_char(&mut r, '…');
        let tail = string_of_range(&c, n - 4, n);
        append_str(&mut r, tail.as_str());
        assert(r@ =~= key@.take(6) + seq!['…'] + key@.skip(key@.len() - 4));
        r
    }
}

// ───────────────────────────── provider errors ────────────────────────────

/// What `serde_json` reads from a provider's error body: the strings at
/// `error.message`, at `error` and at `message` (each where it is a string);
/// `None` when the body is not JSON.
pub uninterp spec fn json_error_fields(body: Seq<char>) -> Option<(Option<Seq<char>>, Option<Seq<char>>, Option<Seq<char>>)>;

/// Reads a provider's error body with `serde_json::from_str` and picks the
/// three candidate message fields out of it. The contract only names the
/// result.
#[verifier::external_body]
fn error_fields_of(body: &str) -> (r: Option<(Option<String>, Option<String>, Option<String>)>)
    ensures
        match r {
            Some((a, b, c)) => json_error_fields(body@) == Some(
                (crate::model::opt_view(a), crate::model::opt_view(b), crate::model::opt_view(c)),
            ),
            None => json_error_fields(body@) is None,
        },
{
    let v: serde_json::Value = serde_json::from_str(body).ok()?;
    Some((
        v["error"]["message"].as_str().map(|s| s.to_string()),
        v["error"].as_str().map(|s| s.to_string()),
        v["message"].as_str().map(|s| s.to_string()),
    ))
}

/// The message of a provider's JSON error body: `error.message`, else
/// `error`, else `message` (the first that is a string).
pub open spec fn json_error_message(body: Seq<char>) -> Option<Seq<char>> {
    match json_error_fields(body) {
        Some((Some(m), _, _)) => Some(m),
        Some((None, Some(m), _)) => Some(m),
        Some((None, None, m)) => m,
        None => None,
    }
}

fn error_message_of(body: &str) -> (m: Option<String>)
    ensures
        crate::model::opt_view(m) == json_error_message(body@),
{
    match error_fields_of(body) {
        Some((Some(m), _, _)) => Some(m),
        Some((None, Some(m), _)) => Some(m),
        Some((None, None, m)) => m,
        None => None,
    }
}

/// `"<status>: <message>"` for a known message, else `"HTTP <status>"`.
pub open spec fn provider_error_line(message: Option<Seq<char>>, status: u16) -> Seq<char> {
    match message {
        Some(m) => dec(status as nat) + ": "@ + m,
        None => "HTTP "@ + dec(status as nat),
    }
}

/// The error line for a failed provider call, given the message read from
/// its body.
pub fn error_line(message: Option<String>, status: u16) -> (r: String)
    ensures
        r@ == provider_error_line(crate::model::opt_view(message), status),
{
    match message {
        Some(m) => {
            let mut r = String::new();
            push_dec(&mut r, status as u64);
            append_str(&mut r, ": ");
            append_str(&mut r, m.as_str());
            r
        },
        None => {
            let mut r = owned("HTTP ");
            push_dec(&mut r, status as u64);
            r
        },
    }
}

/// Concise error line from a provider's error body and status.
pub fn provider_err(body: &str, status: u16) -> (r: String)
    ensures
        r@ == provider_error_line(json_error_message(body@), status),
{
    error_line(error_message_of(body), status)
}

/// A probe failure as shown: the error, with a hint to check the key when it
/// looks like an authentication failure.
pub open spec fn probe_error_text(msg: Seq<char>) -> Seq<char> {
    if contains_sub(msg, "401"@) || contains_sub(msg, "Unauthorized"@) || contains_sub(
        msg,
        "User not found"@,
    ) || contains_sub(msg, "No auth"@) {
        msg
            + " — check the API key (for OpenRouter use an inference key, not a provisioning/management key)"@
    } else {
        msg
    }
}

pub fn probe_error(msg: &str) -> (r: String)
    ensures
        r@ == probe_error_text(msg@),
{
    let mut r = owned(msg);
    if crate::text::str_contains(msg, "401") || crate::text::str_contains(msg, "Unauthorized")
        || crate::text::str_contains(msg, "User not found") || crate::text::str_contains(
        msg,
        "No auth",
    ) {
        append_str(
            &mut r,
            " — check the API key (for OpenRouter use an inference key, not a provisioning/management key)",
        );
    }
    r
}

// ───────────────────────────── models ─────────────────────────────────────

/// The local `.cmf` behind a pool model: only for a model served by the local
/// CMF server whose model name is a plain file stem, `<models_dir>/<stem>.cmf`.
pub open spec fn cmf_file_of(cmf: CmfCfg, m: ModelCfg) -> Option<Seq<char>> {
    let local = m.base_url@ == cmf.cortiq_server_url@ || contains_sub(
        m.base_url@,
        cmf.local_host@ + ":"@ + dec(cmf.local_port as nat),
    );
    let stem = trim(m.model@);
    if !local || stem.len() == 0 || contains_sub(stem, "/"@) || contains_sub(stem, ".."@) {
        None
    } else {
        Some(join_path(cmf.models_dir@, stem + ".cmf"@))
    }
}

pub fn cmf_file_for_model(cmf: &CmfCfg, m: &ModelCfg) -> (r: Option<String>)
    ensures
        crate::model::opt_view(r) == cmf_file_of(*cmf, *m),
{
    let mut hostport = cmf.local_host.clone();
    append_str(&mut hostport, ":");
    push_dec(&mut hostport, cmf.local_port as u64);
    let local = str_eq(m.base_url.as_str(), cmf.cortiq_server_url.as_str())
        || crate::text::str_contains(m.base_url.as_str(), hostport.as_str());
    let stem = crate::text::trimmed(m.model.as_str());
    if !local || stem.as_str().is_empty() || crate::text::str_contains(stem.as_str(), "/")
        || crate::text::str_contains(stem.as_str(), "..") {
        return None;
    }
    let mut file = stem;
    append_str(&mut file, ".cmf");
    Some(crate::config::data_path(cmf.models_dir.as_str(), file.as_str()))
}

/// Whether some model of the pool has id `id`.
pub open spec fn pool_has(cfg: Config, id: Seq<char>) -> bool {
    crate::config::model_ids(cfg.models@).contains(id)
}

fn pool_position(cfg: &Config, id: &str) -> (r: Option<usize>)
    ensures
        match r {
            Some(i) => i < cfg.models@.len() && cfg.models@[i as int].id@ == id@ && pool_has(
                *cfg,
                id@,
            ),
            None => !pool_has(*cfg, id@),
        },
        forall|j: int|
            0 <= j < (match r {
                Some(i) => i as int,
                None => cfg.models@.len() as int,
            }) ==> cfg.models@[j].id@ != id@,
{
    let mut i: usize = 0;
    while i < cfg.models.len()
        invariant
            i <= cfg.models@.len(),
            forall|j: int| 0 <= j < i ==> cfg.models@[j].id@ != id@,
        decreases cfg.models.len() - i,
    {
        if str_eq(cfg.models[i].id.as_str(), id) {
            assert(crate::config::model_ids(cfg.models@)[i as int] == id@);
            return Some(i);
        }
        i += 1;
    }
    proof {
        if pool_has(*cfg, id@) {
            let j = choose|j: int|
                0 <= j < crate::config::model_ids(cfg.models@).len() && crate::config::model_ids(
                    cfg.models@,
                )[j] == id@;
            assert(cfg.models@[j].id@ == id@);
        }
    }
    None
}

/// A new pool model may be added when no model has its id yet.
pub fn check_new_model(cfg: &Config, id: &str) -> (r: Result<(), ApiError>)
    ensures
        match r {
            Ok(()) => !pool_has(*cfg, id@),
            Err(e) => pool_has(*cfg, id@) && e.status == 400 && e.message@ == "model id '"@ + id@
                + "' already exists"@,
        },
{
    match pool_position(cfg, id) {
        None => Ok(()),
        Some(_) => {
            let mut m = owned("model id '");
            append_str(&mut m, id);
            append_str(&mut m, "' already exists");
            Err(ApiError::bad(m))
        },
    }
}

/// Where model `id` is, for replacing it by a model with id `new_id`: it must
/// exist, and a renamed model must not take another model's id.
pub fn model_slot(cfg: &Config, id: &str, new_id: &str) -> (r: Result<usize, ApiError>)
    ensures
        match r {
            Ok(i) => i < cfg.models@.len() && cfg.models@[i as int].id@ == id@ && (new_id@ == id@
                || !pool_has(*cfg, new_id@)),
            Err(e) => if !pool_has(*cfg, id@) {
                e.status == 404 && e.message@ == "model '"@ + id@ + "' not found"@
            } else {
                new_id@ != id@ && pool_has(*cfg, new_id@) && e.status == 400 && e.message@
                    == "model id '"@ + new_id@ + "' already exists"@
            },
        },
{
    let i = match pool_position(cfg, id) {
        Some(i) => i,
        None => {
            let mut m = owned("model '");
            append_str(&mut m, id);
            append_str(&mut m, "' not found");
            return Err(ApiError::not_found(m));
        },
    };
    proof {
        assert(crate::config::model_ids(cfg.models@)[i as int] == id@);
    }
    if !str_eq(new_id, id) {
        match pool_position(cfg, new_id) {
            Some(_) => {
                let mut m = owned("model id '");
                append_str(&mut m, new_id);
                append_str(&mut m, "' already exists");
                return Err(ApiError::bad(m));
            },

            None => {},
        }
    }
    Ok(i)
}

/// The model `id` names, for a probe: the first pool model with that id, or
/// the managed local server.
pub open spec fn probe_first(cfg: Config, id: Seq<char>, i: int) -> bool {
    0 <= i < cfg.models@.len() && cfg.models@[i].id@ == id && forall|j: int|
        0 <= j < i ==> cfg.models@[j].id@ != id
}

/// Whether model `id` can be probed with a chat call: a pool model can unless
/// its provider is `anthropic`, the managed local server (an OpenAI-compatible
/// endpoint) can, and any other id is not found.
pub fn probe_supported(cfg: &Config, id: &str) -> (r: Result<bool, ApiError>)
    ensures
        match r {
            Ok(b) => if pool_has(*cfg, id@) {
                exists|i: int|
                    probe_first(*cfg, id@, i) && b == (cfg.models@[i].provider@ != "anthropic"@)
            } else {
                crate::config::has_local_model(cfg.cmf) && cfg.cmf.model_id@ == id@ && b
            },
            Err(e) => !pool_has(*cfg, id@) && !(crate::config::has_local_model(cfg.cmf)
                && cfg.cmf.model_id@ == id@) && e.status == 404 && e.message@ == "model '"@ + id@
                + "' not found"@,
        },
{
    match pool_position(cfg, id) {
        Some(i) => {
            assert(probe_first(*cfg, id@, i as int));
            Ok(!str_eq(cfg.models[i].provider.as_str(), "anthropic"))
        },
        None => {
            if cfg.cmf.has_local() && str_eq(cfg.cmf.model_id.as_str(), id) {
                Ok(true)
            } else {
                let mut m = owned("model '");
                append_str(&mut m, id);
                append_str(&mut m, "' not found");
                Err(ApiError::not_found(m))
            }
        },
    }
}

/// Every value but `id`.
pub open spec fn other_than(id: Seq<char>) -> spec_fn(Seq<char>) -> bool {
    |x: Seq<char>| x != id
}

/// Every model whose id is not `id`.
pub open spec fn model_other_than(id: Seq<char>) -> spec_fn(ModelCfg) -> bool {
    |m: ModelCfg| m.id@ != id
}

/// A tier with `id` taken out: a list loses every occurrence, a single
/// target equal to `id` becomes an empty list.
pub open spec fn stripped(old: TierTargets, new: TierTargets, id: Seq<char>) -> bool {
    match old {
        TierTargets::List(v) => new matches TierTargets::List(w) && views(w@) == views(v@).filter(
            other_than(id),
        ),
        TierTargets::One(s) => if s@ == id {
            new matches TierTargets::List(w) && w@.len() == 0
        } else {
            new matches TierTargets::One(t) && t@ == s@
        },
    }
}

fn without_id(v: &Vec<String>, id: &str) -> (w: Vec<String>)
    ensures
        views(w@) == views(v@).filter(other_than(id@)),
{
    let ghost keep = other_than(id@);
    let mut w: Vec<String> = Vec::new();
    let mut i: usize = 0;
    while i < v.len()
        invariant
            i <= v@.len(),
            keep == other_than(id@),
            views(w@) == views(v@.take(i as int)).filter(keep),
        decreases v.len() - i,
    {
        let ghost before = views(w@);
        assert(views(v@.take(i + 1)) =~= views(v@.take(i as int)).push(v@[i as int]@));
        if !str_eq(v[i].as_str(), id) {
            w.push(v[i].clone());
            assert(views(w@) =~= before.push(v@[i as int]@));
        }
        assert(views(v@.take(i + 1)).filter(keep) == if keep(v@[i as int]@) {
            views(v@.take(i as int)).filter(keep).push(v@[i as int]@)
        } else {
            views(v@.take(i as int)).filter(keep)
        }) by {
            reveal(Seq::filter);
            assert(views(v@.take(i + 1)).drop_last() =~= views(v@.take(i as int)));
        }
        i += 1;
    }
    assert(v@.take(v@.len() as int) =~= v@);
    w
}

/// Drops model `id` from routing (the default and every tier) so the
/// configuration stays valid once the model is gone.
pub fn strip_id_from_routing(routing: &mut RoutingCfg, id: &str)
    ensures
        final(routing).default@ == if old(routing).default@ == id@ {
            Seq::empty()
        } else {
            old(routing).default@
        },
        final(routing).tiers@.len() == old(routing).tiers@.len(),
        forall|k: int|
            #![trigger final(routing).tiers@[k]]
            0 <= k < old(routing).tiers@.len() ==> final(routing).tiers@[k].0@ == old(
                routing,
            ).tiers@[k].0@ && stripped(old(routing).tiers@[k].1, final(routing).tiers@[k].1, id@),
        final(routing).policy == old(routing).policy,
{
    if str_eq(routing.default.as_str(), id) {
        routing.default = String::new();
    }
    let mut k: usize = 0;
    while k < routing.tiers.len()
        invariant
            k <= routing.tiers@.len(),
            routing.tiers@.len() == old(routing).tiers@.len(),
            routing.default@ == if old(routing).default@ == id@ {
                Seq::empty()
            } else {
                old(routing).default@
            },
            routing.policy == old(routing).policy,
            forall|j: int|
                #![trigger routing.tiers@[j]]
                0 <= j < k ==> routing.tiers@[j].0@ == old(routing).tiers@[j].0@ && stripped(
                    old(routing).tiers@[j].1,
                    routing.tiers@[j].1,
                    id@,
                ),
            forall|j: int| k <= j < routing.tiers@.len() ==> routing.tiers@[j] == old(routing).tiers@[j],
        decreases routing.tiers.len() - k,
    {
        let ghost before = routing.tiers@;
        assert(before[k as int] == old(routing).tiers@[k as int]);
        let (name, t) = routing.tiers.remove(k);
        let nt = match t {
            TierTargets::List(v) => TierTargets::List(without_id(&v, id)),
            TierTargets::One(s) => if str_eq(s.as_str(), id) {
                TierTargets::List(Vec::new())
            } else {
                TierTargets::One(s)
            },
        };
        let ghost ntv = nt;
        assert(stripped(old(routing).tiers@[k as int].1, ntv, id@));
        routing.tiers.insert(k, (name, nt));
        assert(routing.tiers@[k as int].1 == ntv);
        assert(routing.tiers@[k as int].0@ == old(routing).tiers@[k as int].0@);
        assert forall|j: int| 0 <= j < k implies routing.tiers@[j] == before[j] by {}
        assert forall|j: int| k < j < routing.tiers@.len() implies routing.tiers@[j] == before[j] by {}
        k += 1;
    }
}

/// Whether two paths are the same path as `std::path::Path` compares them
/// (by their components).
pub uninterp spec fn same_path(a: Seq<char>, b: Seq<char>) -> bool;

/// `Path::new(a) == Path::new(b)`. Claimed: the result is `same_path` of the
/// two texts, and texts that are equal are the same path (`Path` is `Eq`).
#[verifier::external_body]
fn paths_equal(a: &str, b: &str) -> (r: bool)
    ensures
        r == same_path(a@, b@),
        a@ == b@ ==> r,
{
    std::path::Path::new(a) == std::path::Path::new(b)
}

/// Whether the managed server list or some pool model still uses `path` as
/// its local `.cmf` file (paths compared as paths).
pub open spec fn path_in_use(cfg: Config, path: Seq<char>) -> bool {
    (exists|i: int|
        0 <= i < crate::config::servers_of(cfg.cmf).len() && same_path(
            #[trigger] crate::config::servers_of(cfg.cmf)[i].1,
            path,
        )) || (exists|j: int|
        0 <= j < cfg.models@.len() && (cmf_file_of(cfg.cmf, #[trigger] cfg.models@[j]) matches Some(
            f,
        ) && same_path(f, path)))
}

pub fn cmf_path_referenced(cfg: &Config, path: &str) -> (b: bool)
    ensures
        b == path_in_use(*cfg, path@),
{
    let servers = cfg.cmf.effective_servers();
    let ghost sv = crate::config::server_views(servers@);
    let mut i: usize = 0;
    while i < servers.len()
        invariant
            i <= servers@.len(),
            sv == crate::config::server_views(servers@),
            sv == crate::config::servers_of(cfg.cmf),
            forall|t: int| 0 <= t < i ==> !same_path(#[trigger] sv[t].1, path@),
        decreases servers.len() - i,
    {
        assert(sv[i as int].1 == servers@[i as int].model@);
        if paths_equal(servers[i].model.as_str(), path) {
            return true;
        }
        i += 1;
    }
    let mut j: usize = 0;
    while j < cfg.models.len()
        invariant
            j <= cfg.models@.len(),
            forall|t: int| 0 <= t < j ==> !(cmf_file_of(cfg.cmf, #[trigger] cfg.models@[t]) matches Some(
                f,
            ) && same_path(f, path@)),
        decreases cfg.models.len() - j,
    {
        match cmf_file_for_model(&cfg.cmf, &cfg.models[j]) {
            Some(p) => {
                if paths_equal(p.as_str(), path) {
                    return true;
                }
            },
            None => {},
        }
        j += 1;
    }
    false
}

/// Removes every pool model with id `id`, keeping the others in order.
fn drop_models(models: &mut Vec<ModelCfg>, id: &str)
    ensures
        final(models)@ == old(models)@.filter(model_other_than(id@)),
{
    let ghost src = models@;
    let ghost keep = model_other_than(id@);
    let mut i: usize = 0;
    let ghost mut j: int = 0;
    assert(src.take(0).filter(keep) =~= Seq::<ModelCfg>::empty()) by {
        reveal(Seq::filter);
    }
    assert(src.skip(0) =~= src);
    while i < models.len()
        invariant
            0 <= j <= src.len(),
            i <= models@.len(),
            models@.take(i as int) == src.take(j).filter(keep),
            models@.skip(i as int) == src.skip(j),
            keep == model_other_than(id@),
        decreases models@.len() - i,
    {
        let ghost before = models@;
        assert(before.skip(i as int).len() == before.len() - i);
        assert(src.skip(j).len() == src.len() - j);
        assert(before.skip(i as int)[0] == before[i as int]);
        assert(src.skip(j)[0] == src[j]);
        assert(src.take(j + 1).drop_last() =~= src.take(j));
        if str_eq(models[i].id.as_str(), id) {
            models.remove(i);
            assert(!keep(src[j]));
            assert(src.take(j + 1).filter(keep) =~= src.take(j).filter(keep)) by {
                reveal(Seq::filter);
            }
            assert(models@.take(i as int) =~= before.take(i as int));
            assert(models@.skip(i as int) =~= before.skip(i as int).skip(1));
            assert(src.skip(j).skip(1) =~= src.skip(j + 1));
        } else {
            assert(keep(src[j]));
            assert(src.take(j + 1).filter(keep) =~= src.take(j).filter(keep).push(src[j])) by {
                reveal(Seq::filter);
            }
            assert(models@.take(i + 1) =~= before.take(i as int).push(before[i as int]));
            assert(before.skip(i + 1) =~= before.skip(i as int).skip(1));
            assert(src.skip(j).skip(1) =~= src.skip(j + 1));
            i += 1;
        }
        proof {
            j = j + 1;
        }
    }
    assert(models@.take(i as int) =~= models@);
    assert(src.skip(j).len() == 0);
    assert(src.take(j) =~= src);
}

/// Ids after removing `id` from a pool: the ids of the kept models.
proof fn lemma_ids_filter(ms: Seq<ModelCfg>, id: Seq<char>)
    ensures
        crate::config::model_ids(ms.filter(model_other_than(id))) == crate::config::model_ids(
            ms,
        ).filter(other_than(id)),
    decreases ms.len(),
{
    reveal(Seq::filter);
    if ms.len() > 0 {
        lemma_ids_filter(ms.drop_last(), id);
        assert(crate::config::model_ids(ms).drop_last() =~= crate::config::model_ids(ms.drop_last()));
        let f = ms.drop_last().filter(model_other_than(id));
        assert(crate::config::model_ids(f.push(ms.last())) =~= crate::config::model_ids(f).push(
            ms.last().id@,
        ));
    } else {
        assert(crate::config::model_ids(ms.filter(model_other_than(id))) =~= Seq::<Seq<char>>::empty());
    }
}

/// What deleting a model left to do outside the configuration.
pub struct Removal {
    /// The model was the managed local server (its process is stopped).
    pub managed: bool,
    /// The `.cmf` file to delete, when no other model still uses it.
    pub file: Option<String>,
}

pub open spec fn is_managed(cfg: Config, id: Seq<char>) -> bool {
    crate::config::has_local_model(cfg.cmf) && cfg.cmf.model_id@ == id && !pool_has(cfg, id)
}

/// Deletes model `id` from the configuration: the managed local model (its
/// server switched off) or a pool model; either way the id leaves routing.
/// Reports the `.cmf` file to delete, unless another model still uses it.
pub fn remove_model(cfg: &mut Config, id: &str) -> (r: Result<Removal, ApiError>)
    ensures
        is_managed(*old(cfg), id@) ==> (r matches Ok(rm) && rm.managed && final(cfg).cmf.local_model@
            == Seq::<char>::empty() && !final(cfg).cmf.manage_server && final(cfg).models@
            == old(cfg).models@ && crate::model::opt_view(rm.file) == (if path_in_use(
            *final(cfg),
            old(cfg).cmf.local_model@,
        ) {
            None
        } else {
            Some(old(cfg).cmf.local_model@)
        })),
        !is_managed(*old(cfg), id@) && !pool_has(*old(cfg), id@) ==> (r matches Err(e) && e.status
            == 404 && e.message@ == "model '"@ + id@ + "' not found"@ && *final(cfg) == *old(cfg)),
        !is_managed(*old(cfg), id@) && pool_has(*old(cfg), id@) ==> (r matches Ok(rm) && !rm.managed
            && crate::config::model_ids(final(cfg).models@) == crate::config::model_ids(
            old(cfg).models@,
        ).filter(other_than(id@))),
        r is Ok ==> final(cfg).routing.default@ == (if old(cfg).routing.default@ == id@ {
            Seq::empty()
        } else {
            old(cfg).routing.default@
        }) && final(cfg).routing.tiers@.len() == old(cfg).routing.tiers@.len() && forall|k: int|
            0 <= k < old(cfg).routing.tiers@.len() ==> stripped(
                old(cfg).routing.tiers@[k].1,
                #[trigger] final(cfg).routing.tiers@[k].1,
                id@,
            ),
{
    let in_pool = pool_position(cfg, id);
    if cfg.cmf.has_local() && str_eq(cfg.cmf.model_id.as_str(), id) && in_pool.is_none() {
        let path = cfg.cmf.local_model.clone();
        cfg.cmf.local_model = String::new();
        cfg.cmf.manage_server = false;
        strip_id_from_routing(&mut cfg.routing, id);
        let shared = cmf_path_referenced(cfg, path.as_str());
        return Ok(Removal { managed: true, file: if shared { None } else { Some(path) } });
    }
    let i = match in_pool {
        Some(i) => i,
        None => {
            let mut m = owned("model '");
            append_str(&mut m, id);
            append_str(&mut m, "' not found");
            return Err(ApiError::not_found(m));
        },
    };
    let victim_file = cmf_file_for_model(&cfg.cmf, &cfg.models[i]);
    drop_models(&mut cfg.models, id);
    strip_id_from_routing(&mut cfg.routing, id);
    let file = match victim_file {
        Some(p) => if cmf_path_referenced(cfg, p.as_str()) {
            None
        } else {
            Some(p)
        },
        None => None,
    };
    proof {
        lemma_ids_filter(old(cfg).models@, id@);
    }
    Ok(Removal { managed: false, file })
}

// ───────────────────────────── routing repair ─────────────────────────────

pub type ServerView = (Seq<char>, Seq<char>, u16);

/// An id routing may keep: a pool model or a managed server.
pub open spec fn is_known(ids: Seq<Seq<char>>, servers: Seq<ServerView>, x: Seq<char>) -> bool {
    ids.contains(x) || exists|i: int| 0 <= i < servers.len() && #[trigger] servers[i].0 == x
}

/// The server that now holds `port` (the last one listed with it).
pub open spec fn port_owner(servers: Seq<ServerView>, port: u16) -> Option<Seq<char>>
    decreases servers.len(),
{
    if servers.len() == 0 {
        None
    } else if servers.last().2 == port {
        Some(servers.last().0)
    } else {
        port_owner(servers.drop_last(), port)
    }
}

/// The replacement of a vanished server id: the server now on the port the
/// old server used (the last such old entry counts).
pub open spec fn renamed_to(
    old: Seq<ServerView>,
    ids: Seq<Seq<char>>,
    servers: Seq<ServerView>,
    x: Seq<char>,
) -> Option<Seq<char>>
    decreases old.len(),
{
    if old.len() == 0 {
        None
    } else if old.last().0 == x && !is_known(ids, servers, x) && port_owner(servers, old.last().2) is Some {
        port_owner(servers, old.last().2)
    } else {
        renamed_to(old.drop_last(), ids, servers, x)
    }
}

/// What routing keeps of id `x`: itself when known, its replacement when it
/// was renamed, nothing otherwise.
pub open spec fn fixed_id(
    old: Seq<ServerView>,
    ids: Seq<Seq<char>>,
    servers: Seq<ServerView>,
    x: Seq<char>,
) -> Option<Seq<char>> {
    if is_known(ids, servers, x) {
        Some(x)
    } else {
        renamed_to(old, ids, servers, x)
    }
}

/// A tier list with every id fixed, dropped ids left out and repeats removed.
pub open spec fn healed_list(
    l: Seq<Seq<char>>,
    old: Seq<ServerView>,
    ids: Seq<Seq<char>>,
    servers: Seq<ServerView>,
) -> Seq<Seq<char>>
    decreases l.len(),
{
    if l.len() == 0 {
        Seq::empty()
    } else {
        let acc = healed_list(l.drop_last(), old, ids, servers);
        match fixed_id(old, ids, servers, l.last()) {
            Some(n) => if acc.contains(n) {
                acc
            } else {
                acc.push(n)
            },
            None => acc,
        }
    }
}

/// The repaired default: fixed when it names something, and when that leaves
/// it empty, the first managed server, else the first pool model.
pub open spec fn healed_default(
    d: Seq<char>,
    old: Seq<ServerView>,
    ids: Seq<Seq<char>>,
    servers: Seq<ServerView>,
) -> Seq<char> {
    let d1 = if d.len() > 0 {
        match fixed_id(old, ids, servers, d) {
            Some(n) => n,
            None => Seq::empty(),
        }
    } else {
        d
    };
    if d1.len() > 0 {
        d1
    } else if servers.len() > 0 {
        servers[0].0
    } else if ids.len() > 0 {
        ids[0]
    } else {
        Seq::empty()
    }
}

fn known_exec(ids: &Vec<String>, servers: &Vec<CmfServer>, x: &str) -> (b: bool)
    ensures
        b == is_known(views(ids@), crate::config::server_views(servers@), x@),
{
    if crate::text::strings_contain(ids, x) {
        return true;
    }
    let ghost sv = crate::config::server_views(servers@);
    let mut i: usize = 0;
    while i < servers.len()
        invariant
            i <= servers@.len(),
            sv == crate::config::server_views(servers@),
            forall|t: int| 0 <= t < i ==> sv[t].0 != x@,
        decreases servers.len() - i,
    {
        if str_eq(servers[i].id.as_str(), x) {
            assert(sv[i as int].0 == x@);
            return true;
        }
        i += 1;
    }
    false
}

fn port_owner_exec(servers: &Vec<CmfServer>, port: u16) -> (r: Option<String>)
    ensures
        crate::model::opt_view(r) == port_owner(crate::config::server_views(servers@), port),
{
    let ghost sv = crate::config::server_views(servers@);
    let mut n: usize = servers.len();
    assert(sv.take(sv.len() as int) =~= sv);
    while n > 0
        invariant
            n <= servers@.len(),
            sv == crate::config::server_views(servers@),
            port_owner(sv, port) == port_owner(sv.take(n as int), port),
        decreases n,
    {
        assert(sv.take(n as int).drop_last() =~= sv.take(n - 1));
        if servers[n - 1].port == port {
            return Some(servers[n - 1].id.clone());
        }
        n -= 1;
    }
    None
}

fn fix_exec(old: &Vec<CmfServer>, ids: &Vec<String>, servers: &Vec<CmfServer>, x: &str) -> (r:
    Option<String>)
    ensures
        crate::model::opt_view(r) == fixed_id(
            crate::config::server_views(old@),
            views(ids@),
            crate::config::server_views(servers@),
            x@,
        ),
{
    if known_exec(ids, servers, x) {
        return Some(owned(x));
    }
    let ghost ov = crate::config::server_views(old@);
    let ghost iv = views(ids@);
    let ghost sv = crate::config::server_views(servers@);
    let mut n: usize = old.len();
    assert(ov.take(ov.len() as int) =~= ov);
    while n > 0
        invariant
            n <= old@.len(),
            ov == crate::config::server_views(old@),
            iv == views(ids@),
            sv == crate::config::server_views(servers@),
            !is_known(iv, sv, x@),
            renamed_to(ov, iv, sv, x@) == renamed_to(ov.take(n as int), iv, sv, x@),
        decreases n,
    {
        assert(ov.take(n as int).drop_last() =~= ov.take(n - 1));
        if str_eq(old[n - 1].id.as_str(), x) {
            let owner = port_owner_exec(servers, old[n - 1].port);
            if owner.is_some() {
                return owner;
            }
        }
        n -= 1;
    }
    None
}

/// After the managed servers changed from `old_servers`, rewrites routing so
/// it names only models that exist: a removed server whose port a new server
/// now holds is renamed to it, other vanished ids are dropped, and an emptied
/// default falls back to the first managed server, then the first pool model.
pub fn heal_routing_after_cmf_change(cfg: &mut Config, old_servers: &Vec<CmfServer>)
    ensures
        ({
            let ov = crate::config::server_views(old_servers@);
            let ids = crate::config::model_ids(old(cfg).models@);
            let sv = crate::config::servers_of(old(cfg).cmf);
            &&& final(cfg).routing.default@ == healed_default(old(cfg).routing.default@, ov, ids, sv)
            &&& final(cfg).routing.tiers@.len() == old(cfg).routing.tiers@.len()
            &&& forall|k: int|
                #![trigger final(cfg).routing.tiers@[k]]
                0 <= k < old(cfg).routing.tiers@.len() ==> final(cfg).routing.tiers@[k].0@ == old(
                    cfg,
                ).routing.tiers@[k].0@ && (final(cfg).routing.tiers@[k].1 matches TierTargets::List(w)
                    && views(w@) == healed_list(
                    crate::config::tier_list(old(cfg).routing.tiers@[k].1),
                    ov,
                    ids,
                    sv,
                ))
            &&& final(cfg).models == old(cfg).models
            &&& final(cfg).cmf == old(cfg).cmf
            &&& final(cfg).routing.policy == old(cfg).routing.policy
        }),
{
    let servers = cfg.cmf.effective_servers();
    let mut ids: Vec<String> = Vec::new();
    let mut t: usize = 0;
    while t < cfg.models.len()
        invariant
            t <= cfg.models@.len(),
            views(ids@) =~= crate::config::model_ids(cfg.models@.take(t as int)),
            *cfg == *old(cfg),
        decreases cfg.models.len() - t,
    {
        let ghost before = views(ids@);
        ids.push(cfg.models[t].id.clone());
        assert(views(ids@) =~= before.push(cfg.models@[t as int].id@));
        assert(cfg.models@.take(t + 1) =~= cfg.models@.take(t as int).push(cfg.models@[t as int]));
        assert(crate::config::model_ids(cfg.models@.take(t + 1)) =~= crate::config::model_ids(
            cfg.models@.take(t as int),
        ).push(cfg.models@[t as int].id@));
        t += 1;
    }
    assert(cfg.models@.take(cfg.models@.len() as int) =~= cfg.models@);
    let ghost ov = crate::config::server_views(old_servers@);
    let ghost iv = views(ids@);
    let ghost sv = crate::config::server_views(servers@);
    assert(iv == crate::config::model_ids(old(cfg).models@));
    assert(sv == crate::config::servers_of(old(cfg).cmf));
    if !cfg.routing.default.as_str().is_empty() {
        cfg.routing.default = match fix_exec(old_servers, &ids, &servers, cfg.routing.default.as_str()) {
            Some(n) => n,
            None => String::new(),
        };
    }
    if cfg.routing.default.as_str().is_empty() {
        if servers.len() > 0 {
            cfg.routing.default = servers[0].id.clone();
        } else if ids.len() > 0 {
            cfg.routing.default = ids[0].clone();
        }
    }
    let ghost start_tiers = cfg.routing.tiers@;
    let ghost new_default = cfg.routing.default;
    assert(new_default@ == healed_default(old(cfg).routing.default@, ov, iv, sv));
    let mut k: usize = 0;
    while k < cfg.routing.tiers.len()
        invariant
            k <= cfg.routing.tiers@.len(),
            cfg.models == old(cfg).models,
            cfg.cmf == old(cfg).cmf,
            cfg.routing.policy == old(cfg).routing.policy,
            cfg.routing.default == new_default,
            start_tiers == old(cfg).routing.tiers@,
            cfg.routing.tiers@.len() == start_tiers.len(),
            ov == crate::config::server_views(old_servers@),
            iv == views(ids@),
            sv == crate::config::server_views(servers@),
            forall|j: int|
                #![trigger cfg.routing.tiers@[j]]
                0 <= j < k ==> cfg.routing.tiers@[j].0@ == start_tiers[j].0@ && (cfg.routing.tiers@[j].1 matches TierTargets::List(w)
                    && views(w@) == healed_list(crate::config::tier_list(start_tiers[j].1), ov, iv, sv)),
            forall|j: int| k <= j < cfg.routing.tiers@.len() ==> cfg.routing.tiers@[j] == start_tiers[j],
        decreases cfg.routing.tiers.len() - k,
    {
        let ghost before = cfg.routing.tiers@;
        let (name, tt) = cfg.routing.tiers.remove(k);
        let list = crate::config::tier_targets(&tt);
        let mut healed: Vec<String> = Vec::new();
        let mut x: usize = 0;
        while x < list.len()
            invariant
                x <= list@.len(),
                ov == crate::config::server_views(old_servers@),
                iv == views(ids@),
                sv == crate::config::server_views(servers@),
                views(healed@) == healed_list(views(list@).take(x as int), ov, iv, sv),
            decreases list.len() - x,
        {
            assert(views(list@).take(x + 1).drop_last() =~= views(list@).take(x as int));
            match fix_exec(old_servers, &ids, &servers, list[x].as_str()) {
                Some(n) => {
                    if !crate::text::strings_contain(&healed, n.as_str()) {
                        let ghost hb = views(healed@);
                        healed.push(n);
                        assert(views(healed@) =~= hb.push(views(healed@).last()));
                    }
                },
                None => {},
            }
            x += 1;
        }
        assert(views(list@).take(list@.len() as int) =~= views(list@));
        let ghost ntv = TierTargets::List(healed);
        cfg.routing.tiers.insert(k, (name, TierTargets::List(healed)));
        assert forall|j: int| 0 <= j < k implies cfg.routing.tiers@[j] == before[j] by {}
        assert forall|j: int| k < j < cfg.routing.tiers@.len() implies cfg.routing.tiers@[j] == before[j] by {}
        k += 1;
    }
}

proof fn lemma_port_owner_is_server(servers: Seq<ServerView>, port: u16)
    ensures
        port_owner(servers, port) matches Some(n) ==> exists|i: int|
            0 <= i < servers.len() && #[trigger] servers[i].0 == n,
    decreases servers.len(),
{
    if servers.len() > 0 && servers.last().2 != port {
        lemma_port_owner_is_server(servers.drop_last(), port);
        if let Some(n) = port_owner(servers, port) {
            let i = choose|i: int| 0 <= i < servers.drop_last().len() && #[trigger] servers.drop_last()[i].0 == n;
            assert(servers[i].0 == n);
        }
    } else if servers.len() > 0 {
        assert(servers[servers.len() - 1].0 == servers.last().0);
    }
}

proof fn lemma_fixed_is_known(
    old: Seq<ServerView>,
    ids: Seq<Seq<char>>,
    servers: Seq<ServerView>,
    x: Seq<char>,
)
    ensures
        fixed_id(old, ids, servers, x) matches Some(n) ==> is_known(ids, servers, n),
    decreases old.len(),
{
    if !is_known(ids, servers, x) && old.len() > 0 {
        if old.last().0 == x && port_owner(servers, old.last().2) is Some {
            lemma_port_owner_is_server(servers, old.last().2);
        } else {
            lemma_fixed_is_known(old.drop_last(), ids, servers, x);
        }
    }
}

/// After managed servers change, every id a repaired tier names is a pool
/// model or a current managed server.
pub proof fn law_healed_tiers_name_known_models(
    l: Seq<Seq<char>>,
    old: Seq<ServerView>,
    ids: Seq<Seq<char>>,
    servers: Seq<ServerView>,
)
    ensures
        forall|i: int|
            0 <= i < healed_list(l, old, ids, servers).len() ==> is_known(
                ids,
                servers,
                #[trigger] healed_list(l, old, ids, servers)[i],
            ),
        forall|i: int, j: int|
            0 <= i < j < healed_list(l, old, ids, servers).len() ==> healed_list(l, old, ids, servers)[i]
                != healed_list(l, old, ids, servers)[j],
    decreases l.len(),
{
    if l.len() > 0 {
        law_healed_tiers_name_known_models(l.drop_last(), old, ids, servers);
        lemma_fixed_is_known(old, ids, servers, l.last());
        let acc = healed_list(l.drop_last(), old, ids, servers);
        let h = healed_list(l, old, ids, servers);
        assert forall|i: int| 0 <= i < h.len() implies is_known(ids, servers, #[trigger] h[i]) by {
            if i < acc.len() {
                assert(h[i] == acc[i]);
            }
        }
        assert forall|i: int, j: int| 0 <= i < j < h.len() implies h[i] != h[j] by {
            if j < acc.len() {
                assert(h[i] == acc[i] && h[j] == acc[j]);
            } else {
                assert(h[i] == acc[i]);
            }
        }
    }
}

/// A non-empty repaired default names a pool model or a managed server.
pub proof fn law_healed_default_is_known(
    d: Seq<char>,
    old: Seq<ServerView>,
    ids: Seq<Seq<char>>,
    servers: Seq<ServerView>,
)
    ensures
        healed_default(d, old, ids, servers).len() > 0 ==> is_known(
            ids,
            servers,
            healed_default(d, old, ids, servers),
        ),
{
    lemma_fixed_is_known(old, ids, servers, d);
    if servers.len() > 0 {
        assert(servers[0].0 == servers[0].0);
    }
    if ids.len() > 0 {
        assert(ids.contains(ids[0]));
    }
}

/// Once a model is stripped from routing, no tier and not the default names
/// it any more.
pub proof fn law_stripped_id_is_gone(old: TierTargets, new: TierTargets, id: Seq<char>)
    requires
        stripped(old, new, id),
    ensures
        !crate::config::tier_list(new).contains(id),
{
    reveal(Seq::filter);
    match old {
        TierTargets::List(v) => {
            if let TierTargets::List(w) = new {
                assert(views(w@) == views(v@).filter(other_than(id)));
                if views(w@).contains(id) {
                    let i = choose|i: int| 0 <= i < views(w@).len() && views(w@)[i] == id;
                    views(v@).lemma_filter_pred(other_than(id), i);
                }
                assert(crate::config::tier_list(new) =~= views(w@));
            }
        },
        TierTargets::One(s) => {
            if s@ == id {
                if let TierTargets::List(w) = new {
                    assert(crate::config::tier_list(new) =~= Seq::<Seq<char>>::empty());
                }
            } else {
                assert(crate::config::tier_list(new) =~= seq![s@]);
            }
        },
    }
}

// ───────────────────────────── settings, keys, secrets ────────────────────

/// Whether saving new settings needs a restart: a new listen address (main or
/// admin), any cache settings, or a change to which local model is managed.
pub fn settings_need_restart(
    cfg: &Config,
    listen: Option<&String>,
    admin: Option<&AdminCfg>,
    cache_given: bool,
    cmf: Option<&CmfCfg>,
) -> (b: bool)
    ensures
        b == ((listen matches Some(l) && l@ != cfg.listen@) || (admin matches Some(a)
            && crate::model::opt_view(a.listen) != crate::model::opt_view(cfg.admin.listen))
            || cache_given || (cmf matches Some(c) && (c.manage_server != cfg.cmf.manage_server
            || c.local_model@ != cfg.cmf.local_model@))),
{
    let mut restart = false;
    match listen {
        Some(l) => {
            if !str_eq(l.as_str(), cfg.listen.as_str()) {
                restart = true;
            }
        },
        None => {},
    }
    match admin {
        Some(a) => {
            let same = match (&a.listen, &cfg.admin.listen) {
                (Some(x), Some(y)) => str_eq(x.as_str(), y.as_str()),
                (None, None) => true,
                _ => false,
            };
            if !same {
                restart = true;
            }
        },
        None => {},
    }
    if cache_given {
        restart = true;
    }
    match cmf {
        Some(c) => {
            if c.manage_server != cfg.cmf.manage_server || !str_eq(
                c.local_model.as_str(),
                cfg.cmf.local_model.as_str(),
            ) {
                restart = true;
            }
        },
        None => {},
    }
    restart
}

/// The key to create: the one given (trimmed), or `sk-gw-` and a fresh
/// random token when none was given.
pub open spec fn chosen_key(given: Seq<char>, token: Seq<char>) -> Seq<char> {
    if trim(given).len() == 0 {
        "sk-gw-"@ + token
    } else {
        trim(given)
    }
}

pub fn choose_key(given: &str, token: &str) -> (k: String)
    ensures
        k@ == chosen_key(given@, token@),
{
    let t = crate::text::trimmed(given);
    if t.as_str().is_empty() {
        let mut k = owned("sk-gw-");
        append_str(&mut k, token);
        k
    } else {
        t
    }
}

/// Adds a virtual key; refused when the key exists already.
pub fn add_key(cfg: &mut Config, key: ApiKeyCfg) -> (r: Result<(), ApiError>)
    ensures
        (exists|i: int| 0 <= i < old(cfg).api_keys@.len() && #[trigger] old(cfg).api_keys@[i].key@ == key.key@)
            ==> (r matches Err(e) && e.status == 400 && e.message@ == "key already exists"@
            && final(cfg).api_keys@ == old(cfg).api_keys@),
        !(exists|i: int| 0 <= i < old(cfg).api_keys@.len() && #[trigger] old(cfg).api_keys@[i].key@ == key.key@)
            ==> (r is Ok && final(cfg).api_keys@ == old(cfg).api_keys@.push(key)),
        final(cfg).models == old(cfg).models,
        final(cfg).routing == old(cfg).routing,
{
    let mut i: usize = 0;
    while i < cfg.api_keys.len()
        invariant
            i <= cfg.api_keys@.len(),
            *cfg == *old(cfg),
            forall|j: int| 0 <= j < i ==> cfg.api_keys@[j].key@ != key.key@,
        decreases cfg.api_keys.len() - i,
    {
        if str_eq(cfg.api_keys[i].key.as_str(), key.key.as_str()) {
            return Err(ApiError::bad(owned("key already exists")));
        }
        i += 1;
    }
    cfg.api_keys.push(key);
    Ok(())
}

/// Removes a virtual key (every entry with that key); not found when there
/// was none.
pub fn remove_key(cfg: &mut Config, key: &str) -> (r: Result<(), ApiError>)
    ensures
        final(cfg).api_keys@ == old(cfg).api_keys@.filter(|k: ApiKeyCfg| k.key@ != key@),
        r is Ok == (exists|i: int| 0 <= i < old(cfg).api_keys@.len() && #[trigger] old(cfg).api_keys@[i].key@ == key@),
        r matches Err(e) ==> e.status == 404 && e.message@ == "key not found"@,
        final(cfg).models == old(cfg).models,
        final(cfg).routing == old(cfg).routing,
{
    let ghost src = cfg.api_keys@;
    let ghost keep = |k: ApiKeyCfg| k.key@ != key@;
    let mut kept: Vec<ApiKeyCfg> = Vec::new();
    let mut found = false;
    proof {
        reveal(Seq::filter);
    }
    while cfg.api_keys.len() > 0
        invariant
            keep == (|k: ApiKeyCfg| k.key@ != key@),
            src.filter(keep) == kept@ + cfg.api_keys@.filter(keep),
            found == (exists|i: int| 0 <= i < src.len() - cfg.api_keys@.len() && #[trigger] src[i].key@ == key@),
            cfg.api_keys@ == src.skip(src.len() - cfg.api_keys@.len()),
            cfg.api_keys@.len() <= src.len(),
            cfg.models == old(cfg).models,
            cfg.routing == old(cfg).routing,
            src == old(cfg).api_keys@,
        decreases cfg.api_keys@.len(),
    {
        let ghost rest = cfg.api_keys@;
        let k = cfg.api_keys.remove(0);
        assert(rest =~= seq![k] + cfg.api_keys@);
        assert(cfg.api_keys@ =~= src.skip(src.len() - cfg.api_keys@.len()));
        assert((seq![k] + cfg.api_keys@).filter(keep) == seq![k].filter(keep) + cfg.api_keys@.filter(keep)) by {
            Seq::filter_distributes_over_add(seq![k], cfg.api_keys@, keep);
        }
        assert(seq![k].drop_last() =~= Seq::<ApiKeyCfg>::empty());
        assert(seq![k].filter(keep) == if keep(k) { seq![k] } else { Seq::<ApiKeyCfg>::empty() }) by {
            reveal(Seq::filter);
            assert(Seq::<ApiKeyCfg>::empty().filter(keep) =~= Seq::<ApiKeyCfg>::empty());
        }
        let ghost idx = src.len() - rest.len();
        assert(src[idx] == k);
        if str_eq(k.key.as_str(), key) {
            found = true;
        } else {
            let ghost kb = kept@;
            kept.push(k);
            assert(kept@ =~= kb + seq![k]);
        }
        assert(found == (exists|i: int| 0 <= i < src.len() - cfg.api_keys@.len() && #[trigger] src[i].key@ == key@)) by {
            if found && !(exists|i: int| 0 <= i < idx && #[trigger] src[i].key@ == key@) {
                assert(src[idx].key@ == key@);
            }
        }
    }
    cfg.api_keys = kept;
    assert(src.skip(src.len() as int) =~= Seq::<ApiKeyCfg>::empty());
    assert(Seq::<ApiKeyCfg>::empty().filter(keep) =~= Seq::<ApiKeyCfg>::empty()) by {
        reveal(Seq::filter);
    }
    assert(cfg.api_keys@ =~= src.filter(keep));
    if found {
        Ok(())
    } else {
        Err(ApiError::not_found(owned("key not found")))
    }
}

/// The secret names the configuration refers to (model keys, then the
/// router key), each once, in order of first mention.
pub open spec fn secret_names_of(cfg: Config) -> Seq<Seq<char>> {
    let named = cfg.models@.filter(|m: ModelCfg| m.api_key_env is Some).map_values(
        |m: ModelCfg| m.api_key_env->0@,
    ) + match cfg.router.api_key_env {
        Some(e) => seq![e@],
        None => Seq::empty(),
    };
    crate::admin::first_mentions(named)
}

/// `s` with later repeats removed.
pub open spec fn first_mentions(s: Seq<Seq<char>>) -> Seq<Seq<char>>
    decreases s.len(),
{
    if s.len() == 0 {
        Seq::empty()
    } else {
        let acc = first_mentions(s.drop_last());
        if acc.contains(s.last()) {
            acc
        } else {
            acc.push(s.last())
        }
    }
}

fn push_unique(names: &mut Vec<String>, n: &String)
    ensures
        views(final(names)@) == if views(old(names)@).contains(n@) {
            views(old(names)@)
        } else {
            views(old(names)@).push(n@)
        },
{
    if !crate::text::strings_contain(names, n.as_str()) {
        let ghost before = views(names@);
        names.push(n.clone());
        assert(views(names@) =~= before.push(n@));
    }
}

/// The secrets the panel lists: every secret name the configuration uses.
pub fn secret_names(cfg: &Config) -> (names: Vec<String>)
    ensures
        views(names@) == secret_names_of(*cfg),
{
    let ghost named_models = cfg.models@.filter(|m: ModelCfg| m.api_key_env is Some).map_values(
        |m: ModelCfg| m.api_key_env->0@,
    );
    let mut names: Vec<String> = Vec::new();
    let mut raw: Vec<String> = Vec::new();
    let mut i: usize = 0;
    while i < cfg.models.len()
        invariant
            i <= cfg.models@.len(),
            views(raw@) == cfg.models@.take(i as int).filter(|m: ModelCfg| m.api_key_env is Some).map_values(
                |m: ModelCfg| m.api_key_env->0@,
            ),
            views(names@) == first_mentions(views(raw@)),
        decreases cfg.models.len() - i,
    {
        let ghost rb = views(raw@);
        assert(cfg.models@.take(i + 1).drop_last() =~= cfg.models@.take(i as int));
        assert(cfg.models@.take(i + 1).last() == cfg.models@[i as int]);
        match &cfg.models[i].api_key_env {
            Some(e) => {
                push_unique(&mut names, e);
                raw.push(e.clone());
                assert(views(raw@) =~= rb.push(e@));
                assert(cfg.models@.take(i + 1).filter(|m: ModelCfg| m.api_key_env is Some) =~= cfg.models@.take(
                    i as int,
                ).filter(|m: ModelCfg| m.api_key_env is Some).push(cfg.models@[i as int])) by {
                    reveal(Seq::filter);
                }
                assert(views(raw@).drop_last() =~= rb);
            },
            None => {
                assert(cfg.models@.take(i + 1).filter(|m: ModelCfg| m.api_key_env is Some) =~= cfg.models@.take(
                    i as int,
                ).filter(|m: ModelCfg| m.api_key_env is Some)) by {
                    reveal(Seq::filter);
                }
            },
        }
        i += 1;
    }
    assert(cfg.models@.take(cfg.models@.len() as int) =~= cfg.models@);
    match &cfg.router.api_key_env {
        Some(e) => {
            let ghost rb = views(raw@);
            push_unique(&mut names, e);
            raw.push(e.clone());
            assert(views(raw@) =~= rb.push(e@));
            assert(views(raw@).drop_last() =~= rb);
            assert(views(raw@) =~= named_models + seq![e@]);
        },
        None => {
            assert(views(raw@) =~= named_models + Seq::<Seq<char>>::empty());
        },
    }
    names
}

// ───────────────────────────── imports, queries, ports ────────────────────

/// `Path::file_stem` of a file path: its last component (trailing slashes
/// ignored) without the extension after its last dot, unless that dot is the
/// first character; none for an empty name or `..`.
pub open spec fn file_stem_of(path: Seq<char>) -> Option<Seq<char>> {
    let t = crate::router_client::strip_slashes(path);
    let name = crate::import::last_segment(t);
    if name.len() == 0 || name == ".."@ {
        None
    } else {
        let k = last_dot(name);
        if k > 0 {
            Some(name.take(k))
        } else {
            Some(name)
        }
    }
}

/// Index of the last `.` in `s`, or -1.
pub open spec fn last_dot(s: Seq<char>) -> int
    decreases s.len(),
{
    if s.len() == 0 {
        -1
    } else if s.last() == '.' {
        s.len() - 1
    } else {
        last_dot(s.drop_last())
    }
}

fn last_dot_exec(v: &Vec<char>) -> (k: Option<usize>)
    ensures
        match k {
            Some(i) => i < v@.len() && last_dot(v@) == i as int,
            None => last_dot(v@) == -1,
        },
{
    let mut n: usize = v.len();
    assert(v@.take(v@.len() as int) =~= v@);
    while n > 0
        invariant
            n <= v@.len(),
            last_dot(v@) == last_dot(v@.take(n as int)),
        decreases n,
    {
        assert(v@.take(n as int).drop_last() =~= v@.take(n - 1));
        if v[n - 1] == '.' {
            return Some(n - 1);
        }
        n -= 1;
    }
    None
}

pub fn file_stem(path: &str) -> (r: Option<String>)
    ensures
        crate::model::opt_view(r) == file_stem_of(path@),
{
    let t = crate::router_client::base_url(path);
    let name = crate::import::last_segment_of(t.as_str());
    let v = chars_of(name.as_str());
    if v.len() == 0 || str_eq(name.as_str(), "..") {
        return None;
    }
    match last_dot_exec(&v) {
        Some(k) => if k > 0 {
            assert(v@.subrange(0, k as int) =~= v@.take(k as int));
            Some(string_of_range(&v, 0, k))
        } else {
            Some(name)
        },
        None => Some(name),
    }
}

/// The pool id a finished import registers under: `cmf-<file stem>` (or
/// `cmf-cmf-local` when the output has no stem).
pub open spec fn import_model_id(output: Seq<char>) -> Seq<char> {
    "cmf-"@ + match file_stem_of(output) {
        Some(s) => s,
        None => "cmf-local"@,
    }
}

/// The model a finished import registers: served by the local CMF server
/// under `cmf-<stem>`. Refused while the job is not done or when the id is
/// taken.
pub fn import_model(cfg: &Config, job_state: &str, output: &str) -> (r: Result<ModelCfg, ApiError>)
    ensures
        job_state@ != "done"@ ==> (r matches Err(e) && e.status == 400 && e.message@
            == "conversion not finished"@),
        job_state@ == "done"@ && pool_has(*cfg, import_model_id(output@)) ==> (r matches Err(e)
            && e.status == 400 && e.message@ == "model '"@ + import_model_id(output@)
            + "' already registered"@),
        job_state@ == "done"@ && !pool_has(*cfg, import_model_id(output@)) ==> (r matches Ok(m)
            && m.id@ == import_model_id(output@) && m.provider@ == "openai"@ && m.base_url@
            == cfg.cmf.cortiq_server_url@ && m.model@ == match file_stem_of(output@) {
            Some(s) => s,
            None => "cmf-local"@,
        } && m.cost_tier@ == "local"@ && m.kind@ == "chat"@ && m.api_key_env is None && m.caps@.len()
            == 0),
{
    if !str_eq(job_state, "done") {
        return Err(ApiError::bad(owned("conversion not finished")));
    }
    let base = match file_stem(output) {
        Some(s) => s,
        None => owned("cmf-local"),
    };
    let mut id = owned("cmf-");
    append_str(&mut id, base.as_str());
    match pool_position(cfg, id.as_str()) {
        Some(_) => {
            let mut m = owned("model '");
            append_str(&mut m, id.as_str());
            append_str(&mut m, "' already registered");
            Err(ApiError::bad(m))
        },
        None => Ok(
            ModelCfg {
                id,
                provider: owned("openai"),
                base_url: cfg.cmf.cortiq_server_url.clone(),
                model: base,
                cost_tier: owned("local"),
                kind: owned("chat"),
                api_key_env: None,
                caps: Vec::new(),
            },
        ),
    }
}

/// Page size and offset of the recent-requests listing: 50 by default, at
/// most 500.
pub fn recent_page(limit: Option<usize>, offset: Option<usize>) -> (r: (usize, usize))
    ensures
        r.0 == match limit {
            Some(l) => if l < 500 {
                l
            } else {
                500
            },
            None => 50,
        },
        r.1 == match offset {
            Some(o) => o,
            None => 0,
        },
{
    let l = match limit {
        Some(l) => if l < 500 {
            l
        } else {
            500
        },
        None => 50,
    };
    let o = match offset {
        Some(o) => o,
        None => 0,
    };
    (l, o)
}

/// How many HuggingFace results to ask for: 24 by default, at most 50.
pub fn search_limit(limit: Option<usize>) -> (n: usize)
    ensures
        n == match limit {
            Some(l) => if l < 50 {
                l
            } else {
                50
            },
            None => 24,
        },
{
    match limit {
        Some(l) => if l < 50 {
            l
        } else {
            50
        },
        None => 24,
    }
}

/// The window of the stats snapshot: the `range` parameter in seconds, one
/// day when it is absent, malformed, or too large for a `u64`.
pub fn stats_range(range: Option<&str>) -> (secs: u64)
    ensures
        secs == match range {
            Some(r) => match crate::stats::duration_secs(r@) {
                Some(v) => if v <= u64::MAX {
                    v as u64
                } else {
                    86400
                },
                None => 86400,
            },
            None => 86400,
        },
{
    match range {
        Some(r) => {
            if !crate::stats::duration_in_range(r) {
                return 86400;
            }
            match crate::stats::parse_duration_secs(r) {
                Some(v) => v,
                None => 86400,
            }
        },
        None => 86400,
    }
}

/// The ports tried after an occupied one: `from + 1 ..= from + 50`, capped
/// at the largest port.
pub fn port_candidates(from: u16) -> (ports: Vec<u16>)
    ensures
        ports@.len() == (if from as int + 50 > u16::MAX {
            u16::MAX as int
        } else {
            from as int + 50
        }) - (if from as int + 1 > u16::MAX {
            u16::MAX as int
        } else {
            from as int + 1
        }) + 1,
        forall|i: int|
            0 <= i < ports@.len() ==> #[trigger] ports@[i] as int == (if from as int + 1 > u16::MAX {
                u16::MAX as int
            } else {
                from as int + 1
            }) + i,
{
    let lo = from.saturating_add(1);
    let hi = from.saturating_add(50);
    let mut ports: Vec<u16> = Vec::new();
    let mut p: u16 = lo;
    loop
        invariant_except_break
            lo <= p <= hi,
            ports@.len() == p - lo,
            forall|i: int| 0 <= i < ports@.len() ==> #[trigger] ports@[i] as int == lo + i,
        ensures
            ports@.len() == hi - lo + 1,
            forall|i: int| 0 <= i < ports@.len() ==> #[trigger] ports@[i] as int == lo + i,
        decreases hi - p,
    {
        ports.push(p);
        if p == hi {
            break;
        }
        p += 1;
    }
    ports
}

/// The host a port check probes: the configured local host, or `127.0.0.1`
/// when that is blank.
pub fn port_check_host(local_host: &str) -> (h: String)
    ensures
        h@ == (if trim(local_host@).len() == 0 {
            "127.0.0.1"@
        } else {
            local_host@
        }),
{
    if crate::text::is_blank(local_host) {
        owned("127.0.0.1")
    } else {
        owned(local_host)
    }
}

/// The verdict of a port check: whether the port can be used and why.
pub open spec fn port_verdict_of(running_here: bool, free: bool) -> (bool, Seq<char>) {
    if running_here {
        (false, "in use by this gateway's managed CMF server"@)
    } else if free {
        (true, "free"@)
    } else {
        (false, "occupied by another process"@)
    }
}

pub fn port_verdict(running_here: bool, free: bool) -> (r: (bool, &'static str))
    ensures
        (r.0, r.1@) == port_verdict_of(running_here, free),
{
    if running_here {
        (false, "in use by this gateway's managed CMF server")
    } else if free {
        (true, "free")
    } else {
        (false, "occupied by another process")
    }
}

/// The managed servers the model list shows besides the pool: those whose id
/// no pool model has, in order.
pub fn unlisted_servers(cfg: &Config) -> (v: Vec<CmfServer>)
    ensures
        crate::config::server_views(v@) == crate::config::servers_of(cfg.cmf).filter(
            |s: ServerView| !pool_has(*cfg, s.0),
        ),
{
    let servers = cfg.cmf.effective_servers();
    let ghost sv = crate::config::server_views(servers@);
    let ghost keep = |s: ServerView| !pool_has(*cfg, s.0);
    let mut out: Vec<CmfServer> = Vec::new();
    let mut i: usize = 0;
    while i < servers.len()
        invariant
            i <= servers@.len(),
            sv == crate::config::server_views(servers@),
            keep == (|s: ServerView| !pool_has(*cfg, s.0)),
            crate::config::server_views(out@) == sv.take(i as int).filter(keep),
        decreases servers.len() - i,
    {
        let ghost ob = crate::config::server_views(out@);
        assert(sv.take(i + 1).drop_last() =~= sv.take(i as int));
        assert(sv.take(i + 1).last() == sv[i as int]);
        if pool_position(cfg, servers[i].id.as_str()).is_none() {
            out.push(CmfServer {
                id: servers[i].id.clone(),
                model: servers[i].model.clone(),
                port: servers[i].port,
            });
            assert(crate::config::server_views(out@) =~= ob.push(sv[i as int]));
            assert(sv.take(i + 1).filter(keep) =~= sv.take(i as int).filter(keep).push(sv[i as int])) by {
                reveal(Seq::filter);
            }
        } else {
            assert(sv.take(i + 1).filter(keep) =~= sv.take(i as int).filter(keep)) by {
                reveal(Seq::filter);
            }
        }
        i += 1;
    }
    assert(sv.take(sv.len() as int) =~= sv);
    out
}

/// The admin token: the value of the configured environment variable when it
/// is set and not empty, else the `--admin-token` argument when not empty;
/// `None` means a random token has to be generated.
pub fn choose_admin_token(env_value: Option<&str>, arg: Option<&str>) -> (t: Option<String>)
    ensures
        match crate::stats_support::non_empty_ref(env_value) {
            Some(v) => t matches Some(x) && x@ == v,
            None => match crate::stats_support::non_empty_ref(arg) {
                Some(a) => t matches Some(x) && x@ == a,
                None => t is None,
            },
        },
{
    match env_value {
        Some(v) => if !v.is_empty() {
            return Some(owned(v));
        },
        None => {},
    }
    match arg {
        Some(a) => if !a.is_empty() {
            return Some(owned(a));
        },
        None => {},
    }
    None
}

// ───────────────────────────── model files ────────────────────────────────

/// `s` without its trailing slashes.
pub open spec fn without_trailing_slashes(s: Seq<char>) -> Seq<char>
    decreases s.len(),
{
    if s.len() > 0 && s.last() == '/' {
        without_trailing_slashes(s.drop_last())
    } else {
        s
    }
}

/// The names that end in `.cmf`, in their order.
pub open spec fn cmf_names(names: Seq<Seq<char>>) -> Seq<Seq<char>>
    decreases names.len(),
{
    if names.len() == 0 {
        Seq::empty()
    } else if crate::text::ends_with(names.last(), ".cmf"@) {
        cmf_names(names.drop_last()).push(names.last())
    } else {
        cmf_names(names.drop_last())
    }
}

fn trim_trailing_slashes(s: &str) -> (r: String)
    ensures
        r@ == without_trailing_slashes(s@),
{
    let v = chars_of(s);
    let mut n: usize = v.len();
    assert(v@.take(n as int) =~= v@);
    while n > 0 && v[n - 1] == '/'
        invariant
            n <= v@.len(),
            without_trailing_slashes(v@) == without_trailing_slashes(v@.take(n as int)),
        decreases n,
    {
        assert(v@.take(n as int).drop_last() =~= v@.take(n - 1));
        n -= 1;
    }
    string_of_range(&v, 0, n)
}

/// The `.cmf` models among the entry names of directory `dir`, sorted by
/// name, each with its path (`dir` without trailing slashes, `/`, the name).
pub fn cmf_listing(dir: &str, names: &Vec<String>) -> (r: Vec<(String, String)>)
    ensures
        crate::order::lex_sorted(r@.map_values(|p: (String, String)| p.0@)),
        r@.map_values(|p: (String, String)| p.0@).to_multiset() == cmf_names(views(names@)).to_multiset(),
        forall|i: int|
            0 <= i < r@.len() ==> (#[trigger] r@[i]).1@ == without_trailing_slashes(dir@) + "/"@
                + r@[i].0@,
{
    let mut kept: Vec<String> = Vec::new();
    let mut i: usize = 0;
    while i < names.len()
        invariant
            i <= names@.len(),
            views(kept@) == cmf_names(views(names@.take(i as int))),
        decreases names.len() - i,
    {
        assert(views(names@.take(i + 1)).drop_last() =~= views(names@.take(i as int)));
        assert(views(names@.take(i + 1)).last() == names@[i as int]@);
        if crate::text::str_ends_with(names[i].as_str(), ".cmf") {
            let ghost before = views(kept@);
            kept.push(names[i].clone());
            assert(views(kept@) =~= before.push(names@[i as int]@));
        }
        i += 1;
    }
    assert(names@.take(names@.len() as int) =~= names@);
    let sorted = crate::order::sorted_strings(kept);
    let base = trim_trailing_slashes(dir);
    let mut r: Vec<(String, String)> = Vec::new();
    let mut k: usize = 0;
    while k < sorted.len()
        invariant
            k <= sorted@.len(),
            base@ == without_trailing_slashes(dir@),
            r@.map_values(|p: (String, String)| p.0@) == views(sorted@).take(k as int),
            forall|i: int|
                0 <= i < r@.len() ==> (#[trigger] r@[i]).1@ == without_trailing_slashes(dir@)
                    + "/"@ + r@[i].0@,
        decreases sorted.len() - k,
    {
        let mut path = base.clone();
        append_str(&mut path, "/");
        append_str(&mut path, sorted[k].as_str());
        let ghost before = r@.map_values(|p: (String, String)| p.0@);
        r.push((sorted[k].clone(), path));
        assert(r@.map_values(|p: (String, String)| p.0@) =~= before.push(sorted@[k as int]@));
        assert(views(sorted@).take(k + 1) =~= views(sorted@).take(k as int).push(sorted@[k as int]@));
        k += 1;
    }
    assert(views(sorted@).take(sorted@.len() as int) =~= views(sorted@));
    r
}

// ───────────────────────────── provider model lists ──────────────────────

/// What `serde_json` reads from a provider's `/models` answer: for each
/// element of `data`, its `id` where that is a string (`None` when the body is
/// not JSON or `data` is not an array).
pub uninterp spec fn model_id_fields(body: Seq<char>) -> Option<Seq<Option<Seq<char>>>>;

/// Reads a `/models` answer with `serde_json::from_str` and lists the `id`
/// of each element of `data`. The contract only names the result.
#[verifier::external_body]
fn parse_model_ids(body: &str) -> (r: Option<Vec<Option<String>>>)
    ensures
        match r {
            Some(v) => model_id_fields(body@) == Some(v@.map_values(|o: Option<String>| crate::model::opt_view(o))),
            None => model_id_fields(body@) is None,
        },
{
    let v: serde_json::Value = serde_json::from_str(body).ok()?;
    let items = v["data"].as_array()?;
    Some(items.iter().map(|m| m["id"].as_str().map(|s| s.to_string())).collect())
}

/// The values that are present, in order.
pub open spec fn somes(s: Seq<Option<Seq<char>>>) -> Seq<Seq<char>>
    decreases s.len(),
{
    if s.len() == 0 {
        Seq::empty()
    } else {
        let p = somes(s.drop_last());
        match s.last() {
            Some(x) => p.push(x),
            None => p,
        }
    }
}

/// The model ids a provider's `/models` answer lists (none when it lists
/// nothing readable).
pub open spec fn listed_model_ids(body: Seq<char>) -> Seq<Seq<char>> {
    match model_id_fields(body) {
        Some(f) => somes(f),
        None => Seq::empty(),
    }
}

/// The model ids of a provider's `/models` answer, sorted.
pub fn provider_model_list(body: &str) -> (r: Vec<String>)
    ensures
        crate::order::lex_sorted(views(r@)),
        views(r@).to_multiset() == listed_model_ids(body@).to_multiset(),
{
    let fields = match parse_model_ids(body) {
        Some(f) => f,
        None => {
            let r: Vec<String> = Vec::new();
            assert(views(r@) =~= Seq::<Seq<char>>::empty());
            return r;
        },
    };
    let ghost fv = fields@.map_values(|o: Option<String>| crate::model::opt_view(o));
    let mut ids: Vec<String> = Vec::new();
    let mut i: usize = 0;
    while i < fields.len()
        invariant
            i <= fields@.len(),
            fv == fields@.map_values(|o: Option<String>| crate::model::opt_view(o)),
            views(ids@) == somes(fv.take(i as int)),
        decreases fields.len() - i,
    {
        assert(fv.take(i + 1).drop_last() =~= fv.take(i as int));
        assert(fv.take(i + 1).last() == crate::model::opt_view(fields@[i as int]));
        match &fields[i] {
            Some(x) => {
                let ghost before = views(ids@);
                ids.push(x.clone());
                assert(views(ids@) =~= before.push(x@));
            },
            None => {},
        }
        i += 1;
    }
    assert(fv.take(fv.len() as int) =~= fv);
    crate::order::sorted_strings(ids)
}

} // verus!
