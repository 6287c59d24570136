//! CMF model factory: the decisions behind importing a HuggingFace repo as a
//! local quantized `.cmf` — which converter runs with which arguments, where
//! the output goes, how the UI quant label maps to the converter flag — and
//! the table of conversion jobs whose live state the admin UI shows.

use vstd::prelude::*;
use crate::config::{CmfCfg, join_path};
use crate::model::opt_view;
use crate::text::{views, append_str, is_blank, owned};
use crate::text::{
    ascii_lower, ascii_upper, chars_eq, chars_of, contains_sub, ends_with, hex_padded, lower_chars,
    push_char, push_hex_padded, starts_with, starts_with_exec, upper_chars,
};

verus! {

// ───────────────────────────── quant labels ─────────────────────────────

/// The converter flag for an upper-cased UI quant label.
pub open spec fn quant_flag(u: Seq<char>) -> Seq<char> {
    if starts_with(u, "Q4T"@) || u == "Q4_TILED"@ {
        "q4t"@
    } else if starts_with(u, "Q4"@) {
        "q4"@
    } else if u == "Q8_2F"@ || u == "Q82F"@ {
        "q8_2f"@
    } else if u == "F16"@ || u == "FP16"@ {
        "f16"@
    } else if u == "VBIT"@ {
        "vbit"@
    } else if u == "Q1"@ {
        "q1"@
    } else if u == "Q1P"@ || u == "Q1_PTQ"@ {
        "q1p"@
    } else if u == "Q1S"@ || u == "Q1_MASK"@ {
        "q1s"@
    } else if u == "Q1T"@ || u == "Q1_TERNARY"@ {
        "q1t"@
    } else {
        "q8"@
    }
}

fn is_label(u: &Vec<char>, label: &str) -> (b: bool)
    ensures
        b == (u@ == label@),
{
    let l = chars_of(label);
    chars_eq(u, &l)
}

fn has_prefix(u: &Vec<char>, p: &str) -> (b: bool)
    ensures
        b == starts_with(u@, p@),
{
    let l = chars_of(p);
    starts_with_exec(u, &l)
}

/// Maps the UI quant label (any ASCII case) to the native converter's quant
/// flag; unknown labels get the default `q8`.
pub fn map_quant(q: &str) -> (r: &'static str)
    ensures
        r@ == quant_flag(ascii_upper(q@)),
{
    let u = upper_chars(q);
    if has_prefix(&u, "Q4T") || is_label(&u, "Q4_TILED") {
        "q4t"
    } else if has_prefix(&u, "Q4") {
        "q4"
    } else if is_label(&u, "Q8_2F") || is_label(&u, "Q82F") {
        "q8_2f"
    } else if is_label(&u, "F16") || is_label(&u, "FP16") {
        "f16"
    } else if is_label(&u, "VBIT") {
        "vbit"
    } else if is_label(&u, "Q1") {
        "q1"
    } else if is_label(&u, "Q1P") || is_label(&u, "Q1_PTQ") {
        "q1p"
    } else if is_label(&u, "Q1S") || is_label(&u, "Q1_MASK") {
        "q1s"
    } else if is_label(&u, "Q1T") || is_label(&u, "Q1_TERNARY") {
        "q1t"
    } else {
        "q8"
    }
}

/// A repo that already holds a converted model: its id mentions `cmf` in
/// any ASCII case.
pub open spec fn cmf_repo(repo: Seq<char>) -> bool {
    contains_sub(ascii_lower(repo), "cmf"@) || ends_with(ascii_lower(repo), ".cmf"@)
}

/// Whether the repo is downloaded as a ready `.cmf` instead of converted.
pub fn is_cmf_repo(repo: &str) -> (b: bool)
    ensures
        b == cmf_repo(repo@),
{
    let lower = lower_chars(repo);
    let pat = chars_of("cmf");
    let suffix = chars_of(".cmf");
    crate::text::contains_exec(&lower, &pat) || crate::text::ends_with_exec(&lower, &suffix)
}

// ───────────────────────────── names and URLs ─────────────────────────────

pub open spec fn name_char(c: char) -> char {
    if ('a' <= c && c <= 'z') || ('A' <= c && c <= 'Z') || ('0' <= c && c <= '9') || c == '-'
        || c == '_' {
        c
    } else {
        '-'
    }
}

/// A file-name-safe form: ASCII letters, digits, `-` and `_` stay, any other
/// character becomes `-`.
pub open spec fn sanitized(s: Seq<char>) -> Seq<char> {
    s.map_values(|c: char| name_char(c))
}

pub fn sanitize(s: &str) -> (r: String)
    ensures
        r@ == sanitized(s@),
{
    let v = chars_of(s);
    let mut r = String::new();
    let mut i: usize = 0;
    while i < v.len()
        invariant
            i <= v.len(),
            v@ == s@,
            r@ == sanitized(v@.take(i as int)),
        decreases v.len() - i,
    {
        let c = v[i];
        let keep = ('a' <= c && c <= 'z') || ('A' <= c && c <= 'Z') || ('0' <= c && c <= '9')
            || c == '-' || c == '_';
        push_char(&mut r, if keep { c } else { '-' });
        assert(sanitized(v@.take(i + 1)) =~= sanitized(v@.take(i as int)).push(name_char(c)));
        i += 1;
    }
    assert(v@.take(v.len() as int) =~= v@);
    r
}

pub open spec fn url_safe(c: char) -> bool {
    ('a' <= c && c <= 'z') || ('A' <= c && c <= 'Z') || ('0' <= c && c <= '9') || c == '-' || c
        == '_' || c == '.' || c == '/'
}

/// How one character appears in a search query string.
pub open spec fn url_char(c: char) -> Seq<char> {
    if url_safe(c) {
        seq![c]
    } else if c == ' ' {
        seq!['+']
    } else {
        seq!['%'] + hex_padded((c as u32) as nat, true, 2)
    }
}

/// Query-string escaping: safe characters stay, a space becomes `+`, any
/// other character becomes `%` and its code point in upper-case hex (at
/// least two digits).
pub open spec fn url_escaped(s: Seq<char>) -> Seq<char>
    decreases s.len(),
{
    if s.len() == 0 {
        Seq::empty()
    } else {
        url_escaped(s.drop_last()) + url_char(s.last())
    }
}

pub fn url_escape(s: &str) -> (r: String)
    ensures
        r@ == url_escaped(s@),
{
    let v = chars_of(s);
    let mut r = String::new();
    let mut i: usize = 0;
    while i < v.len()
        invariant
            i <= v.len(),
            v@ == s@,
            r@ == url_escaped(v@.take(i as int)),
        decreases v.len() - i,
    {
        let c = v[i];
        let ghost before = r@;
        if ('a' <= c && c <= 'z') || ('A' <= c && c <= 'Z') || ('0' <= c && c <= '9') || c == '-'
            || c == '_' || c == '.' || c == '/' {
            push_char(&mut r, c);
        } else if c == ' ' {
            push_char(&mut r, '+');
        } else {
            push_char(&mut r, '%');
            let code: u32 = c as u32;
            push_hex_padded(&mut r, code as u64, true, 2);
        }
        assert(r@ =~= before + url_char(c));
        assert(v@.take(i + 1).drop_last() =~= v@.take(i as int));
        i += 1;
    }
    assert(v@.take(v.len() as int) =~= v@);
    r
}

/// A job id: the 64-bit hash of the repo and start time as 16 lower-case hex
/// digits.
pub fn job_id(hash: u64) -> (r: String)
    ensures
        r@ == hex_padded(hash as nat, false, 16),
{
    let mut r = String::new();
    push_hex_padded(&mut r, hash, false, 16);
    r
}

/// The text after the last `/` (the whole id when there is none).
pub open spec fn last_segment(s: Seq<char>) -> Seq<char>
    decreases s.len(),
{
    if s.len() == 0 {
        s
    } else if s.last() == '/' {
        Seq::empty()
    } else {
        last_segment(s.drop_last()).push(s.last())
    }
}

pub fn last_segment_of(s: &str) -> (r: String)
    ensures
        r@ == last_segment(s@),
{
    let v = chars_of(s);
    let mut start: usize = v.len();
    assert(v@.take(v.len() as int) =~= v@);
    assert(v@.skip(v.len() as int) =~= Seq::<char>::empty());
    while start > 0 && v[start - 1] != '/'
        invariant
            start <= v.len(),
            v@ == s@,
            last_segment(v@) == last_segment(v@.take(start as int)) + v@.skip(start as int),
        decreases start,
    {
        let ghost t = v@.take(start as int);
        assert(t.drop_last() =~= v@.take(start - 1));
        assert(v@.skip(start - 1) =~= seq![t.last()] + v@.skip(start as int));
        assert(last_segment(t) == last_segment(t.drop_last()).push(t.last()));
        assert(last_segment(t.drop_last()).push(t.last()) + v@.skip(start as int)
            =~= last_segment(t.drop_last()) + v@.skip(start - 1));
        start -= 1;
    }
    assert(v@.take(v.len() as int) =~= v@);
    assert(v@.skip(v.len() as int) =~= Seq::<char>::empty());
    let ghost t = v@.take(start as int);
    if start > 0 {
        assert(t.last() == '/');
        assert(last_segment(t) =~= Seq::<char>::empty());
    } else {
        assert(t =~= Seq::<char>::empty());
    }
    assert(v@.skip(start as int) =~= v@.subrange(start as int, v.len() as int));
    crate::text::string_of_range(&v, start, v.len())
}

/// The first listed path whose lower-cased form ends in `.cmf`.
pub open spec fn first_cmf(listing: Seq<Seq<char>>) -> Option<int> {
    if exists|i: int| 0 <= i < listing.len() && ends_with(ascii_lower(listing[i]), ".cmf"@) {
        Some(
            choose|i: int|
                0 <= i < listing.len() && ends_with(ascii_lower(listing[i]), ".cmf"@) && forall|
                    j: int,
                | 0 <= j < i ==> !ends_with(ascii_lower(listing[j]), ".cmf"@),
        )
    } else {
        None
    }
}

/// The file of a ready-made `.cmf` repo to download: the first `.cmf` path of
/// the repo listing, else `<repo name>.cmf`.
pub fn cmf_file_for_repo(repo: &str, listing: &Vec<String>) -> (r: String)
    ensures
        r@ == match first_cmf(listing@.map_values(|p: String| p@)) {
            Some(i) => listing@[i]@,
            None => last_segment(repo@) + ".cmf"@,
        },
{
    let ghost lv = listing@.map_values(|p: String| p@);
    let suffix = chars_of(".cmf");
    let mut i: usize = 0;
    while i < listing.len()
        invariant
            i <= listing@.len(),
            lv == listing@.map_values(|p: String| p@),
            suffix@ == ".cmf"@,
            forall|j: int| 0 <= j < i ==> !ends_with(ascii_lower(#[trigger] lv[j]), ".cmf"@),
        decreases listing.len() - i,
    {
        let lower = lower_chars(listing[i].as_str());
        if crate::text::ends_with_exec(&lower, &suffix) {
            proof {
                assert(ends_with(ascii_lower(lv[i as int]), ".cmf"@));
                let k = choose|k: int|
                    0 <= k < lv.len() && ends_with(ascii_lower(lv[k]), ".cmf"@) && forall|j: int|
                        0 <= j < k ==> !ends_with(ascii_lower(lv[j]), ".cmf"@);
                if k < i {
                } else if k > i {
                    assert(!ends_with(ascii_lower(lv[i as int]), ".cmf"@));
                }
            }
            return listing[i].clone();
        }
        i += 1;
    }
    let mut r = last_segment_of(repo);
    crate::text::append_str(&mut r, ".cmf");
    r
}

/// `https://huggingface.co/api/models?search=<escaped query>&sort=<order>&direction=-1&limit=<n>&full=false`,
/// ordered by trending score for an empty query and by downloads otherwise.
pub fn hf_search_url(query: &str, limit: usize) -> (r: String)
    ensures
        r@ == "https://huggingface.co/api/models?search="@ + url_escaped(query@) + "&sort="@ + (
        if crate::text::trim(query@).len() == 0 {
            "trendingScore"@
        } else {
            "downloads"@
        }) + "&direction=-1&limit="@ + crate::text::dec(limit as nat) + "&full=false"@,
{
    let q = url_escape(query);
    let mut r = crate::text::owned("https://huggingface.co/api/models?search=");
    crate::text::append_str(&mut r, q.as_str());
    crate::text::append_str(&mut r, "&sort=");
    if crate::text::is_blank(query) {
        crate::text::append_str(&mut r, "trendingScore");
    } else {
        crate::text::append_str(&mut r, "downloads");
    }
    crate::text::append_str(&mut r, "&direction=-1&limit=");
    crate::text::push_dec(&mut r, limit as u64);
    crate::text::append_str(&mut r, "&full=false");
    r
}

/// `https://huggingface.co/api/models/<repo>/tree/main?recursive=true`.
pub fn hf_tree_url(repo: &str) -> (r: String)
    ensures
        r@ == "https://huggingface.co/api/models/"@ + repo@ + "/tree/main?recursive=true"@,
{
    let mut r = crate::text::owned("https://huggingface.co/api/models/");
    crate::text::append_str(&mut r, repo);
    crate::text::append_str(&mut r, "/tree/main?recursive=true");
    r
}

/// `https://huggingface.co/<repo>/resolve/main/<path>`.
pub fn hf_download_url(repo: &str, path: &str) -> (r: String)
    ensures
        r@ == "https://huggingface.co/"@ + repo@ + "/resolve/main/"@ + path@,
{
    let mut r = crate::text::owned("https://huggingface.co/");
    crate::text::append_str(&mut r, repo);
    crate::text::append_str(&mut r, "/resolve/main/");
    crate::text::append_str(&mut r, path);
    r
}

pub open spec fn progress_marker() -> Seq<char> {
    "@PROGRESS "@
}

/// Index of the first space in `s`, or `s.len()` when there is none.
pub open spec fn first_space(s: Seq<char>) -> int {
    if exists|i: int| 0 <= i < s.len() && s[i] == ' ' {
        choose|i: int| 0 <= i < s.len() && s[i] == ' ' && forall|j: int| 0 <= j < i ==> s[j] != ' '
    } else {
        s.len() as int
    }
}

/// The two parts of a `@PROGRESS <fraction> <phase>` converter line: the
/// trimmed fraction text and the trimmed phase (empty when absent). Other
/// lines give `None`.
pub open spec fn progress_fields(line: Seq<char>) -> Option<(Seq<char>, Seq<char>)> {
    if starts_with(line, progress_marker()) {
        let rest = line.skip(progress_marker().len() as int);
        let k = first_space(rest);
        Some(
            (
                crate::text::trim(rest.take(k)),
                if k < rest.len() {
                    crate::text::trim(rest.skip(k + 1))
                } else {
                    Seq::empty()
                },
            ),
        )
    } else {
        None
    }
}

/// Splits a converter progress marker into its fraction text and phase; the
/// caller reads the fraction as a number.
pub fn progress_parts(line: &str) -> (r: Option<(String, String)>)
    ensures
        match progress_fields(line@) {
            Some((f, ph)) => r matches Some((a, b)) && a@ == f && b@ == ph,
            None => r is None,
        },
{
    let v = chars_of(line);
    let m = chars_of("@PROGRESS ");
    if !starts_with_exec(&v, &m) {
        return None;
    }
    let n = m.len();
    let ghost rest = v@.skip(n as int);
    let mut k: usize = n;
    while k < v.len() && v[k] != ' '
        invariant
            n <= k <= v.len(),
            rest == v@.skip(n as int),
            forall|j: int| n <= j < k ==> v@[j] != ' ',
        decreases v.len() - k,
    {
        k += 1;
    }
    proof {
        let kk = (k - n) as int;
        assert forall|j: int| 0 <= j < kk implies rest[j] != ' ' by {
            assert(rest[j] == v@[j + n]);
        }
        if k < v.len() {
            assert(rest[kk] == ' ');
            let c = choose|i: int| 0 <= i < rest.len() && rest[i] == ' ' && forall|j: int| 0 <= j < i ==> rest[j] != ' ';
            if c < kk {
            } else if c > kk {
                assert(rest[kk] != ' ');
            }
            assert(first_space(rest) == kk);
        } else {
            assert(first_space(rest) == rest.len());
        }
    }
    let frac_raw = crate::text::string_of_range(&v, n, k);
    assert(frac_raw@ =~= rest.take((k - n) as int));
    let frac = crate::text::trimmed(frac_raw.as_str());
    if k < v.len() {
        let phase_raw = crate::text::string_of_range(&v, k + 1, v.len());
        assert(phase_raw@ =~= rest.skip((k - n) as int + 1));
        let phase = crate::text::trimmed(phase_raw.as_str());
        Some((frac, phase))
    } else {
        Some((frac, String::new()))
    }
}

// ───────────────────────────── planning an import ─────────────────────────

/// Parameters chosen in the import wizard. The two numeric advanced options
/// are held as the decimal text the converter receives.
pub struct ImportParams {
    pub repo: String,
    pub quant: String,
    /// Output basename; empty = derived from the repo.
    pub name: String,
    /// gated_delta_net | vmf_phase
    pub linear_core: Option<String>,
    pub nphase: Option<u32>,
    /// log2 | cubic
    pub vbit_shape: Option<String>,
    pub mean_bits: Option<String>,
    pub shard_max_gb: Option<String>,
    pub skip_mtp: bool,
    /// O(1) attention hint: `all` | `deepN` | `i,j,k`; empty / `off` = exact.
    pub o1: Option<String>,
    pub o1_m: Option<usize>,
    pub o1_window: Option<usize>,
    pub o1_sink: Option<usize>,
}

/// The quant label used when the wizard sends none.
pub fn default_quant() -> (r: String)
    ensures
        r@ == "Q8_2F"@,
{
    crate::text::owned("Q8_2F")
}

/// What the planner needs to know of the machine.
pub struct ImportEnv {
    /// The Python converter script exists.
    pub converter_exists: bool,
    /// Canonical path of the converter script, if it resolves.
    pub converter_abs: Option<String>,
    /// Version of the installed `cortiq` CLI, if any.
    pub cortiq_version: Option<String>,
    /// Canonical path of the models directory, if it resolves.
    pub models_dir_abs: Option<String>,
    /// HuggingFace token, if one is configured.
    pub hf_token: Option<String>,
}

/// How an import runs.
#[derive(PartialEq, Eq, Structural, Clone, Copy, Debug)]
pub enum Launch {
    /// Download a ready `.cmf` from the repo.
    Download,
    /// The Python converter, run from its own directory with the token in its
    /// environment.
    Python,
    /// `cortiq import-gguf`.
    Gguf,
    /// `cortiq convert`.
    Convert,
}

/// A validated import: where the output goes and what to run.
pub struct ImportPlan {
    pub base: String,
    pub output: String,
    /// First job log line.
    pub first_line: String,
    pub launch: Launch,
    /// Program to run (empty for a download).
    pub program: String,
    pub args: Vec<String>,
}

pub open spec fn uses_python(p: ImportParams) -> bool {
    p.linear_core is Some || p.vbit_shape is Some || p.mean_bits is Some
}

/// The O(1) attention hint, trimmed, unless it is empty or `off`.
pub open spec fn o1_hint(p: ImportParams) -> Option<Seq<char>> {
    match p.o1 {
        Some(s) => {
            let t = crate::text::trim(s@);
            if t.len() > 0 && t != "off"@ {
                Some(t)
            } else {
                None
            }
        },
        None => None,
    }
}

pub open spec fn gguf_repo(repo: Seq<char>) -> bool {
    contains_sub(ascii_lower(repo), "gguf"@)
}

/// Why an import is refused, checked in this order.
pub open spec fn import_error(cmf: CmfCfg, p: ImportParams, env: ImportEnv) -> Option<Seq<char>> {
    if crate::text::trim(p.repo@).len() == 0 {
        Some("empty repo id"@)
    } else if uses_python(p) && !env.converter_exists {
        Some("advanced options need the Python converter, not found: "@ + cmf.converter@)
    } else if o1_hint(p) is Some && uses_python(p) {
        Some(
            "O(1) attention is supported by the native converter only — remove the linear-core / v-bit shape / mean-bits options to use it"@,
        )
    } else if o1_hint(p) is Some && gguf_repo(p.repo@) {
        Some("O(1) attention is not supported for GGUF imports yet"@)
    } else if o1_hint(p) is Some && (env.cortiq_version matches Some(v) && crate::cmf::older(
        v@,
        "0.2.0"@,
    )) {
        Some(
            "O(1) attention needs cortiq ≥ 0.2.0 (installed: "@ + env.cortiq_version->0@
                + ") — update the runtime in Settings → Local models"@,
        )
    } else {
        None
    }
}

/// Output basename: the sanitized name, or the sanitized last repo segment
/// when no name was given.
pub open spec fn import_base(p: ImportParams) -> Seq<char> {
    if crate::text::trim(p.name@).len() == 0 {
        sanitized(last_segment(p.repo@))
    } else {
        sanitized(p.name@)
    }
}

pub open spec fn import_output(cmf: CmfCfg, p: ImportParams, env: ImportEnv) -> Seq<char> {
    let file = import_base(p) + ".cmf"@;
    match env.models_dir_abs {
        Some(d) => join_path(d@, file),
        None => join_path(cmf.models_dir@, file),
    }
}

pub open spec fn import_launch(p: ImportParams) -> Launch {
    if uses_python(p) {
        Launch::Python
    } else if cmf_repo(p.repo@) {
        Launch::Download
    } else if gguf_repo(p.repo@) {
        Launch::Gguf
    } else {
        Launch::Convert
    }
}

/// `[flag, value]` when there is a value.
pub open spec fn opt_pair(flag: Seq<char>, v: Option<Seq<char>>) -> Seq<Seq<char>> {
    match v {
        Some(x) => seq![flag, x],
        None => Seq::empty(),
    }
}

pub open spec fn opt_dec(v: Option<nat>) -> Option<Seq<char>> {
    match v {
        Some(n) => Some(crate::text::dec(n)),
        None => None,
    }
}

pub open spec fn opt_u32(v: Option<u32>) -> Option<nat> {
    match v {
        Some(n) => Some(n as nat),
        None => None,
    }
}

pub open spec fn opt_usize(v: Option<usize>) -> Option<nat> {
    match v {
        Some(n) => Some(n as nat),
        None => None,
    }
}

pub open spec fn token_pair(env: ImportEnv) -> Seq<Seq<char>> {
    opt_pair("--hf-token"@, opt_view(env.hf_token))
}

pub open spec fn python_args(cmf: CmfCfg, p: ImportParams, env: ImportEnv, out: Seq<char>) -> Seq<
    Seq<char>,
> {
    seq![
        match env.converter_abs {
            Some(c) => c@,
            None => cmf.converter@,
        },
        "--model"@,
        p.repo@,
        "--quant"@,
        p.quant@,
        "--output"@,
        out,
    ] + opt_pair("--linear-core"@, opt_view(p.linear_core)) + opt_pair(
        "--nphase"@,
        opt_dec(opt_u32(p.nphase)),
    ) + opt_pair("--vbit-shape"@, opt_view(p.vbit_shape)) + opt_pair(
        "--mean-bits"@,
        opt_view(p.mean_bits),
    ) + opt_pair("--shard-max-gb"@, opt_view(p.shard_max_gb)) + if p.skip_mtp {
        seq!["--skip-mtp"@]
    } else {
        Seq::empty()
    }
}

pub open spec fn gguf_args(p: ImportParams, env: ImportEnv, out: Seq<char>) -> Seq<Seq<char>> {
    seq!["import-gguf"@, p.repo@, "--quant"@, quant_flag(ascii_upper(p.quant@)), "--output"@, out]
        + token_pair(env)
}

pub open spec fn o1_args(p: ImportParams) -> Seq<Seq<char>> {
    match o1_hint(p) {
        Some(h) => seq!["--o1"@, h] + opt_pair("--o1-m"@, opt_dec(opt_usize(p.o1_m))) + opt_pair(
            "--o1-window"@,
            opt_dec(opt_usize(p.o1_window)),
        ) + opt_pair("--o1-sink"@, opt_dec(opt_usize(p.o1_sink))),
        None => Seq::empty(),
    }
}

pub open spec fn convert_args(p: ImportParams, env: ImportEnv, out: Seq<char>) -> Seq<Seq<char>> {
    seq![
        "convert"@,
        "--model"@,
        p.repo@,
        "--quant"@,
        quant_flag(ascii_upper(p.quant@)),
        "--output"@,
        out,
    ] + token_pair(env) + o1_args(p)
}

/// The command line of each way of importing.
pub open spec fn import_args(cmf: CmfCfg, p: ImportParams, env: ImportEnv) -> Seq<Seq<char>> {
    let out = import_output(cmf, p, env);
    match import_launch(p) {
        Launch::Download => Seq::empty(),
        Launch::Python => python_args(cmf, p, env, out),
        Launch::Gguf => gguf_args(p, env, out),
        Launch::Convert => convert_args(p, env, out),
    }
}

pub open spec fn import_program(cmf: CmfCfg, p: ImportParams) -> Seq<char> {
    match import_launch(p) {
        Launch::Download => Seq::empty(),
        Launch::Python => cmf.python_bin@,
        _ => cmf.cortiq_bin@,
    }
}

fn push_opt(args: &mut Vec<String>, flag: &str, v: &Option<String>)
    ensures
        views(final(args)@) == views(old(args)@) + opt_pair(flag@, opt_view(*v)),
{
    let ghost start = views(args@);
    match v {
        Some(x) => {
            args.push(crate::text::owned(flag));
            args.push(x.clone());
            assert(views(args@) =~= start + seq![flag@, x@]);
        },
        None => {
            assert(views(args@) =~= start + Seq::<Seq<char>>::empty());
        },
    }
}

fn push_num(args: &mut Vec<String>, flag: &str, v: Option<u64>)
    ensures
        views(final(args)@) == views(old(args)@) + opt_pair(
            flag@,
            opt_dec(
                match v {
                    Some(n) => Some(n as nat),
                    None => None,
                },
            ),
        ),
{
    let ghost start = views(args@);
    match v {
        Some(n) => {
            args.push(crate::text::owned(flag));
            args.push(crate::text::dec_string(n));
            assert(views(args@) =~= start + seq![flag@, crate::text::dec(n as nat)]);
        },
        None => {
            assert(views(args@) =~= start + Seq::<Seq<char>>::empty());
        },
    }
}

/// Whether the request asks for O(1) attention (a hint that is neither empty
/// nor `off`), which needs the installed `cortiq` version to be checked.
pub fn wants_o1(p: &ImportParams) -> (b: bool)
    ensures
        b == (o1_hint(*p) is Some),
{
    trimmed_opt(&p.o1).is_some()
}

fn trimmed_opt(o: &Option<String>) -> (r: Option<String>)
    ensures
        match *o {
            Some(s) => {
                let t = crate::text::trim(s@);
                if t.len() > 0 && t != "off"@ {
                    r matches Some(x) && x@ == t
                } else {
                    r is None
                }
            },
            None => r is None,
        },
{
    match o {
        Some(s) => {
            let t = crate::text::trimmed(s.as_str());
            if t.as_str().is_empty() || crate::text::str_eq(t.as_str(), "off") {
                None
            } else {
                Some(t)
            }
        },
        None => None,
    }
}

fn build_python_args(cmf: &CmfCfg, p: &ImportParams, env: &ImportEnv, output: &String) -> (args:
    Vec<String>)
    ensures
        views(args@) == python_args(*cmf, *p, *env, output@),
{
    let mut args: Vec<String> = Vec::new();
    match &env.converter_abs {
        Some(c) => args.push(c.clone()),
        None => args.push(cmf.converter.clone()),
    }
    args.push(owned("--model"));
    args.push(p.repo.clone());
    args.push(owned("--quant"));
    args.push(p.quant.clone());
    args.push(owned("--output"));
    args.push(output.clone());
    assert(views(args@) =~= seq![
        match env.converter_abs {
            Some(c) => c@,
            None => cmf.converter@,
        },
        "--model"@,
        p.repo@,
        "--quant"@,
        p.quant@,
        "--output"@,
        output@,
    ]);
    push_opt(&mut args, "--linear-core", &p.linear_core);
    push_num(
        &mut args,
        "--nphase",
        match p.nphase {
            Some(n) => Some(n as u64),
            None => None,
        },
    );
    push_opt(&mut args, "--vbit-shape", &p.vbit_shape);
    push_opt(&mut args, "--mean-bits", &p.mean_bits);
    push_opt(&mut args, "--shard-max-gb", &p.shard_max_gb);
    let ghost before = views(args@);
    if p.skip_mtp {
        args.push(owned("--skip-mtp"));
        assert(views(args@) =~= before + seq!["--skip-mtp"@]);
    } else {
        assert(views(args@) =~= before + Seq::<Seq<char>>::empty());
    }
    args
}

fn build_gguf_args(p: &ImportParams, env: &ImportEnv, output: &String) -> (args: Vec<String>)
    ensures
        views(args@) == gguf_args(*p, *env, output@),
{
    let mut args: Vec<String> = Vec::new();
    args.push(owned("import-gguf"));
    args.push(p.repo.clone());
    args.push(owned("--quant"));
    args.push(owned(map_quant(p.quant.as_str())));
    args.push(owned("--output"));
    args.push(output.clone());
    assert(views(args@) =~= seq![
        "import-gguf"@,
        p.repo@,
        "--quant"@,
        quant_flag(ascii_upper(p.quant@)),
        "--output"@,
        output@,
    ]);
    push_opt(&mut args, "--hf-token", &env.hf_token);
    args
}

fn build_convert_args(p: &ImportParams, env: &ImportEnv, output: &String) -> (args: Vec<String>)
    ensures
        views(args@) == convert_args(*p, *env, output@),
{
    let mut args: Vec<String> = Vec::new();
    args.push(owned("convert"));
    args.push(owned("--model"));
    args.push(p.repo.clone());
    args.push(owned("--quant"));
    args.push(owned(map_quant(p.quant.as_str())));
    args.push(owned("--output"));
    args.push(output.clone());
    assert(views(args@) =~= seq![
        "convert"@,
        "--model"@,
        p.repo@,
        "--quant"@,
        quant_flag(ascii_upper(p.quant@)),
        "--output"@,
        output@,
    ]);
    push_opt(&mut args, "--hf-token", &env.hf_token);
    let ghost with_token = views(args@);
    let o1 = trimmed_opt(&p.o1);
    match &o1 {
        Some(h) => {
            args.push(owned("--o1"));
            args.push(h.clone());
            assert(views(args@) =~= with_token + seq!["--o1"@, h@]);
            push_num(
                &mut args,
                "--o1-m",
                match p.o1_m {
                    Some(n) => Some(n as u64),
                    None => None,
                },
            );
            push_num(
                &mut args,
                "--o1-window",
                match p.o1_window {
                    Some(n) => Some(n as u64),
                    None => None,
                },
            );
            push_num(
                &mut args,
                "--o1-sink",
                match p.o1_sink {
                    Some(n) => Some(n as u64),
                    None => None,
                },
            );
            assert(views(args@) =~= with_token + o1_args(*p));
        },
        None => {
            assert(views(args@) =~= with_token + Seq::<Seq<char>>::empty());
        },
    }
    args
}

/// The reason an import is refused, if it is.
pub fn check_import(cmf: &CmfCfg, p: &ImportParams, env: &ImportEnv) -> (r: Option<String>)
    ensures
        match import_error(*cmf, *p, *env) {
            Some(e) => r matches Some(m) && m@ == e,
            None => r is None,
        },
{
    if is_blank(p.repo.as_str()) {
        return Some(owned("empty repo id"));
    }
    let use_python = p.linear_core.is_some() || p.vbit_shape.is_some() || p.mean_bits.is_some();
    if use_python && !env.converter_exists {
        let mut m = owned("advanced options need the Python converter, not found: ");
        append_str(&mut m, cmf.converter.as_str());
        return Some(m);
    }
    let o1 = trimmed_opt(&p.o1);
    if o1.is_some() {
        if use_python {
            return Some(
                owned(
                    "O(1) attention is supported by the native converter only — remove the linear-core / v-bit shape / mean-bits options to use it",
                ),
            );
        }
        let lower_repo = lower_chars(p.repo.as_str());
        if crate::text::contains_exec(&lower_repo, &chars_of("gguf")) {
            return Some(owned("O(1) attention is not supported for GGUF imports yet"));
        }
        match &env.cortiq_version {
            Some(v) => {
                if crate::cmf::version_lt(v.as_str(), "0.2.0") {
                    let mut m = owned("O(1) attention needs cortiq ≥ 0.2.0 (installed: ");
                    append_str(&mut m, v.as_str());
                    append_str(&mut m, ") — update the runtime in Settings → Local models");
                    return Some(m);
                }
            },
            None => {},
        }
    }
    None
}

/// Validates an import request and works out where its output goes and what
/// runs it: a download of a ready `.cmf`, the Python converter (for the
/// advanced options), `cortiq import-gguf` or `cortiq convert`.
pub fn plan_import(cmf: &CmfCfg, p: &ImportParams, env: &ImportEnv) -> (r: Result<
    ImportPlan,
    String,
>)
    ensures
        match import_error(*cmf, *p, *env) {
            Some(e) => r matches Err(m) && m@ == e,
            None => r matches Ok(plan) && {
                &&& plan.base@ == import_base(*p)
                &&& plan.output@ == import_output(*cmf, *p, *env)
                &&& plan.first_line@ == "→ converting "@ + p.repo@ + " to "@ + import_base(*p)
                    + " ("@ + p.quant@ + ")"@
                &&& plan.launch == import_launch(*p)
                &&& plan.program@ == import_program(*cmf, *p)
                &&& views(plan.args@) == import_args(*cmf, *p, *env)
            },
        },
{
    match check_import(cmf, p, env) {
        Some(m) => {
            return Err(m);
        },
        None => {},
    }
    let base = if is_blank(p.name.as_str()) {
        let seg = last_segment_of(p.repo.as_str());
        sanitize(seg.as_str())
    } else {
        sanitize(p.name.as_str())
    };
    let mut file = base.clone();
    append_str(&mut file, ".cmf");
    let output = match &env.models_dir_abs {
        Some(d) => crate::config::data_path(d.as_str(), file.as_str()),
        None => crate::config::data_path(cmf.models_dir.as_str(), file.as_str()),
    };
    let mut first_line = owned("→ converting ");
    append_str(&mut first_line, p.repo.as_str());
    append_str(&mut first_line, " to ");
    append_str(&mut first_line, base.as_str());
    append_str(&mut first_line, " (");
    append_str(&mut first_line, p.quant.as_str());
    append_str(&mut first_line, ")");
    let use_python = p.linear_core.is_some() || p.vbit_shape.is_some() || p.mean_bits.is_some();
    let (launch, program, args) = if use_python {
        (Launch::Python, cmf.python_bin.clone(), build_python_args(cmf, p, env, &output))
    } else if is_cmf_repo(p.repo.as_str()) {
        (Launch::Download, String::new(), Vec::new())
    } else if crate::text::contains_exec(&lower_chars(p.repo.as_str()), &chars_of("gguf")) {
        (Launch::Gguf, cmf.cortiq_bin.clone(), build_gguf_args(p, env, &output))
    } else {
        (Launch::Convert, cmf.cortiq_bin.clone(), build_convert_args(p, env, &output))
    };
    assert(views(args@) =~= import_args(*cmf, *p, *env));
    Ok(ImportPlan { base, output, first_line, launch, program, args })
}

} // verus!
