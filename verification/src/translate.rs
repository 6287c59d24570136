//! Streaming protocol translation. Each translator reads the upstream SSE
//! bytes through an `SseBuffer`, looks at every complete payload, and says
//! which SSE events the client receives: OpenAI chunks as Anthropic Messages
//! events, Anthropic events as OpenAI chunks, and chat chunks as legacy
//! `text_completion` chunks.

use vstd::prelude::*;
use crate::sse::{SseBuffer, drain};
use crate::stream::{chunk_usage, delta_content, parse_chunk_usage};
use crate::text::{append_str, dec, owned, push_dec, str_eq, views};
use vstd::utf8::{decode_utf8, valid_utf8};

verus! {

// ───────────────────────────── what serde_json reads ─────────────────────

/// One character inside a JSON string literal as `serde_json` writes it: `"`
/// and `\` escaped with a backslash; backspace, tab, line feed, form feed and
/// carriage return as `\b \t \n \f \r`; the other characters below U+0020 as
/// `\u00xx` (lower-case hex); every other character as it is.
pub open spec fn json_escape_char(c: char) -> Seq<char> {
    if c == '"' {
        seq!['\\', '"']
    } else if c == '\\' {
        seq!['\\', '\\']
    } else if c == '\u{8}' {
        seq!['\\', 'b']
    } else if c == '\t' {
        seq!['\\', 't']
    } else if c == '\n' {
        seq!['\\', 'n']
    } else if c == '\u{c}' {
        seq!['\\', 'f']
    } else if c == '\r' {
        seq!['\\', 'r']
    } else if (c as u32) < 0x20 {
        seq![
            '\\',
            'u',
            '0',
            '0',
            crate::text::hex_char_lower((c as u32 / 16) as nat),
            crate::text::hex_char_lower((c as u32 % 16) as nat),
        ]
    } else {
        seq![c]
    }
}

/// The characters of `s`, each escaped as `json_escape_char` says.
pub open spec fn json_escaped(s: Seq<char>) -> Seq<char>
    decreases s.len(),
{
    if s.len() == 0 {
        Seq::empty()
    } else {
        json_escaped(s.drop_last()) + json_escape_char(s.last())
    }
}

/// A string as a JSON string literal, as `serde_json` writes it: the escaped
/// characters between double quotes.
pub open spec fn json_string(s: Seq<char>) -> Seq<char> {
    seq!['"'] + json_escaped(s) + seq!['"']
}

/// Writes `s` as a JSON string literal with `serde_json::to_string`, whose
/// escaping (its `ESCAPE` table and `write_char_escape`) is what
/// `json_string` states; writing a `str` cannot fail.
#[verifier::external_body]
fn quote(s: &str) -> (q: String)
    ensures
        q@ == json_string(s@),
{
    serde_json::to_string(s).unwrap_or_default()
}

/// The `usage` value of a JSON payload, written back as JSON by `serde_json`
/// (`null` when the payload has none); `None` when the payload is not JSON.
pub uninterp spec fn usage_json(data: Seq<char>) -> Option<Seq<char>>;

/// Reads a payload with `serde_json::from_str` and writes its `usage` value
/// back with `serde_json::to_string`. The contract only names the result.
#[verifier::external_body]
fn parse_usage_json(data: &str) -> (r: Option<String>)
    ensures
        crate::model::opt_view(r) == usage_json(data@),
{
    let v: serde_json::Value = serde_json::from_str(data).ok()?;
    serde_json::to_string(&v["usage"]).ok()
}

/// What an Anthropic Messages event payload holds, each field where it is
/// present with the expected JSON type: `type`, `message.usage.input_tokens`,
/// `delta.text`, `usage.output_tokens` and `delta.stop_reason`.
pub struct AnthropicEvent {
    pub kind: Option<String>,
    pub input_tokens: Option<u64>,
    pub delta_text: Option<String>,
    pub output_tokens: Option<u64>,
    pub stop_reason: Option<String>,
}

pub open spec fn event_view(e: AnthropicEvent) -> (Option<Seq<char>>, Option<u64>, Option<Seq<char>>, Option<u64>, Option<Seq<char>>) {
    (
        crate::model::opt_view(e.kind),
        e.input_tokens,
        crate::model::opt_view(e.delta_text),
        e.output_tokens,
        crate::model::opt_view(e.stop_reason),
    )
}

/// What `serde_json` reads from an Anthropic event payload (`None` when it is
/// not JSON).
pub uninterp spec fn anthropic_event(data: Seq<char>) -> Option<(Option<Seq<char>>, Option<u64>, Option<Seq<char>>, Option<u64>, Option<Seq<char>>)>;

/// Reads an Anthropic event payload with `serde_json::from_str` and picks the
/// five fields out of the resulting value. The contract only names the result.
#[verifier::external_body]
fn parse_anthropic_event(data: &str) -> (r: Option<AnthropicEvent>)
    ensures
        match r {
            Some(e) => anthropic_event(data@) == Some(event_view(e)),
            None => anthropic_event(data@) is None,
        },
{
    let v: serde_json::Value = serde_json::from_str(data).ok()?;
    Some(AnthropicEvent {
        kind: v["type"].as_str().map(|s| s.to_string()),
        input_tokens: v["message"]["usage"]["input_tokens"].as_u64(),
        delta_text: v["delta"]["text"].as_str().map(|s| s.to_string()),
        output_tokens: v["usage"]["output_tokens"].as_u64(),
        stop_reason: v["delta"]["stop_reason"].as_str().map(|s| s.to_string()),
    })
}

/// An absent count reads as 0.
pub open spec fn count_or_zero(n: Option<u64>) -> u64 {
    match n {
        Some(v) => v,
        None => 0,
    }
}

/// An absent stop reason reads as `stop`.
pub open spec fn stop_or_default(s: Option<Seq<char>>) -> Seq<char> {
    match s {
        Some(v) => v,
        None => "stop"@,
    }
}

fn count_of(n: Option<u64>) -> (r: u64)
    ensures
        r == count_or_zero(n),
{
    match n {
        Some(v) => v,
        None => 0,
    }
}

fn stop_reason_of(s: &Option<String>) -> (r: &str)
    ensures
        r@ == stop_or_default(crate::model::opt_view(*s)),
{
    match s {
        Some(v) => v.as_str(),
        None => "stop",
    }
}

fn kind_is(kind: &Option<String>, name: &str) -> (b: bool)
    ensures
        b == (crate::model::opt_view(*kind) == Some(name@)),
{
    match kind {
        Some(k) => str_eq(k.as_str(), name),
        None => false,
    }
}

// ───────────────────────────── OpenAI → Anthropic ─────────────────────────

/// An Anthropic SSE event: `event: <name>\ndata: <json>\n\n`.
pub open spec fn anth_event(name: Seq<char>, data: Seq<char>) -> Seq<char> {
    "event: "@ + name + "\ndata: "@ + data + "\n\n"@
}

pub open spec fn anth_start_events() -> Seq<Seq<char>> {
    seq![
        anth_event(
            "message_start"@,
            "{\"message\":{\"content\":[],\"id\":\"msg_gw\",\"model\":\"cortiq-auto\",\"role\":\"assistant\",\"stop_reason\":null,\"type\":\"message\",\"usage\":{\"input_tokens\":0,\"output_tokens\":0}},\"type\":\"message_start\"}"@,
        ),
        anth_event(
            "content_block_start"@,
            "{\"content_block\":{\"text\":\"\",\"type\":\"text\"},\"index\":0,\"type\":\"content_block_start\"}"@,
        ),
    ]
}

pub open spec fn anth_delta_event(text: Seq<char>) -> Seq<char> {
    anth_event(
        "content_block_delta"@,
        "{\"delta\":{\"text\":"@ + json_string(text)
            + ",\"type\":\"text_delta\"},\"index\":0,\"type\":\"content_block_delta\"}"@,
    )
}

pub open spec fn anth_end_events(completion_tokens: u64) -> Seq<Seq<char>> {
    seq![
        anth_event("content_block_stop"@, "{\"index\":0,\"type\":\"content_block_stop\"}"@),
        anth_event(
            "message_delta"@,
            "{\"delta\":{\"stop_reason\":\"end_turn\",\"stop_sequence\":null},\"type\":\"message_delta\",\"usage\":{\"output_tokens\":"@
                + dec(completion_tokens as nat) + "}}"@,
        ),
        anth_event("message_stop"@, "{\"type\":\"message_stop\"}"@),
    ]
}

/// The completion count after one OpenAI payload: a usage object's
/// `completion_tokens` when it has one.
pub open spec fn anth_tokens_after(tokens: u64, p: Seq<char>) -> u64 {
    if p == "[DONE]"@ {
        tokens
    } else {
        match chunk_usage(p) {
            Some(u) => if u.0 {
                match u.2 {
                    Some(c) => c,
                    None => tokens,
                }
            } else {
                tokens
            },
            None => tokens,
        }
    }
}

/// The Anthropic events for one OpenAI payload: a text delta for delta text.
pub open spec fn anth_payload_events(p: Seq<char>) -> Seq<Seq<char>> {
    if p == "[DONE]"@ || chunk_usage(p) is None {
        Seq::empty()
    } else {
        match delta_content(p) {
            Some(t) => seq![anth_delta_event(t)],
            None => Seq::empty(),
        }
    }
}

/// Events and final completion count for a run of OpenAI payloads.
pub open spec fn anth_fold(tokens: u64, ps: Seq<Seq<char>>) -> (Seq<Seq<char>>, u64)
    decreases ps.len(),
{
    if ps.len() == 0 {
        (Seq::empty(), tokens)
    } else {
        let (ev, t) = anth_fold(tokens, ps.drop_last());
        (ev + anth_payload_events(ps.last()), anth_tokens_after(t, ps.last()))
    }
}

/// Turns the gateway's OpenAI-format stream into Anthropic Messages events.
pub struct ToAnthropic {
    buf: SseBuffer,
    completion_tokens: u64,
}

impl ToAnthropic {
    pub closed spec fn pending(&self) -> Seq<char> {
        self.buf@
    }

    pub closed spec fn tokens(&self) -> u64 {
        self.completion_tokens
    }

    /// A translator and the two events that open the message.
    pub fn start() -> (r: (Self, Vec<String>))
        ensures
            r.0.pending() == Seq::<char>::empty(),
            r.0.tokens() == 0,
            views(r.1@) == anth_start_events(),
    {
        let mut ev: Vec<String> = Vec::new();
        ev.push(anth_event_text("message_start", "{\"message\":{\"content\":[],\"id\":\"msg_gw\",\"model\":\"cortiq-auto\",\"role\":\"assistant\",\"stop_reason\":null,\"type\":\"message\",\"usage\":{\"input_tokens\":0,\"output_tokens\":0}},\"type\":\"message_start\"}"));
        ev.push(anth_event_text("content_block_start", "{\"content_block\":{\"text\":\"\",\"type\":\"text\"},\"index\":0,\"type\":\"content_block_start\"}"));
        assert(views(ev@) =~= anth_start_events());
        (ToAnthropic { buf: SseBuffer::new(), completion_tokens: 0 }, ev)
    }

    fn on_payload(&mut self, p: &str, out: &mut Vec<String>)
        ensures
            views(final(out)@) == views(old(out)@) + anth_payload_events(p@),
            final(self).tokens() == anth_tokens_after(old(self).tokens(), p@),
            final(self).pending() == old(self).pending(),
    {
        let ghost start = views(out@);
        if str_eq(p, "[DONE]") {
            assert(views(out@) =~= start + Seq::<Seq<char>>::empty());
            return;
        }
        match parse_chunk_usage(p) {
            None => {
                assert(views(out@) =~= start + Seq::<Seq<char>>::empty());
            },
            Some(u) => {
                if u.has_usage {
                    match u.completion_tokens {
                        Some(c) => {
                            self.completion_tokens = c;
                        },
                        None => {},
                    }
                }
                match &u.delta_text {
                    Some(t) => {
                        let mut data = owned("{\"delta\":{\"text\":");
                        append_str(&mut data, quote(t.as_str()).as_str());
                        append_str(&mut data, ",\"type\":\"text_delta\"},\"index\":0,\"type\":\"content_block_delta\"}");
                        let e = anth_event_text("content_block_delta", data.as_str());
                        out.push(e);
                        assert(views(out@) =~= start + seq![anth_delta_event(t@)]);
                    },
                    None => {
                        assert(views(out@) =~= start + Seq::<Seq<char>>::empty());
                    },
                }
            },
        }
    }

    /// Feeds upstream bytes; returns the events to send for every payload
    /// they complete (bytes that are not UTF-8 are dropped).
    pub fn feed(&mut self, chunk: &[u8]) -> (events: Vec<String>)
        ensures
            ({
                let added = if valid_utf8(chunk@) {
                    decode_utf8(chunk@)
                } else {
                    Seq::empty()
                };
                let (ps, rest) = if valid_utf8(chunk@) {
                    drain(old(self).pending() + added)
                } else {
                    (Seq::empty(), old(self).pending())
                };
                &&& final(self).pending() == rest
                &&& views(events@) == anth_fold(old(self).tokens(), ps).0
                &&& final(self).tokens() == anth_fold(old(self).tokens(), ps).1
            }),
    {
        let ps = self.buf.push_bytes(chunk);
        let ghost pv = views(ps@);
        let ghost t0 = self.completion_tokens;
        let ghost after = self.pending();
        let mut events: Vec<String> = Vec::new();
        let mut i: usize = 0;
        while i < ps.len()
            invariant
                i <= ps@.len(),
                pv == views(ps@),
                (views(events@), self.completion_tokens) == anth_fold(t0, pv.take(i as int)),
                self.pending() == after,
            decreases ps.len() - i,
        {
            assert(pv.take(i + 1).drop_last() =~= pv.take(i as int));
            assert(pv.take(i + 1).last() == ps@[i as int]@);
            self.on_payload(ps[i].as_str(), &mut events);
            i += 1;
        }
        assert(pv.take(pv.len() as int) =~= pv);
        events
    }

    /// The three events that close the message, with the completion count.
    pub fn finish(&self) -> (events: Vec<String>)
        ensures
            views(events@) == anth_end_events(self.tokens()),
    {
        let mut ev: Vec<String> = Vec::new();
        ev.push(anth_event_text("content_block_stop", "{\"index\":0,\"type\":\"content_block_stop\"}"));
        let mut data = owned("{\"delta\":{\"stop_reason\":\"end_turn\",\"stop_sequence\":null},\"type\":\"message_delta\",\"usage\":{\"output_tokens\":");
        push_dec(&mut data, self.completion_tokens);
        append_str(&mut data, "}}");
        ev.push(anth_event_text("message_delta", data.as_str()));
        ev.push(anth_event_text("message_stop", "{\"type\":\"message_stop\"}"));
        assert(views(ev@) =~= anth_end_events(self.tokens()));
        ev
    }
}

fn anth_event_text(name: &str, data: &str) -> (e: String)
    ensures
        e@ == anth_event(name@, data@),
{
    let mut e = owned("event: ");
    append_str(&mut e, name);
    append_str(&mut e, "\ndata: ");
    append_str(&mut e, data);
    append_str(&mut e, "\n\n");
    e
}

// ───────────────────────────── Anthropic → OpenAI ─────────────────────────

/// An OpenAI SSE event: `data: <json>\n\n`.
pub open spec fn data_event(data: Seq<char>) -> Seq<char> {
    "data: "@ + data + "\n\n"@
}

pub open spec fn role_chunk() -> Seq<char> {
    data_event("{\"choices\":[{\"delta\":{\"role\":\"assistant\"},\"finish_reason\":null,\"index\":0}]}"@)
}

pub open spec fn content_chunk(t: Seq<char>) -> Seq<char> {
    data_event("{\"choices\":[{\"delta\":{\"content\":"@ + json_string(t) + "},\"finish_reason\":null,\"index\":0}]}"@)
}

pub open spec fn finish_chunk(stop: Seq<char>) -> Seq<char> {
    data_event("{\"choices\":[{\"delta\":{},\"finish_reason\":"@ + json_string(stop) + ",\"index\":0}]}"@)
}

pub open spec fn usage_chunk(input: u64, output: u64) -> Seq<char> {
    data_event(
        "{\"choices\":[],\"usage\":{\"completion_tokens\":"@ + dec(output as nat)
            + ",\"prompt_tokens\":"@ + dec(input as nat) + ",\"total_tokens\":"@ + dec(
            input.wrapping_add(output) as nat,
        ) + "}}"@,
    )
}

/// State of the Anthropic → OpenAI translation: prompt tokens seen, whether
/// the assistant role was announced.
pub open spec fn oa_step(st: (u64, bool), p: Seq<char>) -> ((u64, bool), Seq<Seq<char>>) {
    match anthropic_event(p) {
        None => (st, Seq::empty()),
        Some((kind, input, text, output, stop)) => if kind == Some("message_start"@) {
            if !st.1 {
                ((count_or_zero(input), true), seq![role_chunk()])
            } else {
                ((count_or_zero(input), st.1), Seq::empty())
            }
        } else if kind == Some("content_block_delta"@) {
            match text {
                Some(t) => (st, seq![content_chunk(t)]),
                None => (st, Seq::empty()),
            }
        } else if kind == Some("message_delta"@) {
            (st, seq![finish_chunk(stop_or_default(stop)), usage_chunk(st.0, count_or_zero(output))])
        } else {
            (st, Seq::empty())
        },
    }
}

pub open spec fn oa_fold(st: (u64, bool), ps: Seq<Seq<char>>) -> ((u64, bool), Seq<Seq<char>>)
    decreases ps.len(),
{
    if ps.len() == 0 {
        (st, Seq::empty())
    } else {
        let (s1, ev) = oa_fold(st, ps.drop_last());
        let (s2, ev2) = oa_step(s1, ps.last());
        (s2, ev + ev2)
    }
}

/// Turns an Anthropic Messages stream into OpenAI `chat.completion.chunk`s.
pub struct ToOpenAi {
    buf: SseBuffer,
    input_tokens: u64,
    role_sent: bool,
}

impl ToOpenAi {
    pub closed spec fn pending(&self) -> Seq<char> {
        self.buf@
    }

    pub closed spec fn state(&self) -> (u64, bool) {
        (self.input_tokens, self.role_sent)
    }

    pub fn new() -> (t: Self)
        ensures
            t.pending() == Seq::<char>::empty(),
            t.state() == (0u64, false),
    {
        ToOpenAi { buf: SseBuffer::new(), input_tokens: 0, role_sent: false }
    }

    fn on_payload(&mut self, p: &str, out: &mut Vec<String>)
        ensures
            views(final(out)@) == views(old(out)@) + oa_step(old(self).state(), p@).1,
            final(self).state() == oa_step(old(self).state(), p@).0,
            final(self).pending() == old(self).pending(),
    {
        let ghost start = views(out@);
        match parse_anthropic_event(p) {
            None => {
                assert(views(out@) =~= start + Seq::<Seq<char>>::empty());
            },
            Some(e) => {
                if kind_is(&e.kind, "message_start") {
                    self.input_tokens = count_of(e.input_tokens);
                    if !self.role_sent {
                        self.role_sent = true;
                        out.push(data_event_text("{\"choices\":[{\"delta\":{\"role\":\"assistant\"},\"finish_reason\":null,\"index\":0}]}"));
                        assert(views(out@) =~= start + seq![role_chunk()]);
                    } else {
                        assert(views(out@) =~= start + Seq::<Seq<char>>::empty());
                    }
                } else if kind_is(&e.kind, "content_block_delta") {
                    match &e.delta_text {
                        Some(t) => {
                            let mut d = owned("{\"choices\":[{\"delta\":{\"content\":");
                            append_str(&mut d, quote(t.as_str()).as_str());
                            append_str(&mut d, "},\"finish_reason\":null,\"index\":0}]}");
                            out.push(data_event_text(d.as_str()));
                            assert(views(out@) =~= start + seq![content_chunk(t@)]);
                        },
                        None => {
                            assert(views(out@) =~= start + Seq::<Seq<char>>::empty());
                        },
                    }
                } else if kind_is(&e.kind, "message_delta") {
                    let mut d = owned("{\"choices\":[{\"delta\":{},\"finish_reason\":");
                    let stop = stop_reason_of(&e.stop_reason);
                    let output = count_of(e.output_tokens);
                    append_str(&mut d, quote(stop).as_str());
                    append_str(&mut d, ",\"index\":0}]}");
                    out.push(data_event_text(d.as_str()));
                    let mut u = owned("{\"choices\":[],\"usage\":{\"completion_tokens\":");
                    push_dec(&mut u, output);
                    append_str(&mut u, ",\"prompt_tokens\":");
                    push_dec(&mut u, self.input_tokens);
                    append_str(&mut u, ",\"total_tokens\":");
                    push_dec(&mut u, self.input_tokens.wrapping_add(output));
                    append_str(&mut u, "}}");
                    out.push(data_event_text(u.as_str()));
                    assert(views(out@) =~= start + seq![finish_chunk(stop@), usage_chunk(self.input_tokens, output)]);
                } else {
                    assert(views(out@) =~= start + Seq::<Seq<char>>::empty());
                }
            },
        }
    }

    /// Feeds upstream bytes; returns the chunks to send for every event they
    /// complete (bytes that are not UTF-8 are dropped).
    pub fn feed(&mut self, chunk: &[u8]) -> (events: Vec<String>)
        ensures
            ({
                let (ps, rest) = if valid_utf8(chunk@) {
                    drain(old(self).pending() + decode_utf8(chunk@))
                } else {
                    (Seq::empty(), old(self).pending())
                };
                &&& final(self).pending() == rest
                &&& views(events@) == oa_fold(old(self).state(), ps).1
                &&& final(self).state() == oa_fold(old(self).state(), ps).0
            }),
    {
        let ps = self.buf.push_bytes(chunk);
        let ghost pv = views(ps@);
        let ghost s0 = self.state();
        let ghost after = self.pending();
        let mut events: Vec<String> = Vec::new();
        let mut i: usize = 0;
        while i < ps.len()
            invariant
                i <= ps@.len(),
                pv == views(ps@),
                (self.state(), views(events@)) == oa_fold(s0, pv.take(i as int)),
                self.pending() == after,
            decreases ps.len() - i,
        {
            assert(pv.take(i + 1).drop_last() =~= pv.take(i as int));
            assert(pv.take(i + 1).last() == ps@[i as int]@);
            self.on_payload(ps[i].as_str(), &mut events);
            i += 1;
        }
        assert(pv.take(pv.len() as int) =~= pv);
        events
    }

    /// The end-of-stream marker.
    pub fn finish(&self) -> (e: String)
        ensures
            e@ == data_event("[DONE]"@),
    {
        data_event_text("[DONE]")
    }
}

fn data_event_text(data: &str) -> (e: String)
    ensures
        e@ == data_event(data@),
{
    let mut e = owned("data: ");
    append_str(&mut e, data);
    append_str(&mut e, "\n\n");
    e
}

// ───────────────────────────── chat → legacy completions ──────────────────

/// The legacy `text_completion` chunks for one chat chunk payload: `[DONE]`
/// passes through; a usage object is forwarded, then delta text becomes
/// `text`.
pub open spec fn completion_events(p: Seq<char>) -> Seq<Seq<char>> {
    if p == "[DONE]"@ {
        seq![data_event("[DONE]"@)]
    } else {
        match chunk_usage(p) {
            None => Seq::empty(),
            Some(u) => (if u.0 {
                match usage_json(p) {
                    Some(t) => seq![
                        data_event(
                            "{\"choices\":[],\"object\":\"text_completion\",\"usage\":"@ + t + "}"@,
                        ),
                    ],
                    None => Seq::empty(),
                }
            } else {
                Seq::empty()
            }) + match u.3 {
                Some(t) => seq![
                    data_event(
                        "{\"choices\":[{\"finish_reason\":null,\"index\":0,\"text\":"@ + json_string(t)
                            + "}],\"object\":\"text_completion\"}"@,
                    ),
                ],
                None => Seq::empty(),
            },
        }
    }
}

pub open spec fn completion_fold(ps: Seq<Seq<char>>) -> Seq<Seq<char>>
    decreases ps.len(),
{
    if ps.len() == 0 {
        Seq::empty()
    } else {
        completion_fold(ps.drop_last()) + completion_events(ps.last())
    }
}

/// Turns chat chunks into legacy completion chunks.
pub struct ToCompletions {
    buf: SseBuffer,
}

impl ToCompletions {
    pub closed spec fn pending(&self) -> Seq<char> {
        self.buf@
    }

    pub fn new() -> (t: Self)
        ensures
            t.pending() == Seq::<char>::empty(),
    {
        ToCompletions { buf: SseBuffer::new() }
    }

    fn on_payload(p: &str, out: &mut Vec<String>)
        ensures
            views(final(out)@) == views(old(out)@) + completion_events(p@),
    {
        let ghost start = views(out@);
        if str_eq(p, "[DONE]") {
            out.push(data_event_text("[DONE]"));
            assert(views(out@) =~= start + completion_events(p@));
            return;
        }
        let u = match parse_chunk_usage(p) {
            Some(u) => u,
            None => {
                assert(views(out@) =~= start + completion_events(p@));
                return;
            },
        };
        if u.has_usage {
            match parse_usage_json(p) {
                Some(t) => {
                    let mut d = owned("{\"choices\":[],\"object\":\"text_completion\",\"usage\":");
                    append_str(&mut d, t.as_str());
                    append_str(&mut d, "}");
                    out.push(data_event_text(d.as_str()));
                },
                None => {},
            }
        }
        match &u.delta_text {
            Some(t) => {
                let mut d = owned("{\"choices\":[{\"finish_reason\":null,\"index\":0,\"text\":");
                append_str(&mut d, quote(t.as_str()).as_str());
                append_str(&mut d, "}],\"object\":\"text_completion\"}");
                out.push(data_event_text(d.as_str()));
            },
            None => {},
        }
        assert(views(out@) =~= start + completion_events(p@));
    }

    /// Feeds upstream bytes; returns the legacy chunks for every payload they
    /// complete (bytes that are not UTF-8 are dropped).
    pub fn feed(&mut self, chunk: &[u8]) -> (events: Vec<String>)
        ensures
            ({
                let (ps, rest) = if valid_utf8(chunk@) {
                    drain(old(self).pending() + decode_utf8(chunk@))
                } else {
                    (Seq::empty(), old(self).pending())
                };
                &&& final(self).pending() == rest
                &&& views(events@) == completion_fold(ps)
            }),
    {
        let ps = self.buf.push_bytes(chunk);
        let ghost pv = views(ps@);
        let mut events: Vec<String> = Vec::new();
        let mut i: usize = 0;
        while i < ps.len()
            invariant
                i <= ps@.len(),
                pv == views(ps@),
                views(events@) == completion_fold(pv.take(i as int)),
            decreases ps.len() - i,
        {
            assert(pv.take(i + 1).drop_last() =~= pv.take(i as int));
            assert(pv.take(i + 1).last() == ps@[i as int]@);
            Self::on_payload(ps[i].as_str(), &mut events);
            i += 1;
        }
        assert(pv.take(pv.len() as int) =~= pv);
        events
    }
}

/// After an OpenAI payload whose `usage` object reports `completion_tokens`
/// `c`, the output count the Anthropic stream reports is `c`, whatever was
/// counted before and whatever else (such as `prompt_tokens`) the usage
/// object holds; a payload without that count leaves the count as it was.
pub proof fn law_output_count_is_reported_completion(tokens: u64, p: Seq<char>)
    ensures
        p != "[DONE]"@ ==> match chunk_usage(p) {
            Some((true, _, Some(c), _)) => anth_tokens_after(tokens, p) == c,
            _ => anth_tokens_after(tokens, p) == tokens,
        },
        p == "[DONE]"@ ==> anth_tokens_after(tokens, p) == tokens,
{
}

/// The last payload that reports a completion count decides the count the
/// closing `message_delta` event carries.
pub proof fn law_last_reported_count_wins(tokens: u64, ps: Seq<Seq<char>>, p: Seq<char>, c: u64)
    requires
        p != "[DONE]"@,
        chunk_usage(p) matches Some((true, _, Some(x), _)) && x == c,
    ensures
        anth_fold(tokens, ps.push(p)).1 == c,
{
    assert(ps.push(p).drop_last() =~= ps);
}

/// Translating an Anthropic stream: `message_start` records the prompt
/// count it carries, and `message_delta` ends the choice with its stop
/// reason and reports its output count as `completion_tokens`, the recorded
/// prompt count as `prompt_tokens`, and their sum as `total_tokens`.
pub proof fn law_anthropic_usage_is_reported(
    st: (u64, bool),
    p: Seq<char>,
    kind: Seq<char>,
    input: Option<u64>,
    text: Option<Seq<char>>,
    output: Option<u64>,
    stop: Option<Seq<char>>,
)
    requires
        anthropic_event(p) == Some((Some(kind), input, text, output, stop)),
    ensures
        kind == "message_start"@ ==> oa_step(st, p).0.0 == count_or_zero(input),
        kind == "message_delta"@ ==> oa_step(st, p).0 == st && oa_step(st, p).1 == seq![
            data_event(
                "{\"choices\":[{\"delta\":{},\"finish_reason\":"@ + json_string(stop_or_default(stop))
                    + ",\"index\":0}]}"@,
            ),
            data_event(
                "{\"choices\":[],\"usage\":{\"completion_tokens\":"@ + dec(count_or_zero(output) as nat)
                    + ",\"prompt_tokens\":"@ + dec(st.0 as nat) + ",\"total_tokens\":"@ + dec(
                    st.0.wrapping_add(count_or_zero(output)) as nat,
                ) + "}}"@,
            ),
        ],
{
    reveal_strlit("message_start");
    reveal_strlit("message_delta");
    reveal_strlit("content_block_delta");
    assert("message_delta"@[8] != "message_start"@[8]);
    assert("message_delta"@ != "message_start"@);
    assert("message_delta"@.len() != "content_block_delta"@.len());
}

} // verus!
