//! Rules of the inbound protocol adapters: which adapter is switched on, how a
//! request's text fields are flattened, how an Anthropic conversation becomes
//! canonical turns, what the native `/route` endpoint answers, and how MCP
//! (JSON-RPC) methods and tools are dispatched.

use vstd::prelude::*;
use crate::config::{Config, ModelCfg, ProtocolsCfg};
use crate::error::{message_of, GatewayError};
use crate::model::{Message, RoutingDirective};
use crate::pipeline::{join, turns};
use crate::routing::{candidates_of, RoutingTable};
use crate::text::{append_str, owned, str_eq, str_starts_with, starts_with, views};
use vstd::string::StrSliceExecFns;

verus! {

// ───────────────────────────── adapter switches ──────────────────────────

/// The inbound protocol adapters.
pub enum Adapter {
    OpenAiChat,
    OpenAiCompletions,
    OpenAiEmbeddings,
    OpenAiModels,
    AnthropicMessages,
    Mcp,
    NativePassthrough,
}

/// The name under which an adapter is switched in `[protocols]`.
pub open spec fn adapter_name(a: Adapter) -> Seq<char> {
    match a {
        Adapter::OpenAiChat => "openai_chat"@,
        Adapter::OpenAiCompletions => "openai_completions"@,
        Adapter::OpenAiEmbeddings => "openai_embeddings"@,
        Adapter::OpenAiModels => "openai_models"@,
        Adapter::AnthropicMessages => "anthropic_messages"@,
        Adapter::Mcp => "mcp"@,
        Adapter::NativePassthrough => "native_passthrough"@,
    }
}

/// Whether the configuration switches an adapter on.
pub open spec fn adapter_enabled(p: ProtocolsCfg, a: Adapter) -> bool {
    match a {
        Adapter::OpenAiChat => p.openai_chat,
        Adapter::OpenAiCompletions => p.openai_completions,
        Adapter::OpenAiEmbeddings => p.openai_embeddings,
        Adapter::OpenAiModels => p.openai_models,
        Adapter::AnthropicMessages => p.anthropic_messages,
        Adapter::Mcp => p.mcp,
        Adapter::NativePassthrough => p.native_passthrough,
    }
}

/// An invalid-request error with the given message.
pub open spec fn invalid_with(e: GatewayError, msg: Seq<char>) -> bool {
    e is InvalidRequest && message_of(e) == msg
}

fn invalid(msg: String) -> (e: GatewayError)
    ensures
        invalid_with(e, msg@),
{
    GatewayError::InvalidRequest(msg)
}

/// Lets a request through an adapter only while the live configuration
/// switches that adapter on; otherwise the request is refused as invalid with
/// `<name> protocol is disabled`.
pub fn gate(p: &ProtocolsCfg, a: Adapter) -> (r: Result<(), GatewayError>)
    ensures
        r is Ok <==> adapter_enabled(*p, a),
        match r {
            Ok(_) => true,
            Err(e) => invalid_with(e, adapter_name(a) + " protocol is disabled"@),
        },
{
    let (on, name) = match a {
        Adapter::OpenAiChat => (p.openai_chat, "openai_chat"),
        Adapter::OpenAiCompletions => (p.openai_completions, "openai_completions"),
        Adapter::OpenAiEmbeddings => (p.openai_embeddings, "openai_embeddings"),
        Adapter::OpenAiModels => (p.openai_models, "openai_models"),
        Adapter::AnthropicMessages => (p.anthropic_messages, "anthropic_messages"),
        Adapter::Mcp => (p.mcp, "mcp"),
        Adapter::NativePassthrough => (p.native_passthrough, "native_passthrough"),
    };
    if on {
        Ok(())
    } else {
        let mut m = owned(name);
        append_str(&mut m, " protocol is disabled");
        Err(invalid(m))
    }
}

/// A chat request needs at least one turn: with none it is refused as invalid
/// with `messages must not be empty`.
pub fn require_messages(count: usize) -> (r: Result<(), GatewayError>)
    ensures
        r is Ok <==> count > 0,
        match r {
            Ok(_) => true,
            Err(e) => invalid_with(e, "messages must not be empty"@),
        },
{
    if count > 0 {
        Ok(())
    } else {
        Err(invalid(owned("messages must not be empty")))
    }
}

// ───────────────────────────── text fields ───────────────────────────────

/// A JSON value read for its text: a string, an array (each element's text,
/// where it has one), or anything else.
pub enum TextValue {
    Text(String),
    List(Vec<Option<String>>),
    Other,
}

/// The texts that are present, in order.
pub open spec fn present(items: Seq<Option<String>>) -> Seq<Seq<char>>
    decreases items.len(),
{
    if items.len() == 0 {
        Seq::empty()
    } else {
        let p = present(items.drop_last());
        match items.last() {
            Some(t) => p.push(t@),
            None => p,
        }
    }
}

/// The text of a value: a string as it is, the present texts of an array
/// joined by `sep`, and nothing for anything else.
pub open spec fn flat_text(v: TextValue, sep: Seq<char>) -> Seq<char> {
    match v {
        TextValue::Text(s) => s@,
        TextValue::List(items) => join(present(items@), sep),
        TextValue::Other => Seq::empty(),
    }
}

fn flatten(v: &TextValue, sep: &str) -> (r: String)
    ensures
        r@ == flat_text(*v, sep@),
{
    match v {
        TextValue::Text(s) => s.clone(),
        TextValue::Other => String::new(),
        TextValue::List(items) => {
            let mut r = String::new();
            let mut first = true;
            let mut i: usize = 0;
            while i < items.len()
                invariant
                    i <= items@.len(),
                    first == (present(items@.take(i as int)).len() == 0),
                    r@ == join(present(items@.take(i as int)), sep@),
                decreases items.len() - i,
            {
                assert(items@.take(i + 1).drop_last() =~= items@.take(i as int));
                let ghost before = present(items@.take(i as int));
                match &items[i] {
                    Some(t) => {
                        if !first {
                            append_str(&mut r, sep);
                        }
                        append_str(&mut r, t.as_str());
                        first = false;
                        assert(before.push(t@).drop_last() =~= before);
                    },
                    None => {},
                }
                i += 1;
            }
            assert(items@.take(items@.len() as int) =~= items@);
            r
        },
    }
}

/// Anthropic content (a string, or an array of blocks): the string, or the
/// text of the blocks that have one, joined without separator.
pub fn content_to_string(v: &TextValue) -> (r: String)
    ensures
        r@ == flat_text(*v, Seq::empty()),
{
    proof {
        reveal_strlit("");
        assert(""@ =~= Seq::<char>::empty());
    }
    flatten(v, "")
}

/// A legacy completions prompt (a string, or an array of strings): the string,
/// or the strings of the array joined by newlines.
pub fn prompt_to_string(v: &TextValue) -> (r: String)
    ensures
        r@ == flat_text(*v, "\n"@),
{
    flatten(v, "\n")
}

/// The prompt of a legacy completions request; an empty one is refused as
/// invalid with `prompt must not be empty`.
pub fn completion_prompt(v: &TextValue) -> (r: Result<String, GatewayError>)
    ensures
        r is Ok <==> flat_text(*v, "\n"@).len() > 0,
        match r {
            Ok(p) => p@ == flat_text(*v, "\n"@),
            Err(e) => invalid_with(e, "prompt must not be empty"@),
        },
{
    let p = prompt_to_string(v);
    if p.as_str().unicode_len() == 0 {
        Err(invalid(owned("prompt must not be empty")))
    } else {
        Ok(p)
    }
}

// ───────────────────────────── model listing ─────────────────────────────

/// The `(id, owned_by)` pairs of `/v1/models`: the virtual `cortiq-auto`
/// (owned by `cortiq`), then each configured model with its provider.
pub open spec fn listing_of(models: Seq<ModelCfg>) -> Seq<(Seq<char>, Seq<char>)> {
    seq![("cortiq-auto"@, "cortiq"@)] + models.map_values(|m: ModelCfg| (m.id@, m.provider@))
}

pub open spec fn pair_views(v: Seq<(String, String)>) -> Seq<(Seq<char>, Seq<char>)> {
    v.map_values(|p: (String, String)| (p.0@, p.1@))
}

/// The models `/v1/models` lists for a configuration.
pub fn model_listing(cfg: &Config) -> (r: Vec<(String, String)>)
    ensures
        pair_views(r@) == listing_of(cfg.models@),
{
    let mut r: Vec<(String, String)> = Vec::new();
    r.push((owned("cortiq-auto"), owned("cortiq")));
    let ghost f = |m: ModelCfg| (m.id@, m.provider@);
    let mut i: usize = 0;
    while i < cfg.models.len()
        invariant
            i <= cfg.models@.len(),
            f == (|m: ModelCfg| (m.id@, m.provider@)),
            pair_views(r@) == seq![("cortiq-auto"@, "cortiq"@)] + cfg.models@.take(i as int).map_values(f),
        decreases cfg.models.len() - i,
    {
        let ghost before = pair_views(r@);
        r.push((cfg.models[i].id.clone(), cfg.models[i].provider.clone()));
        assert(pair_views(r@) =~= before.push(f(cfg.models@[i as int])));
        assert(cfg.models@.take(i + 1).map_values(f) =~= cfg.models@.take(i as int).map_values(f).push(f(cfg.models@[i as int])));
        i += 1;
    }
    assert(cfg.models@.take(cfg.models@.len() as int) =~= cfg.models@);
    r
}

// ───────────────────────────── Anthropic Messages ────────────────────────

/// One turn of an Anthropic request: its `role` (when it is a string) and its
/// content.
pub struct TurnIn {
    pub role: Option<String>,
    pub content: TextValue,
}

/// The role of a turn; a turn without one is the user's.
pub open spec fn role_or_user(role: Option<String>) -> Seq<char> {
    match role {
        Some(r) => r@,
        None => "user"@,
    }
}

/// The canonical turns of an Anthropic request: a system turn first when the
/// flattened system prompt is non-empty, then each turn with its flattened
/// content.
pub open spec fn anthropic_turns(system: TextValue, ts: Seq<TurnIn>) -> Seq<(Seq<char>, Seq<char>)> {
    let sys = flat_text(system, Seq::empty());
    let head: Seq<(Seq<char>, Seq<char>)> = if sys.len() == 0 {
        Seq::empty()
    } else {
        seq![("system"@, sys)]
    };
    head + ts.map_values(|t: TurnIn| (role_or_user(t.role), flat_text(t.content, Seq::empty())))
}

/// Builds the canonical conversation of an Anthropic Messages request; a
/// request without turns is refused as invalid.
pub fn anthropic_messages(system: &TextValue, ts: &Vec<TurnIn>) -> (r: Result<Vec<Message>, GatewayError>)
    ensures
        r is Ok <==> ts@.len() > 0,
        match r {
            Ok(ms) => turns(ms@) == anthropic_turns(*system, ts@),
            Err(e) => invalid_with(e, "messages must not be empty"@),
        },
{
    require_messages(ts.len())?;
    let mut ms: Vec<Message> = Vec::new();
    let sys = content_to_string(system);
    if sys.as_str().unicode_len() > 0 {
        ms.push(Message { role: owned("system"), content: sys });
    }
    let ghost head = turns(ms@);
    proof {
        reveal_strlit("");
        assert(""@ =~= Seq::<char>::empty());
        let sv = flat_text(*system, Seq::empty());
        if sv.len() == 0 {
            assert(head =~= Seq::<(Seq<char>, Seq<char>)>::empty());
        } else {
            assert(head =~= seq![("system"@, sv)]);
        }
    }
    let mut i: usize = 0;
    while i < ts.len()
        invariant
            i <= ts@.len(),
            turns(ms@) == head + ts@.take(i as int).map_values(
                |t: TurnIn| (role_or_user(t.role), flat_text(t.content, Seq::empty())),
            ),
        decreases ts.len() - i,
    {
        let role = match &ts[i].role {
            Some(r) => r.clone(),
            None => owned("user"),
        };
        let content = content_to_string(&ts[i].content);
        let ghost before = turns(ms@);
        ms.push(Message { role, content });
        assert(turns(ms@) =~= before.push((role_or_user(ts@[i as int].role), flat_text(ts@[i as int].content, Seq::empty()))));
        assert(ts@.take(i + 1).map_values(
            |t: TurnIn| (role_or_user(t.role), flat_text(t.content, Seq::empty())),
        ) =~= ts@.take(i as int).map_values(
            |t: TurnIn| (role_or_user(t.role), flat_text(t.content, Seq::empty())),
        ).push((role_or_user(ts@[i as int].role), flat_text(ts@[i as int].content, Seq::empty()))));
        i += 1;
    }
    assert(ts@.take(ts@.len() as int) =~= ts@);
    Ok(ms)
}

// ───────────────────────────── native /route ─────────────────────────────

/// The text a `/route` request asks about: its `text`, else `input.text`,
/// else `input` itself when it is a string (empty when none is given).
pub open spec fn native_text_of(text: Option<String>, input_text: Option<String>, input_str: Option<String>) -> Seq<char> {
    match text {
        Some(t) => t@,
        None => match input_text {
            Some(t) => t@,
            None => match input_str {
                Some(t) => t@,
                None => Seq::empty(),
            },
        },
    }
}

pub open spec fn missing_text_message() -> Seq<char> {
    "missing input text (use {\"text\": ...} or {\"input\": {\"text\": ...}})"@
}

/// Picks the text of a `/route` request; an empty one is refused as invalid.
pub fn native_text(text: Option<String>, input_text: Option<String>, input_str: Option<String>) -> (r: Result<String, GatewayError>)
    ensures
        r is Ok <==> native_text_of(text, input_text, input_str).len() > 0,
        match r {
            Ok(t) => t@ == native_text_of(text, input_text, input_str),
            Err(e) => invalid_with(e, missing_text_message()),
        },
{
    let t = match text {
        Some(t) => t,
        None => match input_text {
            Some(t) => t,
            None => match input_str {
                Some(t) => t,
                None => String::new(),
            },
        },
    };
    if t.as_str().unicode_len() == 0 {
        Err(invalid(owned("missing input text (use {\"text\": ...} or {\"input\": {\"text\": ...}})")))
    } else {
        Ok(t)
    }
}

/// What the native `/route` endpoint answers besides the decision itself.
pub struct NativeRoute {
    /// `router` when the router answered, `fallback` otherwise.
    pub source: String,
    pub candidates: Vec<String>,
    /// The first candidate (empty when there is none).
    pub selected: String,
}

/// Source, candidates and selection of `/route`: with the router's tier, that
/// tier's candidates; without a reply, the default model alone.
pub fn native_route(routing: &RoutingTable, tier: Option<&str>) -> (r: NativeRoute)
    ensures
        match tier {
            Some(t) => r.source@ == "router"@ && views(r.candidates@) == candidates_of(routing@, t@),
            None => r.source@ == "fallback"@ && views(r.candidates@) == seq![routing@.default],
        },
        r.selected@ == (if r.candidates@.len() > 0 {
            r.candidates@[0]@
        } else {
            Seq::empty()
        }),
{
    let (source, candidates) = match tier {
        Some(t) => (owned("router"), routing.candidates(t)),
        None => {
            let mut c: Vec<String> = Vec::new();
            c.push(owned(routing.default_model()));
            assert(views(c@) =~= seq![routing@.default]);
            (owned("fallback"), c)
        },
    };
    let selected = if candidates.len() > 0 {
        candidates[0].clone()
    } else {
        String::new()
    };
    NativeRoute { source, candidates, selected }
}

// ───────────────────────────── MCP ───────────────────────────────────────

/// How a JSON-RPC request to `/mcp` is answered.
pub enum McpMethod {
    /// No id, or a `notifications/...` method: accepted without a body.
    Notification,
    Initialize,
    Ping,
    ToolsList,
    ToolsCall,
    /// Any other method: a `method not found` error.
    NotFound,
}

pub open spec fn or_empty(s: Option<String>) -> Seq<char> {
    match s {
        Some(v) => v@,
        None => Seq::empty(),
    }
}

/// The answer for a request with the given `method` (absent reads as empty)
/// and whether it carries an id.
pub open spec fn mcp_method_of(method: Option<String>, has_id: bool) -> McpMethod {
    let m = or_empty(method);
    if !has_id || starts_with(m, "notifications/"@) {
        McpMethod::Notification
    } else if m == "initialize"@ {
        McpMethod::Initialize
    } else if m == "ping"@ {
        McpMethod::Ping
    } else if m == "tools/list"@ {
        McpMethod::ToolsList
    } else if m == "tools/call"@ {
        McpMethod::ToolsCall
    } else {
        McpMethod::NotFound
    }
}

fn text_or_empty(s: &Option<String>) -> (r: &str)
    ensures
        r@ == or_empty(*s),
{
    match s {
        Some(v) => v.as_str(),
        None => {
            proof {
                reveal_strlit("");
                assert(""@ =~= Seq::<char>::empty());
            }
            ""
        },
    }
}

/// Dispatches a JSON-RPC request to `/mcp`.
pub fn mcp_method(method: &Option<String>, has_id: bool) -> (r: McpMethod)
    ensures
        r == mcp_method_of(*method, has_id),
{
    let m = text_or_empty(method);
    if !has_id || str_starts_with(m, "notifications/") {
        McpMethod::Notification
    } else if str_eq(m, "initialize") {
        McpMethod::Initialize
    } else if str_eq(m, "ping") {
        McpMethod::Ping
    } else if str_eq(m, "tools/list") {
        McpMethod::ToolsList
    } else if str_eq(m, "tools/call") {
        McpMethod::ToolsCall
    } else {
        McpMethod::NotFound
    }
}

/// The JSON-RPC error for an unknown method: code -32601 and
/// `method not found: <method>`.
pub fn method_not_found(method: &Option<String>) -> (e: (i64, String))
    ensures
        e.0 == -32601,
        e.1@ == "method not found: "@ + or_empty(*method),
{
    let mut m = owned("method not found: ");
    append_str(&mut m, text_or_empty(method));
    (-32601, m)
}

/// The protocol version an `initialize` answer carries: the one the client
/// asked for, else `2024-11-05`.
pub fn protocol_version(requested: &Option<String>) -> (v: String)
    ensures
        v@ == (match *requested {
            Some(r) => r@,
            None => "2024-11-05"@,
        }),
{
    match requested {
        Some(r) => r.clone(),
        None => owned("2024-11-05"),
    }
}

/// The tools the MCP server offers.
pub enum McpTool {
    /// `cortiq_route`: classify a prompt.
    Route,
    /// `cortiq_chat`: answer a prompt through routing.
    Chat,
    Unknown,
}

pub open spec fn mcp_tool_of(name: Option<String>) -> McpTool {
    let n = or_empty(name);
    if n == "cortiq_route"@ {
        McpTool::Route
    } else if n == "cortiq_chat"@ {
        McpTool::Chat
    } else {
        McpTool::Unknown
    }
}

/// Dispatches a `tools/call` by the tool's `name` (absent reads as empty).
pub fn mcp_tool(name: &Option<String>) -> (t: McpTool)
    ensures
        t == mcp_tool_of(*name),
{
    let n = text_or_empty(name);
    if str_eq(n, "cortiq_route") {
        McpTool::Route
    } else if str_eq(n, "cortiq_chat") {
        McpTool::Chat
    } else {
        McpTool::Unknown
    }
}

/// The JSON-RPC error for an unknown tool: code -32602 and
/// `unknown tool '<name>'`.
pub fn unknown_tool(name: &Option<String>) -> (e: (i64, String))
    ensures
        e.0 == -32602,
        e.1@ == "unknown tool '"@ + or_empty(*name) + "'"@,
{
    let mut m = owned("unknown tool '");
    append_str(&mut m, text_or_empty(name));
    append_str(&mut m, "'");
    (-32602, m)
}

/// The directive of a `cortiq_chat` call: its `model` argument parsed as an
/// inbound `model` field, `cortiq-auto` when it has none.
pub fn chat_tool_routing(model: &Option<String>) -> (d: RoutingDirective)
    ensures
        crate::model::parses_to(
            match *model {
                Some(m) => m@,
                None => "cortiq-auto"@,
            },
            d,
        ),
{
    match model {
        Some(m) => RoutingDirective::parse(m.as_str()),
        None => RoutingDirective::parse("cortiq-auto"),
    }
}

} // verus!
