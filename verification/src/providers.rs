//! Provider capabilities, checked when candidate models are selected, how a
//! conversation is written for the Anthropic Messages API, and how a
//! provider's chat reply is read: the defaults for absent fields and the
//! token counts.

use vstd::prelude::*;
use crate::model::Message;
use vstd::string::StrSliceExecFns;
use crate::pipeline::turns;
use crate::text::{append_str, owned, str_eq, strings_contain, views};

verus! {

/// Model capabilities: whether tools / vision are supported.
pub struct Caps {
    pub tools: bool,
    pub vision: bool,
    pub streaming: bool,
}

impl Caps {
    /// Capabilities named in a model's `caps` list; streaming is always on.
    pub fn from_list(list: &Vec<String>) -> (c: Self)
        ensures
            c.tools == views(list@).contains("tools"@),
            c.vision == views(list@).contains("vision"@),
            c.streaming,
    {
        Caps {
            tools: strings_contain(list, "tools"),
            vision: strings_contain(list, "vision"),
            streaming: true,
        }
    }
}

/// The fields of one choice of an OpenAI-compatible chat reply, as read from
/// its JSON (`None` where a field is absent or not of its type).
pub struct ChoiceFields {
    pub index: Option<u64>,
    pub role: Option<String>,
    pub content: Option<String>,
    pub finish_reason: Option<String>,
}

/// One choice of a chat reply, with the defaults filled in.
pub struct ReplyChoice {
    pub index: u32,
    pub role: String,
    pub content: String,
    pub finish_reason: String,
}

pub open spec fn text_or(o: Option<String>, d: Seq<char>) -> Seq<char> {
    match o {
        Some(s) => s@,
        None => d,
    }
}

/// Choice `i` of a reply: its own index (else its position, narrowed to
/// `u32` as a cast does), role `assistant`, empty content and finish reason
/// `stop` where absent.
pub open spec fn choice_matches(f: ChoiceFields, i: int, c: ReplyChoice) -> bool {
    &&& c.index == (match f.index {
        Some(x) => x,
        None => i as u64,
    }) as u32
    &&& c.role@ == text_or(f.role, "assistant"@)
    &&& c.content@ == text_or(f.content, Seq::empty())
    &&& c.finish_reason@ == text_or(f.finish_reason, "stop"@)
}

fn text_or_exec(o: &Option<String>, d: &str) -> (r: String)
    ensures
        r@ == text_or(*o, d@),
{
    match o {
        Some(s) => s.clone(),
        None => owned(d),
    }
}

/// The choices of an OpenAI-compatible chat reply, in order, with the
/// defaults of absent fields filled in.
pub fn reply_choices(fields: &Vec<ChoiceFields>) -> (r: Vec<ReplyChoice>)
    ensures
        r@.len() == fields@.len(),
        forall|i: int| 0 <= i < r@.len() ==> choice_matches(fields@[i], i, #[trigger] r@[i]),
{
    let mut out: Vec<ReplyChoice> = Vec::new();
    let mut i: usize = 0;
    while i < fields.len()
        invariant
            i <= fields@.len(),
            out@.len() == i,
            forall|k: int| 0 <= k < i ==> choice_matches(fields@[k], k, #[trigger] out@[k]),
        decreases fields.len() - i,
    {
        let f = &fields[i];
        let index: u32 = match f.index {
            Some(x) => x as u32,
            None => i as u64 as u32,
        };
        proof {
            reveal_strlit("");
        }
        let c = ReplyChoice {
            index,
            role: text_or_exec(&f.role, "assistant"),
            content: text_or_exec(&f.content, ""),
            finish_reason: text_or_exec(&f.finish_reason, "stop"),
        };
        assert(c.role@ == text_or(fields@[i as int].role, "assistant"@));
        assert(c.content@ == text_or(fields@[i as int].content, Seq::empty()));
        assert(c.finish_reason@ == text_or(fields@[i as int].finish_reason, "stop"@));
        assert(c.index == (match fields@[i as int].index {
            Some(x) => x,
            None => i as u64,
        }) as u32);
        assert(choice_matches(fields@[i as int], i as int, c));
        let ghost before = out@;
        out.push(c);
        assert forall|k: int| 0 <= k < i + 1 implies choice_matches(
            fields@[k],
            k,
            #[trigger] out@[k],
        ) by {
            if k < i {
                assert(out@[k] == before[k]);
            }
        }
        i += 1;
    }
    out
}

/// Token counts `(prompt, completion, total)` of an OpenAI-compatible reply:
/// each reported count narrowed to `u32` as a cast does (0 where absent), and
/// an absent total taken as the sum of the two, wrapped to `u32`.
pub fn reply_usage(prompt: Option<u64>, completion: Option<u64>, total: Option<u64>) -> (r: (
    u32,
    u32,
    u32,
))
    ensures
        r.0 == (match prompt {
            Some(x) => x,
            None => 0,
        }) as u32,
        r.1 == (match completion {
            Some(x) => x,
            None => 0,
        }) as u32,
        r.2 == (match total {
            Some(x) => x as u32,
            None => ((r.0 + r.1) % 0x1_0000_0000) as u32,
        }),
{
    let p: u32 = match prompt {
        Some(x) => x as u32,
        None => 0,
    };
    let c: u32 = match completion {
        Some(x) => x as u32,
        None => 0,
    };
    let t: u32 = match total {
        Some(x) => x as u32,
        None => ((p as u64 + c as u64) % 0x1_0000_0000) as u32,
    };
    (p, c, t)
}

/// Token counts `(input, output, total)` of an Anthropic reply: each narrowed
/// to `u32` as a cast does (0 where absent), the total their sum wrapped to
/// `u32`.
pub fn anthropic_usage(input: Option<u64>, output: Option<u64>) -> (r: (u32, u32, u32))
    ensures
        r.0 == (match input {
            Some(x) => x,
            None => 0,
        }) as u32,
        r.1 == (match output {
            Some(x) => x,
            None => 0,
        }) as u32,
        r.2 == ((r.0 + r.1) % 0x1_0000_0000) as u32,
{
    let (p, c, t) = reply_usage(input, output, None);
    (p, c, t)
}

/// The text of an Anthropic reply: the text of its blocks that have one,
/// joined without separator.
pub fn joined_text(blocks: &Vec<Option<String>>) -> (r: String)
    ensures
        r@ == joined_texts(blocks@),
{
    let mut r = String::new();
    let mut i: usize = 0;
    while i < blocks.len()
        invariant
            i <= blocks@.len(),
            r@ == joined_texts(blocks@.take(i as int)),
        decreases blocks.len() - i,
    {
        assert(blocks@.take(i + 1).drop_last() =~= blocks@.take(i as int));
        match &blocks[i] {
            Some(t) => append_str(&mut r, t.as_str()),
            None => {},
        }
        i += 1;
    }
    assert(blocks@.take(blocks@.len() as int) =~= blocks@);
    r
}

pub open spec fn joined_texts(bs: Seq<Option<String>>) -> Seq<char>
    decreases bs.len(),
{
    if bs.len() == 0 {
        Seq::empty()
    } else {
        joined_texts(bs.drop_last()) + text_or(bs.last(), Seq::empty())
    }
}

// ───────────────────────────── Anthropic requests ────────────────────────

/// The system prompt of an Anthropic request: the contents of the system
/// turns in order, a newline between each and the text before it when that
/// text is non-empty.
pub open spec fn lifted_system(ts: Seq<(Seq<char>, Seq<char>)>) -> Seq<char>
    decreases ts.len(),
{
    if ts.len() == 0 {
        Seq::empty()
    } else {
        let s = lifted_system(ts.drop_last());
        if ts.last().0 == "system"@ {
            if s.len() == 0 {
                ts.last().1
            } else {
                s + "\n"@ + ts.last().1
            }
        } else {
            s
        }
    }
}

/// The other turns of an Anthropic request, in order: an `assistant` turn
/// keeps its role, any other turn is the user's.
pub open spec fn wire_turns(ts: Seq<(Seq<char>, Seq<char>)>) -> Seq<(Seq<char>, Seq<char>)>
    decreases ts.len(),
{
    if ts.len() == 0 {
        Seq::empty()
    } else {
        let w = wire_turns(ts.drop_last());
        let (role, content) = ts.last();
        if role == "system"@ {
            w
        } else if role == "assistant"@ {
            w.push(("assistant"@, content))
        } else {
            w.push(("user"@, content))
        }
    }
}

/// Splits a conversation for the Anthropic Messages API: the system prompt
/// (empty when there is none) and the remaining turns.
pub fn anthropic_wire(ms: &Vec<Message>) -> (r: (String, Vec<Message>))
    ensures
        r.0@ == lifted_system(turns(ms@)),
        turns(r.1@) == wire_turns(turns(ms@)),
{
    let mut system = String::new();
    let mut out: Vec<Message> = Vec::new();
    let mut i: usize = 0;
    while i < ms.len()
        invariant
            i <= ms@.len(),
            system@ == lifted_system(turns(ms@.take(i as int))),
            turns(out@) == wire_turns(turns(ms@.take(i as int))),
        decreases ms.len() - i,
    {
        assert(turns(ms@.take(i + 1)).drop_last() =~= turns(ms@.take(i as int)));
        assert(turns(ms@.take(i + 1)).last() == (ms@[i as int].role@, ms@[i as int].content@));
        let m = &ms[i];
        if str_eq(m.role.as_str(), "system") {
            if system.as_str().unicode_len() > 0 {
                append_str(&mut system, "\n");
            }
            append_str(&mut system, m.content.as_str());
            proof {
                if lifted_system(turns(ms@.take(i as int))).len() == 0 {
                    assert(system@ =~= m.content@);
                }
            }
        } else {
            let role = if str_eq(m.role.as_str(), "assistant") {
                owned("assistant")
            } else {
                owned("user")
            };
            let ghost before = turns(out@);
            out.push(Message { role, content: m.content.clone() });
            assert(turns(out@) =~= before.push((out@.last().role@, m.content@)));
        }
        i += 1;
    }
    assert(ms@.take(ms@.len() as int) =~= ms@);
    (system, out)
}

/// The `max_tokens` of an Anthropic request: the one asked for, else 1024.
pub fn anthropic_max_tokens(requested: Option<u32>) -> (n: u32)
    ensures
        n == match requested {
            Some(v) => v,
            None => 1024,
        },
{
    match requested {
        Some(v) => v,
        None => 1024,
    }
}

} // verus!
