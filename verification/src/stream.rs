//! Token accounting for a streamed completion: the payloads of the upstream
//! SSE events are inspected for a `usage` object and for delta text, and the
//! completion size is estimated (about four characters per token) when the
//! provider never reports usage.

use vstd::prelude::*;
use crate::text::str_eq;
use vstd::string::StrSliceExecFns;

verus! {

/// What one OpenAI-format chunk (`chat.completion.chunk` JSON) reports.
pub struct ChunkUsage {
    /// The chunk carries a non-null `usage` object.
    pub has_usage: bool,
    /// `usage.prompt_tokens`, when it is an unsigned integer.
    pub prompt_tokens: Option<u64>,
    /// `usage.completion_tokens`, when it is an unsigned integer.
    pub completion_tokens: Option<u64>,
    /// `choices[0].delta.content`, when it is a string.
    pub delta_text: Option<String>,
}

pub open spec fn chunk_view(u: ChunkUsage) -> (bool, Option<u64>, Option<u64>, Option<Seq<char>>) {
    (u.has_usage, u.prompt_tokens, u.completion_tokens, crate::model::opt_view(u.delta_text))
}

/// What `serde_json` reads from a chunk payload (`None` when it is not JSON):
/// whether `usage` is non-null, its two counters, and the delta text.
pub uninterp spec fn chunk_usage(data: Seq<char>) -> Option<(bool, Option<u64>, Option<u64>, Option<Seq<char>>)>;

/// `choices[0].delta.content` of a chunk payload, when the payload is JSON and
/// that value is a string.
pub open spec fn delta_content(data: Seq<char>) -> Option<Seq<char>> {
    match chunk_usage(data) {
        Some(u) => u.3,
        None => None,
    }
}

/// Parses a chunk payload with `serde_json::from_str` and picks the usage
/// counters and the delta text out of the resulting value. The contract only
/// names the result.
#[verifier::external_body]
pub(crate) fn parse_chunk_usage(data: &str) -> (r: Option<ChunkUsage>)
    ensures
        match r {
            Some(u) => chunk_usage(data@) == Some(chunk_view(u)),
            None => chunk_usage(data@) is None,
        },
{
    let v: serde_json::Value = serde_json::from_str(data).ok()?;
    let u = &v["usage"];
    Some(ChunkUsage {
        has_usage: !u.is_null(),
        prompt_tokens: u["prompt_tokens"].as_u64(),
        completion_tokens: u["completion_tokens"].as_u64(),
        delta_text: v["choices"][0]["delta"]["content"].as_str().map(|c| c.to_string()),
    })
}

/// The tally after one chunk that reports `u` (see `chunk_usage`).
pub open spec fn tally_apply(t: StreamTally, u: (bool, Option<u64>, Option<u64>, Option<Seq<char>>)) -> StreamTally {
    StreamTally {
        prompt_tokens: if u.0 {
            match u.1 {
                Some(p) => p as u32,
                None => t.prompt_tokens,
            }
        } else {
            t.prompt_tokens
        },
        completion_tokens: if u.0 {
            match u.2 {
                Some(c) => c as u32,
                None => t.completion_tokens,
            }
        } else {
            t.completion_tokens
        },
        got_usage: t.got_usage || u.0,
        delta_chars: match u.3 {
            Some(text) => t.delta_chars.wrapping_add(text.len() as usize),
            None => t.delta_chars,
        },
    }
}

/// Running token counts of one stream.
pub struct StreamTally {
    pub prompt_tokens: u32,
    pub completion_tokens: u32,
    pub got_usage: bool,
    pub delta_chars: usize,
}

impl StreamTally {
    pub fn new() -> (t: Self)
        ensures
            t.prompt_tokens == 0,
            t.completion_tokens == 0,
            !t.got_usage,
            t.delta_chars == 0,
    {
        StreamTally { prompt_tokens: 0, completion_tokens: 0, got_usage: false, delta_chars: 0 }
    }

    /// Folds in what one chunk reports: a usage object replaces each counter it
    /// carries (keeping the previous value otherwise, narrowed to `u32`), and
    /// delta text adds its length to the character count.
    pub fn apply(&mut self, u: &ChunkUsage)
        ensures
            *final(self) == tally_apply(*old(self), chunk_view(*u)),
    {
        if u.has_usage {
            self.prompt_tokens = match u.prompt_tokens {
                Some(p) => p as u32,
                None => self.prompt_tokens,
            };
            self.completion_tokens = match u.completion_tokens {
                Some(c) => c as u32,
                None => self.completion_tokens,
            };
            self.got_usage = true;
        }
        match &u.delta_text {
            Some(t) => {
                let n: usize = t.as_str().unicode_len();
                self.delta_chars = self.delta_chars.wrapping_add(n);
            },
            None => {},
        }
    }

    /// Folds in one SSE payload; `[DONE]` and payloads that are not JSON change
    /// nothing.
    pub fn observe(&mut self, data: &str)
        ensures
            *final(self) == (if data@ == "[DONE]"@ {
                *old(self)
            } else {
                match chunk_usage(data@) {
                    Some(u) => tally_apply(*old(self), u),
                    None => *old(self),
                }
            }),
    {
        if str_eq(data, "[DONE]") {
            return;
        }
        match parse_chunk_usage(data) {
            Some(u) => self.apply(&u),
            None => {},
        }
    }

    /// Final `(prompt, completion)` token counts: when no usage was ever
    /// reported and no completion count is known, the completion is estimated
    /// as a quarter of the delta characters.
    pub fn finish(&self) -> (r: (u32, u32))
        ensures
            r.0 == self.prompt_tokens,
            (!self.got_usage && self.completion_tokens == 0) ==> r.1 == (self.delta_chars
                / 4) as u32,
            (self.got_usage || self.completion_tokens != 0) ==> r.1 == self.completion_tokens,
    {
        if !self.got_usage && self.completion_tokens == 0 {
            (self.prompt_tokens, (self.delta_chars / 4) as u32)
        } else {
            (self.prompt_tokens, self.completion_tokens)
        }
    }
}

/// After a chunk whose `usage` object reports `completion_tokens` `c`, the
/// stream's completion count is `c` (narrowed to `u32`) and its prompt count
/// the reported `prompt_tokens`, each independent of the other.
pub proof fn law_usage_counts_are_taken_as_reported(t: StreamTally, p: Option<u64>, c: u64, text: Option<Seq<char>>)
    ensures
        tally_apply(t, (true, p, Some(c), text)).completion_tokens == c as u32,
        tally_apply(t, (true, p, Some(c), text)).prompt_tokens == match p {
            Some(x) => x as u32,
            None => t.prompt_tokens,
        },
        tally_apply(t, (true, p, Some(c), text)).got_usage,
{
}

} // verus!
