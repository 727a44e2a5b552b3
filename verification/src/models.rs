//! The data model of OpenCode sessions, messages and parts, and the result
//! types of the queries and aggregations.
//!
//! Costs are held as whole millionths of a dollar (`i64`): every cost the
//! renderers print has at most six decimals.

use vstd::prelude::*;

use crate::text::{join_seq, push_joined, str_eq, strs};

verus! {

/// One OpenCode session as listed from the `session` table.
pub struct Session {
    pub id: String,
    pub project_id: String,
    pub slug: String,
    pub directory: String,
    pub title: String,
    pub time_created: i64,
    pub time_updated: i64,
    pub summary_additions: Option<i64>,
    pub summary_deletions: Option<i64>,
    pub summary_files: Option<i64>,
    pub model: Option<String>,
    pub msg_count: i64,
    /// Total cost of the session's messages, in millionths of a dollar.
    pub total_cost: i64,
}

/// One chat message.
pub struct Message {
    pub id: String,
    pub session_id: String,
    pub time_created: i64,
    pub data: MessageData,
}

/// One part of a message (text, reasoning, tool call, step marker, ...).
pub struct Part {
    pub id: String,
    pub message_id: String,
    pub data: PartData,
}

/// The JSON `data` column of a message.
pub struct MessageData {
    pub role: String,
    pub agent: Option<String>,
    pub model: Option<ModelInfo>,
    pub tokens: Option<TokenUsage>,
    /// Cost of the message, in millionths of a dollar.
    pub cost: Option<i64>,
    pub mode: Option<String>,
    pub parent_id: Option<String>,
}

/// Provider and model that answered a message.
pub struct ModelInfo {
    pub provider_id: Option<String>,
    pub model_id: Option<String>,
}

/// Token counts of a message.
pub struct TokenUsage {
    pub total: Option<i64>,
    pub input: Option<i64>,
    pub output: Option<i64>,
    pub reasoning: Option<i64>,
    pub cache: Option<CacheUsage>,
}

/// Prompt-cache token counts of a message.
pub struct CacheUsage {
    pub write: Option<i64>,
    pub read: Option<i64>,
}

/// The JSON `data` column of a part. `part_type` is the JSON field `type`.
pub struct PartData {
    pub part_type: String,
    pub text: Option<String>,
    pub tool: Option<String>,
    pub call_id: Option<String>,
    pub state: Option<ToolState>,
    pub reason: Option<String>,
    pub time: Option<TimeRange>,
    pub done: Option<bool>,
    pub body: Option<String>,
}

/// The input of a tool call, as far as the renderers read it: the string
/// field `command`, when the input is an object that has one, and the input
/// written as pretty-printed JSON.
pub struct ToolInput {
    pub command: Option<String>,
    pub pretty: String,
}

/// The state of a tool call.
pub struct ToolState {
    pub status: String,
    pub input: Option<ToolInput>,
    pub output: Option<String>,
}

/// Start and end time of a part.
pub struct TimeRange {
    pub start: Option<i64>,
    pub end: Option<i64>,
}

/// A message together with its parts, in part order.
pub struct MessageWithParts {
    pub message: Message,
    pub parts: Vec<Part>,
}

/// One hit of a content search.
pub struct SearchResult {
    pub session_id: String,
    pub session_title: String,
    pub time_created: i64,
    pub message_id: String,
    pub msg_time_created: i64,
    pub snippet: String,
}

/// Aggregated counts of one session.
pub struct SessionStats {
    pub session_id: String,
    pub session_title: String,
    pub total_messages: i64,
    pub user_messages: i64,
    pub assistant_messages: i64,
    pub total_tokens: i64,
    pub input_tokens: i64,
    pub output_tokens: i64,
    pub reasoning_tokens: i64,
    pub cache_write: i64,
    pub cache_read: i64,
    /// In millionths of a dollar.
    pub total_cost: i64,
    pub agent_breakdown: Vec<AgentBreakdown>,
}

/// Per-agent share of a session's messages.
pub struct AgentBreakdown {
    pub agent: String,
    pub message_count: i64,
    pub total_tokens: i64,
    /// In millionths of a dollar.
    pub total_cost: i64,
}

/// One row of the top-sessions ranking.
pub struct TopSessionEntry {
    pub id: String,
    pub title: String,
    pub directory: String,
    pub time_created: i64,
    pub msg_count: i64,
    /// In millionths of a dollar.
    pub total_cost: i64,
    pub total_tokens: i64,
    pub total_input: i64,
    pub total_output: i64,
}

/// One changed file of a session diff.
pub struct DiffEntry {
    pub file: String,
    pub patch: Option<String>,
    pub additions: Option<i64>,
    pub deletions: Option<i64>,
    pub status: Option<String>,
}

/// Totals of a usage report.
pub struct ReportSummary {
    pub total_sessions: i64,
    pub total_messages: i64,
    pub total_tokens: i64,
    /// In millionths of a dollar.
    pub total_cost: i64,
    pub period_start: String,
    pub period_end: String,
}

/// One day of a usage report.
pub struct DailyTrend {
    pub date: String,
    pub sessions: i64,
    pub messages: i64,
    pub tokens: i64,
    /// In millionths of a dollar.
    pub cost: i64,
}

/// One model of a usage report.
pub struct ModelBreakdown {
    pub model: String,
    pub message_count: i64,
    pub total_tokens: i64,
    /// In millionths of a dollar.
    pub total_cost: i64,
}

/// Sessions grouped by project directory.
pub struct ProjectGroup {
    pub directory: String,
    pub session_count: i64,
    pub total_messages: i64,
    pub last_active: i64,
}

/// A rule of the automatic tagger.
pub struct AutoTagRule {
    pub id: String,
    pub tag: String,
    pub title_contains: Option<String>,
    pub dir_contains: Option<String>,
    pub model: Option<String>,
    /// In millionths of a dollar.
    pub min_cost: Option<i64>,
    /// In millionths of a dollar.
    pub max_cost: Option<i64>,
    pub min_messages: Option<i64>,
    pub max_messages: Option<i64>,
}


/// The texts of the parts whose type is `text` or `reasoning` and that have a
/// text, in part order.
pub open spec fn body_texts(parts: Seq<Part>) -> Seq<Seq<char>>
    decreases parts.len(),
{
    if parts.len() == 0 {
        Seq::empty()
    } else {
        let p = parts.last();
        let rest = body_texts(parts.drop_last());
        if (p.data.part_type@ == "text"@ || p.data.part_type@ == "reasoning"@) && p.data.text is Some {
            rest.push(p.data.text->0@)
        } else {
            rest
        }
    }
}

/// The non-empty texts of the `reasoning` parts, in part order.
pub open spec fn reasoning_texts(parts: Seq<Part>) -> Seq<Seq<char>>
    decreases parts.len(),
{
    if parts.len() == 0 {
        Seq::empty()
    } else {
        let p = parts.last();
        let rest = reasoning_texts(parts.drop_last());
        if p.data.part_type@ == "reasoning"@ && p.data.text is Some && p.data.text->0@.len() > 0 {
            rest.push(p.data.text->0@)
        } else {
            rest
        }
    }
}

/// The parts whose type is `kind`, in part order.
pub open spec fn parts_of_type(parts: Seq<Part>, kind: Seq<char>) -> Seq<Part>
    decreases parts.len(),
{
    if parts.len() == 0 {
        Seq::empty()
    } else {
        let rest = parts_of_type(parts.drop_last(), kind);
        if parts.last().data.part_type@ == kind {
            rest.push(parts.last())
        } else {
            rest
        }
    }
}

/// A message's body keeps every text of its text and reasoning parts, in
/// part order, and nothing else; its reasoning keeps every non-empty
/// reasoning text; and picking the parts of one type keeps exactly those
/// parts, in order: one more part adds itself at the end of each list it
/// belongs to and leaves the others as they were.
pub proof fn law_parts_are_kept_in_order(parts: Seq<Part>, p: Part, kind: Seq<char>)
    ensures
        ({
            let ps = parts.push(p);
            let is_text = p.data.part_type@ == "text"@ || p.data.part_type@ == "reasoning"@;
            &&& body_texts(ps) == if is_text && p.data.text is Some {
                body_texts(parts).push(p.data.text->0@)
            } else {
                body_texts(parts)
            }
            &&& reasoning_texts(ps) == if p.data.part_type@ == "reasoning"@ && p.data.text is Some
                && p.data.text->0@.len() > 0 {
                reasoning_texts(parts).push(p.data.text->0@)
            } else {
                reasoning_texts(parts)
            }
            &&& parts_of_type(ps, kind) == if p.data.part_type@ == kind {
                parts_of_type(parts, kind).push(p)
            } else {
                parts_of_type(parts, kind)
            }
            &&& body_texts(Seq::empty()).len() == 0 && reasoning_texts(Seq::empty()).len() == 0
            &&& parts_of_type(Seq::empty(), kind).len() == 0
        }),
{
    assert(parts.push(p).drop_last() =~= parts);
}

impl MessageWithParts {
    /// The texts of the text and reasoning parts, joined by newlines.
    pub fn text_body(&self) -> (r: String)
        ensures
            r@ == join_seq(body_texts(self.parts@), "\n"@),
    {
        let mut texts: Vec<String> = Vec::new();
        let mut i: usize = 0;
        while i < self.parts.len()
            invariant
                i <= self.parts.len(),
                strs(texts@) == body_texts(self.parts@.take(i as int)),
            decreases self.parts.len() - i,
        {
            let p = &self.parts[i];
            let ghost before = texts@;
            if str_eq(p.data.part_type.as_str(), "text") || str_eq(p.data.part_type.as_str(), "reasoning") {
                match &p.data.text {
                    Some(t) => {
                        texts.push(t.clone());
                    },
                    None => {},
                }
            }
            proof {
                assert(self.parts@.take(i + 1).drop_last() =~= self.parts@.take(i as int));
                assert(strs(texts@) =~= body_texts(self.parts@.take(i + 1)));
            }
            i = i + 1;
        }
        assert(self.parts@.take(self.parts.len() as int) =~= self.parts@);
        let mut out = String::new();
        push_joined(&mut out, &texts, "\n");
        out
    }

    /// The non-empty reasoning texts joined by newlines, or `None` when there
    /// are none.
    pub fn reasoning_body(&self) -> (r: Option<String>)
        ensures
            reasoning_texts(self.parts@).len() == 0 ==> r is None,
            reasoning_texts(self.parts@).len() > 0 ==> r is Some && r->0@ == join_seq(
                reasoning_texts(self.parts@),
                "\n"@,
            ),
    {
        let mut texts: Vec<String> = Vec::new();
        let mut i: usize = 0;
        while i < self.parts.len()
            invariant
                i <= self.parts.len(),
                strs(texts@) == reasoning_texts(self.parts@.take(i as int)),
            decreases self.parts.len() - i,
        {
            let p = &self.parts[i];
            if str_eq(p.data.part_type.as_str(), "reasoning") {
                match &p.data.text {
                    Some(t) => {
                        if t.as_str().unicode_len() > 0 {
                            texts.push(t.clone());
                        }
                    },
                    None => {},
                }
            }
            proof {
                assert(self.parts@.take(i + 1).drop_last() =~= self.parts@.take(i as int));
                assert(strs(texts@) =~= reasoning_texts(self.parts@.take(i + 1)));
            }
            i = i + 1;
        }
        assert(self.parts@.take(self.parts.len() as int) =~= self.parts@);
        if texts.len() == 0 {
            None
        } else {
            let mut out = String::new();
            push_joined(&mut out, &texts, "\n");
            Some(out)
        }
    }

    /// The tool-call parts, in part order.
    pub fn tool_calls(&self) -> (r: Vec<&Part>)
        ensures
            r@.len() == parts_of_type(self.parts@, "tool"@).len(),
            forall|k: int| 0 <= k < r@.len() ==> *r@[k] == parts_of_type(self.parts@, "tool"@)[k],
    {
        let mut out: Vec<&Part> = Vec::new();
        let mut i: usize = 0;
        while i < self.parts.len()
            invariant
                i <= self.parts.len(),
                out@.len() == parts_of_type(self.parts@.take(i as int), "tool"@).len(),
                forall|k: int| 0 <= k < out@.len() ==> *out@[k] == parts_of_type(self.parts@.take(i as int), "tool"@)[k],
            decreases self.parts.len() - i,
        {
            let p = &self.parts[i];
            if str_eq(p.data.part_type.as_str(), "tool") {
                out.push(p);
            }
            proof {
                assert(self.parts@.take(i + 1).drop_last() =~= self.parts@.take(i as int));
            }
            i = i + 1;
        }
        assert(self.parts@.take(self.parts.len() as int) =~= self.parts@);
        out
    }

    /// The first `step-finish` part, if any.
    pub fn step_finish(&self) -> (r: Option<&Part>)
        ensures
            match r {
                Some(p) => first_of_type(self.parts@, "step-finish"@) == Some(*p),
                None => first_of_type(self.parts@, "step-finish"@) is None,
            },
    {
        let mut i: usize = 0;
        proof {
            assert(self.parts@.skip(0) =~= self.parts@);
        }
        while i < self.parts.len()
            invariant
                i <= self.parts@.len(),
                first_of_type(self.parts@, "step-finish"@) == first_of_type(self.parts@.skip(i as int), "step-finish"@),
            decreases self.parts@.len() - i,
        {
            proof {
                assert(self.parts@.skip(i as int)[0] == self.parts@[i as int]);
                assert(self.parts@.skip(i as int).skip(1) =~= self.parts@.skip(i + 1));
            }
            if str_eq(self.parts[i].data.part_type.as_str(), "step-finish") {
                return Some(&self.parts[i]);
            }
            i = i + 1;
        }
        None
    }
}

/// The first part whose type is `kind`, if any.
pub open spec fn first_of_type(parts: Seq<Part>, kind: Seq<char>) -> Option<Part>
    decreases parts.len(),
{
    if parts.len() == 0 {
        None
    } else if parts[0].data.part_type@ == kind {
        Some(parts[0])
    } else {
        first_of_type(parts.skip(1), kind)
    }
}

} // verus!
