//! Markdown renderers for sessions and messages: the session header, each
//! message with its reasoning, tool calls and finish reason, the one-line
//! form the watch mode prints, and the export with front matter.

use vstd::prelude::*;

use crate::models::{
    body_texts, first_of_type, parts_of_type, reasoning_texts, MessageWithParts, Part, Session,
    ToolState,
};
use crate::split::{char_utf8_width, lines_of, split_lines, utf8_width};
use crate::text::{
    chars_of, cost_text, dec_int, join_seq, push_chars_range, push_cost, push_dec_i64, str_eq,
};
use crate::timefmt::{invalid_ts_text, ts_text, ts_to_iso_short, ts_to_time};

verus! {

/// `HH:MM:SS` of a millisecond timestamp, or empty.
pub open spec fn clock_ts(ts: i64) -> Seq<char> {
    ts_text(ts as int, "%H:%M:%S"@, Seq::empty())
}

/// `YYYY-MM-DD HH:MM:SS` of a millisecond timestamp.
pub open spec fn short_iso_ts(ts: i64) -> Seq<char> {
    ts_text(ts as int, "%Y-%m-%d %H:%M:%S"@, invalid_ts_text(ts as int))
}

// ───────────────────────── cutting long output ─────────────────────────

/// The longest prefix of `s` whose UTF-8 form fits in `limit` bytes.
pub open spec fn cut_at_bytes(s: Seq<char>, limit: int) -> Seq<char>
    decreases s.len(),
{
    if s.len() == 0 || utf8_width(s[0]) > limit {
        Seq::empty()
    } else {
        seq![s[0]] + cut_at_bytes(s.skip(1), limit - utf8_width(s[0]))
    }
}

/// Whether the UTF-8 form of `s` is longer than `limit` bytes.
pub open spec fn longer_than_bytes(s: Seq<char>, limit: int) -> bool {
    cut_at_bytes(s, limit).len() < s.len()
}

/// Appends the longest prefix of `s` that fits in `limit` bytes; returns
/// whether characters were left out.
fn push_cut(out: &mut String, s: &str, limit: usize) -> (cut: bool)
    ensures
        final(out)@ == old(out)@ + cut_at_bytes(s@, limit as int),
        cut == longer_than_bytes(s@, limit as int),
{
    let cs = chars_of(s);
    let mut used: usize = 0;
    let mut i: usize = 0;
    proof {
        assert(s@.skip(0) =~= s@);
        assert(cs@.take(0) =~= Seq::<char>::empty());
    }
    while i < cs.len() && char_utf8_width(cs[i]) <= limit - used
        invariant
            i <= cs@.len(),
            cs@ == s@,
            used <= limit,
            cut_at_bytes(s@, limit as int) == cs@.take(i as int) + cut_at_bytes(s@.skip(i as int), limit - used),
        decreases cs@.len() - i,
    {
        let w = char_utf8_width(cs[i]);
        proof {
            let rest = s@.skip(i as int);
            assert(rest[0] == cs@[i as int]);
            assert(rest.skip(1) =~= s@.skip(i + 1));
            assert(cs@.take(i + 1) =~= cs@.take(i as int) + seq![cs@[i as int]]);
        }
        used = used + w;
        i = i + 1;
    }
    proof {
        let rest = s@.skip(i as int);
        if i < cs.len() {
            assert(rest[0] == cs@[i as int]);
        }
        assert(cut_at_bytes(rest, limit - used) =~= Seq::<char>::empty());
        assert(cut_at_bytes(s@, limit as int) =~= cs@.take(i as int));
    }
    push_chars_range(out, &cs, 0, i);
    assert(cs@.subrange(0, i as int) =~= cs@.take(i as int));
    i < cs.len()
}

/// Output cut to 2000 bytes with `note` after it when it was longer.
pub open spec fn trimmed_output(o: Seq<char>, note: Seq<char>) -> Seq<char> {
    if longer_than_bytes(o, 2000) {
        cut_at_bytes(o, 2000) + note
    } else {
        o
    }
}

fn push_trimmed_output(out: &mut String, o: &str, note: &str)
    ensures
        final(out)@ == old(out)@ + trimmed_output(o@, note@),
{
    let ghost start = out@;
    let mut piece = String::new();
    let cut = push_cut(&mut piece, o, 2000);
    if cut {
        out.append(piece.as_str());
        out.append(note);
    } else {
        proof {
            assert(cut_at_bytes(o@, 2000) =~= o@) by {
                lemma_cut_prefix(o@, 2000);
                assert(o@.take(cut_at_bytes(o@, 2000).len() as int) =~= o@);
            }
        }
        out.append(o);
    }
}

/// What [`cut_at_bytes`] keeps is a prefix.
pub proof fn lemma_cut_prefix(s: Seq<char>, limit: int)
    ensures
        cut_at_bytes(s, limit).len() <= s.len(),
        cut_at_bytes(s, limit) == s.take(cut_at_bytes(s, limit).len() as int),
    decreases s.len(),
{
    if s.len() > 0 && utf8_width(s[0]) <= limit {
        lemma_cut_prefix(s.skip(1), limit - utf8_width(s[0]));
        let c = cut_at_bytes(s.skip(1), limit - utf8_width(s[0]));
        assert(seq![s[0]] + c =~= s.take(c.len() + 1 as int));
    } else {
        assert(s.take(0) =~= Seq::<char>::empty());
    }
}

// ───────────────────────── tool calls ─────────────────────────

/// The name of the tool a part calls, or `unknown`.
pub open spec fn tool_name_of(p: Part) -> Seq<char> {
    match p.data.tool {
        Some(t) => t@,
        None => "unknown"@,
    }
}

/// The first line of a tool call: its name and status.
pub open spec fn tool_head(p: Part) -> Seq<char> {
    let status = match p.data.state {
        Some(s) => s.status@,
        None => "unknown"@,
    };
    "**🛠 Tool: `"@ + tool_name_of(p) + "`** (status: `"@ + status + "`)  \n"@
}

/// What follows the first line of a `bash` call: the command and the output.
pub open spec fn bash_body(st: ToolState) -> Seq<char> {
    (match st.input {
        Some(inp) => match inp.command {
            Some(cmd) => "```bash\n"@ + cmd@ + "\n```\n\n"@,
            None => Seq::empty(),
        },
        None => Seq::empty(),
    }) + match st.output {
        Some(o) => "**Output:**\n"@ + "```\n"@ + trimmed_output(o@, "...\n*(output truncated to 2000 chars)*"@)
            + "\n```\n\n"@,
        None => Seq::empty(),
    }
}

/// What follows the first line of any other call: the input as JSON and the
/// output.
pub open spec fn other_tool_body(st: ToolState) -> Seq<char> {
    (match st.input {
        Some(inp) => "**Input:**\n```json\n"@ + inp.pretty@ + "\n```\n\n"@,
        None => Seq::empty(),
    }) + match st.output {
        Some(o) => "**Output:**\n```\n"@ + trimmed_output(o@, "...\n*(output truncated)*"@) + "\n```\n\n"@,
        None => Seq::empty(),
    }
}

/// The markdown of one tool call: its name and status, then for `bash` the
/// command and output, for any other tool the input as JSON and the output;
/// output longer than 2000 bytes is cut.
pub open spec fn tool_call_text(p: Part) -> Seq<char> {
    tool_head(p) + match p.data.state {
        None => Seq::empty(),
        Some(st) => if tool_name_of(p) == "bash"@ {
            bash_body(st)
        } else {
            other_tool_body(st)
        },
    }
}

fn push_bash_body(out: &mut String, st: &ToolState)
    ensures
        final(out)@ == old(out)@ + bash_body(*st),
{
    let ghost start = out@;
    if let Some(inp) = &st.input {
        if let Some(cmd) = &inp.command {
            out.append("```bash\n");
            out.append(cmd.as_str());
            out.append("\n```\n\n");
        }
    }
    let ghost mid = out@;
    if let Some(o) = &st.output {
        out.append("**Output:**\n");
        out.append("```\n");
        push_trimmed_output(out, o.as_str(), "...\n*(output truncated to 2000 chars)*");
        out.append("\n```\n\n");
    }
    proof {
        assert(out@ =~= start + bash_body(*st));
    }
}

fn push_other_tool_body(out: &mut String, st: &ToolState)
    ensures
        final(out)@ == old(out)@ + other_tool_body(*st),
{
    let ghost start = out@;
    if let Some(inp) = &st.input {
        out.append("**Input:**\n```json\n");
        out.append(inp.pretty.as_str());
        out.append("\n```\n\n");
    }
    if let Some(o) = &st.output {
        out.append("**Output:**\n```\n");
        push_trimmed_output(out, o.as_str(), "...\n*(output truncated)*");
        out.append("\n```\n\n");
    }
    proof {
        assert(out@ =~= start + other_tool_body(*st));
    }
}

/// Appends the markdown of a tool call (see [`tool_call_text`]).
pub fn render_tool_call(out: &mut String, part: &Part)
    ensures
        final(out)@ == old(out)@ + tool_call_text(*part),
{
    let ghost start = out@;
    let unknown = String::from_str("unknown");
    let name: &str = match &part.data.tool {
        Some(t) => t.as_str(),
        None => unknown.as_str(),
    };
    out.append("**🛠 Tool: `");
    out.append(name);
    out.append("`** (status: `");
    match &part.data.state {
        Some(s) => out.append(s.status.as_str()),
        None => out.append("unknown"),
    }
    out.append("`)  \n");
    proof {
        assert(out@ =~= start + tool_head(*part));
    }
    let ghost head = out@;
    if let Some(st) = &part.data.state {
        if str_eq(name, "bash") {
            push_bash_body(out, st);
        } else {
            push_other_tool_body(out, st);
        }
    }
    proof {
        assert(out@ =~= start + tool_call_text(*part));
    }
}

/// The markdown of tool calls, in order.
pub open spec fn tool_calls_text(ps: Seq<Part>) -> Seq<char>
    decreases ps.len(),
{
    if ps.len() == 0 {
        Seq::empty()
    } else {
        tool_calls_text(ps.drop_last()) + tool_call_text(ps.last())
    }
}

// ───────────────────────── messages ─────────────────────────

/// The text body of a message: its text and reasoning texts joined by
/// newlines.
pub open spec fn body_of(m: MessageWithParts) -> Seq<char> {
    join_seq(body_texts(m.parts@), "\n"@)
}

/// The body followed by a newline, when it is not empty.
pub open spec fn body_block(m: MessageWithParts) -> Seq<char> {
    if body_of(m).len() > 0 {
        body_of(m) + "\n"@
    } else {
        Seq::empty()
    }
}

/// Each line of `s` as a quote line.
pub open spec fn quoted_lines(ls: Seq<Seq<char>>) -> Seq<char>
    decreases ls.len(),
{
    if ls.len() == 0 {
        Seq::empty()
    } else {
        quoted_lines(ls.drop_last()) + "> "@ + ls.last() + "\n"@
    }
}

/// The collapsible reasoning block of a message, when it has reasoning.
pub open spec fn reasoning_block(m: MessageWithParts) -> Seq<char> {
    let rs = reasoning_texts(m.parts@);
    if rs.len() > 0 {
        "<details>\n<summary>💭 Reasoning</summary>\n\n"@ + quoted_lines(lines_of(join_seq(rs, "\n"@)))
            + "\n"@ + "</details>\n\n"@
    } else {
        Seq::empty()
    }
}

/// The agent name shown for a message.
pub open spec fn agent_label(m: MessageWithParts) -> Seq<char> {
    match m.message.data.agent {
        Some(a) => a@,
        None => "unknown"@,
    }
}

/// ` · N tokens` when the message has a total token count.
pub open spec fn tokens_suffix(m: MessageWithParts) -> Seq<char> {
    match m.message.data.tokens {
        Some(t) => match t.total {
            Some(n) => " · "@ + dec_int(n as int) + " tokens"@,
            None => Seq::empty(),
        },
        None => Seq::empty(),
    }
}

/// ` · $C` with six decimals when the message has a positive cost.
pub open spec fn cost_suffix(m: MessageWithParts) -> Seq<char> {
    match m.message.data.cost {
        Some(c) => if c > 0 {
            " · $"@ + cost_text(c as int, 6)
        } else {
            Seq::empty()
        },
        None => Seq::empty(),
    }
}

/// The finish line of a message whose first `step-finish` part has a reason.
pub open spec fn finish_block(m: MessageWithParts) -> Seq<char> {
    match first_of_type(m.parts@, "step-finish"@) {
        Some(p) => match p.data.reason {
            Some(r) => "\n> ⏹ Finished: `"@ + r@ + "`\n\n"@,
            None => Seq::empty(),
        },
        None => Seq::empty(),
    }
}

/// The heading line of an assistant message: agent, time, tokens and cost.
pub open spec fn assistant_heading(m: MessageWithParts) -> Seq<char> {
    "## 🤖 "@ + agent_label(m) + " ("@ + clock_ts(m.message.time_created) + ")"@ + tokens_suffix(m)
        + cost_suffix(m) + "\n\n"@
}

/// The assistant part of a message's markdown: heading with agent, time,
/// tokens and cost, then reasoning, tool calls (when `show_tools`), text and
/// finish reason.
pub open spec fn assistant_text(m: MessageWithParts, show_tools: bool) -> Seq<char> {
    assistant_heading(m) + reasoning_block(m) + (if show_tools {
        tool_calls_text(parts_of_type(m.parts@, "tool"@))
    } else {
        Seq::empty()
    }) + body_block(m) + finish_block(m)
}

/// The markdown of one message: a heading by role with its time, then for
/// an assistant message its tokens, cost, reasoning, tool calls (when
/// `show_tools`), text and finish reason; for others the text; then a rule.
pub open spec fn message_text(m: MessageWithParts, show_tools: bool) -> Seq<char> {
    let ts = clock_ts(m.message.time_created);
    let role = m.message.data.role@;
    (if role == "user"@ {
        "## 🧑 User ("@ + ts + ")\n\n"@ + body_block(m)
    } else if role == "assistant"@ {
        assistant_text(m, show_tools)
    } else {
        "## "@ + role + " ("@ + ts + ")\n\n"@ + body_block(m)
    }) + "---\n\n"@
}

/// The markdown of a message shows who wrote it and when, then what it
/// says, and ends with a rule: a user message is headed `🧑 User` with its
/// time and followed by its text; an assistant message is headed `🤖`, its
/// agent (`unknown` when it names none) and time, then its total tokens
/// when known and its cost when positive; without `show_tools` it shows no
/// tool call, only its reasoning, text and finish reason.
pub proof fn law_message_shows_author_time_and_text(m: MessageWithParts, show_tools: bool)
    ensures
        ({
            let t = message_text(m, show_tools);
            let ts = clock_ts(m.message.time_created);
            let body = if body_of(m).len() > 0 { body_of(m) + "\n"@ } else { Seq::empty() };
            let agent = match m.message.data.agent {
                Some(a) => a@,
                None => "unknown"@,
            };
            let tokens = match m.message.data.tokens {
                Some(tk) => match tk.total {
                    Some(n) => " · "@ + dec_int(n as int) + " tokens"@,
                    None => Seq::empty(),
                },
                None => Seq::empty(),
            };
            let cost = match m.message.data.cost {
                Some(c) => if c > 0 { " · $"@ + cost_text(c as int, 6) } else { Seq::empty() },
                None => Seq::empty(),
            };
            let heading = "## 🤖 "@ + agent + " ("@ + ts + ")"@ + tokens + cost + "\n\n"@;
            &&& "---\n\n"@.len() <= t.len() && t.subrange(t.len() - 5, t.len() as int) == "---\n\n"@
            &&& m.message.data.role@ == "user"@ ==> t == ("## 🧑 User ("@ + ts + ")\n\n"@ + body) + "---\n\n"@
            &&& m.message.data.role@ == "assistant"@ ==> heading.len() <= t.len() && t.subrange(0, heading.len() as int)
                == heading
            &&& m.message.data.role@ == "assistant"@ && !show_tools ==> t == (heading + reasoning_block(m) + Seq::empty()
                + body + finish_block(m)) + "---\n\n"@
        }),
{
    let t = message_text(m, show_tools);
    reveal_strlit("---\n\n");
    assert(t.subrange(t.len() - 5, t.len() as int) =~= "---\n\n"@);
    reveal_strlit("user");
    reveal_strlit("assistant");
    assert("user"@.len() != "assistant"@.len());
    if m.message.data.role@ == "assistant"@ {
        let heading = assistant_heading(m);
        assert(t == assistant_text(m, show_tools) + "---\n\n"@);
        assert(t.subrange(0, heading.len() as int) =~= heading);
    }
}

fn push_body_block(out: &mut String, m: &MessageWithParts)
    ensures
        final(out)@ == old(out)@ + body_block(*m),
{
    let body = m.text_body();
    if body.as_str().unicode_len() > 0 {
        out.append(body.as_str());
        out.append("\n");
    }
}

fn push_reasoning_block(out: &mut String, m: &MessageWithParts)
    ensures
        final(out)@ == old(out)@ + reasoning_block(*m),
{
    let ghost start = out@;
    if let Some(reasoning) = m.reasoning_body() {
        out.append("<details>\n<summary>💭 Reasoning</summary>\n\n");
        let ghost head = out@;
        let lines = split_lines(reasoning.as_str());
        let ghost ls = lines_of(reasoning@);
        let mut i: usize = 0;
        proof {
            assert(ls.take(0) =~= Seq::<Seq<char>>::empty());
            assert(out@ =~= head + quoted_lines(ls.take(0)));
        }
        while i < lines.len()
            invariant
                i <= lines@.len(),
                crate::text::strs(lines@) == ls,
                out@ == head + quoted_lines(ls.take(i as int)),
            decreases lines@.len() - i,
        {
            out.append("> ");
            out.append(lines[i].as_str());
            out.append("\n");
            proof {
                assert(ls[i as int] == lines@[i as int]@);
                assert(ls.take(i + 1).drop_last() =~= ls.take(i as int));
                assert(out@ =~= head + quoted_lines(ls.take(i + 1)));
            }
            i = i + 1;
        }
        out.append("\n");
        out.append("</details>\n\n");
        proof {
            assert(ls.take(ls.len() as int) =~= ls);
            assert(out@ =~= start + reasoning_block(*m));
        }
    } else {
        assert(out@ =~= start + reasoning_block(*m));
    }
}

fn push_tool_calls(out: &mut String, m: &MessageWithParts)
    ensures
        final(out)@ == old(out)@ + tool_calls_text(parts_of_type(m.parts@, "tool"@)),
{
    let ghost start = out@;
    let calls = m.tool_calls();
    let ghost ps = parts_of_type(m.parts@, "tool"@);
    let mut i: usize = 0;
    proof {
        assert(ps.take(0) =~= Seq::<Part>::empty());
        assert(out@ =~= start + tool_calls_text(ps.take(0)));
    }
    while i < calls.len()
        invariant
            i <= calls@.len(),
            calls@.len() == ps.len(),
            forall|k: int| 0 <= k < calls@.len() ==> *calls@[k] == ps[k],
            out@ == start + tool_calls_text(ps.take(i as int)),
        decreases calls@.len() - i,
    {
        render_tool_call(out, calls[i]);
        proof {
            assert(ps.take(i + 1).drop_last() =~= ps.take(i as int));
            assert(out@ =~= start + tool_calls_text(ps.take(i + 1)));
        }
        i = i + 1;
    }
    proof {
        assert(ps.take(ps.len() as int) =~= ps);
    }
}

fn push_finish_block(out: &mut String, m: &MessageWithParts)
    ensures
        final(out)@ == old(out)@ + finish_block(*m),
{
    let ghost start = out@;
    if let Some(finish) = m.step_finish() {
        if let Some(reason) = &finish.data.reason {
            out.append("\n> ⏹ Finished: `");
            out.append(reason.as_str());
            out.append("`\n\n");
        }
    }
    assert(out@ =~= start + finish_block(*m));
}

fn push_tokens_suffix(out: &mut String, m: &MessageWithParts)
    ensures
        final(out)@ == old(out)@ + tokens_suffix(*m),
{
    let ghost start = out@;
    if let Some(t) = &m.message.data.tokens {
        if let Some(total) = t.total {
            out.append(" · ");
            push_dec_i64(out, total);
            out.append(" tokens");
        }
    }
    assert(out@ =~= start + tokens_suffix(*m));
}

fn push_cost_suffix(out: &mut String, m: &MessageWithParts)
    ensures
        final(out)@ == old(out)@ + cost_suffix(*m),
{
    let ghost start = out@;
    if let Some(c) = m.message.data.cost {
        if c > 0 {
            out.append(" · $");
            push_cost(out, c, 6);
        }
    }
    assert(out@ =~= start + cost_suffix(*m));
}

#[verifier::rlimit(40)]
fn push_assistant_heading(out: &mut String, msg: &MessageWithParts)
    ensures
        final(out)@ == old(out)@ + assistant_heading(*msg),
{
    let ghost start = out@;
    let ts = ts_to_time(msg.message.time_created);
    out.append("## 🤖 ");
    match &msg.message.data.agent {
        Some(a) => out.append(a.as_str()),
        None => out.append("unknown"),
    }
    out.append(" (");
    out.append(ts.as_str());
    out.append(")");
    push_tokens_suffix(out, msg);
    push_cost_suffix(out, msg);
    out.append("\n\n");
    assert(out@ =~= start + assistant_heading(*msg));
}

#[verifier::rlimit(40)]
fn push_assistant(out: &mut String, msg: &MessageWithParts, show_tools: bool)
    ensures
        final(out)@ == old(out)@ + assistant_text(*msg, show_tools),
{
    let ghost start = out@;
    push_assistant_heading(out, msg);
    push_reasoning_block(out, msg);
    let ghost before_tools = out@;
    if show_tools {
        push_tool_calls(out, msg);
    }
    assert(out@ =~= before_tools + (if show_tools {
        tool_calls_text(parts_of_type(msg.parts@, "tool"@))
    } else {
        Seq::<char>::empty()
    }));
    push_body_block(out, msg);
    push_finish_block(out, msg);
    proof {
        assert(out@ =~= start + assistant_text(*msg, show_tools));
    }
}

/// Appends the markdown of one message (see [`message_text`]).
#[verifier::rlimit(40)]
pub fn render_message(out: &mut String, msg: &MessageWithParts, show_tools: bool)
    ensures
        final(out)@ == old(out)@ + message_text(*msg, show_tools),
{
    let ghost start = out@;
    let role = msg.message.data.role.as_str();
    if str_eq(role, "user") {
        let ts = ts_to_time(msg.message.time_created);
        out.append("## 🧑 User (");
        out.append(ts.as_str());
        out.append(")\n\n");
        push_body_block(out, msg);
    } else if str_eq(role, "assistant") {
        push_assistant(out, msg, show_tools);
    } else {
        let ts = ts_to_time(msg.message.time_created);
        out.append("## ");
        out.append(role);
        out.append(" (");
        out.append(ts.as_str());
        out.append(")\n\n");
        push_body_block(out, msg);
    }
    out.append("---\n\n");
    proof {
        assert(out@ =~= start + message_text(*msg, show_tools));
    }
}

/// The markdown of one message on its own (see [`message_text`]).
pub fn render_message_only(msg: &MessageWithParts, show_tools: bool) -> (r: String)
    ensures
        r@ == message_text(*msg, show_tools),
{
    let mut out = String::new();
    render_message(&mut out, msg, show_tools);
    assert(out@ =~= message_text(*msg, show_tools));
    out
}

/// The markdown of messages, in order.
pub open spec fn messages_text(ms: Seq<MessageWithParts>, show_tools: bool) -> Seq<char>
    decreases ms.len(),
{
    if ms.len() == 0 {
        Seq::empty()
    } else {
        messages_text(ms.drop_last(), show_tools) + message_text(ms.last(), show_tools)
    }
}

/// Messages are rendered one after another in the order given, none left
/// out: no messages give no text, and one more message adds its own
/// markdown at the end.
pub proof fn law_messages_render_in_order(ms: Seq<MessageWithParts>, m: MessageWithParts, show_tools: bool)
    ensures
        messages_text(Seq::empty(), show_tools).len() == 0,
        messages_text(ms.push(m), show_tools) == messages_text(ms, show_tools) + message_text(m, show_tools),
{
    assert(ms.push(m).drop_last() =~= ms);
}

fn push_messages(out: &mut String, msgs: &Vec<MessageWithParts>, show_tools: bool)
    ensures
        final(out)@ == old(out)@ + messages_text(msgs@, show_tools),
{
    let ghost start = out@;
    let mut i: usize = 0;
    proof {
        assert(msgs@.take(0) =~= Seq::<MessageWithParts>::empty());
        assert(out@ =~= start + messages_text(msgs@.take(0), show_tools));
    }
    while i < msgs.len()
        invariant
            i <= msgs@.len(),
            out@ == start + messages_text(msgs@.take(i as int), show_tools),
        decreases msgs@.len() - i,
    {
        render_message(out, &msgs[i], show_tools);
        proof {
            assert(msgs@.take(i + 1).drop_last() =~= msgs@.take(i as int));
            assert(out@ =~= start + messages_text(msgs@.take(i + 1), show_tools));
        }
        i = i + 1;
    }
    proof {
        assert(msgs@.take(msgs@.len() as int) =~= msgs@);
    }
}

/// The markdown of messages, in order (see [`messages_text`]).
pub fn render_message_batch(messages: &Vec<MessageWithParts>, show_tools: bool) -> (r: String)
    ensures
        r@ == messages_text(messages@, show_tools),
{
    let mut out = String::new();
    push_messages(&mut out, messages, show_tools);
    assert(out@ =~= messages_text(messages@, show_tools));
    out
}

// ───────────────────────── sessions ─────────────────────────

/// The model a session names, or `unknown`.
pub open spec fn model_label(s: Session) -> Seq<char> {
    match s.model {
        Some(m) => m@,
        None => "unknown"@,
    }
}

/// The files-changed line of a session header, when files changed.
pub open spec fn files_line(s: Session) -> Seq<char> {
    match s.summary_files {
        Some(f) => if f > 0 {
            "**Files changed**: "@ + dec_int(f as int) + " (+"@ + dec_int(
                match s.summary_additions {
                    Some(a) => a as int,
                    None => 0,
                },
            ) + "/-"@ + dec_int(
                match s.summary_deletions {
                    Some(d) => d as int,
                    None => 0,
                },
            ) + ")  \n"@
        } else {
            Seq::empty()
        },
        None => Seq::empty(),
    }
}

/// The markdown header of a session: title, id, model, directory, times,
/// message count and changed files.
pub open spec fn header_text(s: Session) -> Seq<char> {
    "# "@ + s.title@ + "\n\n"@ + "---\n\n"@ + "**Session**: `"@ + s.id@ + "`  \n"@ + "**Model**: `"@
        + model_label(s) + "`  \n"@ + "**Directory**: `"@ + s.directory@ + "`  \n"@ + "**Created**: "@
        + short_iso_ts(s.time_created) + "  \n"@ + "**Updated**: "@ + short_iso_ts(s.time_updated)
        + "  \n"@ + "**Messages**: "@ + dec_int(s.msg_count as int) + "  \n"@ + files_line(s)
        + "\n---\n\n"@
}

fn push_files_line(out: &mut String, s: &Session)
    ensures
        final(out)@ == old(out)@ + files_line(*s),
{
    let ghost start = out@;
    if let Some(files) = s.summary_files {
        if files > 0 {
            out.append("**Files changed**: ");
            push_dec_i64(out, files);
            out.append(" (+");
            push_dec_i64(
                out,
                match s.summary_additions {
                    Some(a) => a,
                    None => 0,
                },
            );
            out.append("/-");
            push_dec_i64(
                out,
                match s.summary_deletions {
                    Some(d) => d,
                    None => 0,
                },
            );
            out.append(")  \n");
        }
    }
    assert(out@ =~= start + files_line(*s));
}

/// The markdown header of a session (see [`header_text`]).
#[verifier::rlimit(40)]
pub fn render_session_header(session: &Session) -> (r: String)
    ensures
        r@ == header_text(*session),
{
    let mut out = String::from_str("# ");
    out.append(session.title.as_str());
    out.append("\n\n");
    out.append("---\n\n");
    out.append("**Session**: `");
    out.append(session.id.as_str());
    out.append("`  \n");
    out.append("**Model**: `");
    match &session.model {
        Some(m) => out.append(m.as_str()),
        None => out.append("unknown"),
    }
    out.append("`  \n");
    out.append("**Directory**: `");
    out.append(session.directory.as_str());
    out.append("`  \n");
    out.append("**Created**: ");
    let created = ts_to_iso_short(session.time_created);
    out.append(created.as_str());
    out.append("  \n");
    out.append("**Updated**: ");
    let updated = ts_to_iso_short(session.time_updated);
    out.append(updated.as_str());
    out.append("  \n");
    out.append("**Messages**: ");
    push_dec_i64(&mut out, session.msg_count);
    out.append("  \n");
    push_files_line(&mut out, session);
    out.append("\n---\n\n");
    proof {
        assert(out@ =~= header_text(*session));
    }
    out
}

/// The markdown of a session with its messages (see [`header_text`] and
/// [`messages_text`]).
pub fn render_session_detail(session: &Session, messages: &Vec<MessageWithParts>, show_tools: bool) -> (r: String)
    ensures
        r@ == header_text(*session) + messages_text(messages@, show_tools),
{
    let mut out = render_session_header(session);
    push_messages(&mut out, messages, show_tools);
    out
}

// ───────────────────────── watch mode ─────────────────────────

/// The first 80 characters of the body, and `…` when there were more.
pub open spec fn preview_of(body: Seq<char>) -> Seq<char> {
    if body.len() > 80 {
        body.take(80) + "…"@
    } else {
        body
    }
}

/// A message on one line: time, role or agent, tokens and cost for an
/// assistant, and the start of its text; empty for other roles.
pub open spec fn compact_message_text(m: MessageWithParts) -> Seq<char> {
    let ts = clock_ts(m.message.time_created);
    let role = m.message.data.role@;
    if role == "user"@ {
        "["@ + ts + "] 🧑 User: "@ + preview_of(body_of(m))
    } else if role == "assistant"@ {
        "["@ + ts + "] 🤖 "@ + agent_label(m) + tokens_suffix(m) + cost_suffix(m) + ": "@ + preview_of(
            body_of(m),
        )
    } else {
        Seq::empty()
    }
}

fn push_preview(out: &mut String, body: &String)
    ensures
        final(out)@ == old(out)@ + preview_of(body@),
{
    let cs = chars_of(body.as_str());
    if cs.len() > 80 {
        push_chars_range(out, &cs, 0, 80);
        out.append("…");
        assert(cs@.subrange(0, 80) =~= body@.take(80));
    } else {
        out.append(body.as_str());
    }
}

/// A message on one line (see [`compact_message_text`]).
#[verifier::rlimit(40)]
pub fn render_message_compact(msg: &MessageWithParts) -> (r: String)
    ensures
        r@ == compact_message_text(*msg),
{
    let ts = ts_to_time(msg.message.time_created);
    let role = msg.message.data.role.as_str();
    let mut out = String::new();
    if str_eq(role, "user") {
        out.append("[");
        out.append(ts.as_str());
        out.append("] 🧑 User: ");
        let body = msg.text_body();
        push_preview(&mut out, &body);
    } else if str_eq(role, "assistant") {
        out.append("[");
        out.append(ts.as_str());
        out.append("] 🤖 ");
        match &msg.message.data.agent {
            Some(a) => out.append(a.as_str()),
            None => out.append("unknown"),
        }
        push_tokens_suffix(&mut out, msg);
        push_cost_suffix(&mut out, msg);
        out.append(": ");
        let body = msg.text_body();
        push_preview(&mut out, &body);
    }
    proof {
        assert(out@ =~= compact_message_text(*msg));
    }
    out
}

} // verus!
