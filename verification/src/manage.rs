//! Decisions and texts of the commands that change sessions or show them
//! interactively: confirmations, the undo menu, the tag table, export
//! formats and redaction, and the paging of long sessions.

use vstd::prelude::*;

use crate::models::{first_of_type, MessageWithParts, Part, PartData, ToolState};
use crate::split::{trim, trim_seq};
use crate::text::{
    chars_of, dec_int, dec_nat, lemma_strs_push, lowercase, push_chars_range, push_dec_i64, push_dec_usize,
    push_repeat, repeat_seq, str_eq, strs, to_lowercase,
};
use crate::timefmt::{chrono_accepts, chrono_utc_format, format_timestamp, ms_secs, wrapped_ms_nanos};

verus! {

// ───────────────────────── answers ─────────────────────────

/// An answer that confirms a deletion: `y` or `yes`, trimmed, in any case.
pub open spec fn is_yes(answer: Seq<char>) -> bool {
    let a = lowercase(trim_seq(answer));
    a == "y"@ || a == "yes"@
}

/// Whether the answer confirms a deletion (see [`is_yes`]).
pub fn confirms(answer: &str) -> (r: bool)
    ensures
        r == is_yes(answer@),
{
    let t = trim(answer);
    let a = to_lowercase(t.as_str());
    str_eq(a.as_str(), "y") || str_eq(a.as_str(), "yes")
}

/// What to do with a message picked for undo.
#[derive(Clone, Copy, Debug, PartialEq, Eq, Structural)]
pub enum UndoAction {
    Delete,
    Edit,
    Cancel,
}

/// The action an answer names: `d` deletes, `e` edits, anything else
/// cancels (trimmed, in any case).
pub open spec fn undo_action(answer: Seq<char>) -> UndoAction {
    let a = lowercase(trim_seq(answer));
    if a == "d"@ {
        UndoAction::Delete
    } else if a == "e"@ {
        UndoAction::Edit
    } else {
        UndoAction::Cancel
    }
}

/// Reads the undo action typed (see [`undo_action`]).
pub fn parse_undo_action(answer: &str) -> (r: UndoAction)
    ensures
        r == undo_action(answer@),
{
    let t = trim(answer);
    let a = to_lowercase(t.as_str());
    if str_eq(a.as_str(), "d") {
        UndoAction::Delete
    } else if str_eq(a.as_str(), "e") {
        UndoAction::Edit
    } else {
        UndoAction::Cancel
    }
}

// ───────────────────────── the undo menu ─────────────────────────

/// The start of the first text or reasoning part of a message: at most 80
/// characters, empty when that part has no text or there is none.
pub open spec fn pick_preview(m: MessageWithParts) -> Seq<char> {
    let text = match first_text_part(m.parts@) {
        Some(p) => match p.data.text {
            Some(t) => t@,
            None => Seq::empty(),
        },
        None => Seq::empty(),
    };
    if text.len() > 80 {
        text.take(80)
    } else {
        text
    }
}

/// The first part whose type is `text` or `reasoning`.
pub open spec fn first_text_part(parts: Seq<Part>) -> Option<Part>
    decreases parts.len(),
{
    if parts.len() == 0 {
        None
    } else if parts[0].data.part_type@ == "text"@ || parts[0].data.part_type@ == "reasoning"@ {
        Some(parts[0])
    } else {
        first_text_part(parts.skip(1))
    }
}

/// The time of day of a message as the undo menu shows it.
pub open spec fn menu_time(ts: i64) -> Seq<char> {
    if chrono_accepts(ms_secs(ts as int), wrapped_ms_nanos(ts as int)) {
        chrono_utc_format(ms_secs(ts as int), wrapped_ms_nanos(ts as int), "%H:%M:%S"@)
    } else {
        "??:??:??"@
    }
}

/// The line of a message in the undo menu: id, time, role and the start of
/// its text, separated by tabs.
pub open spec fn pick_line_text(m: MessageWithParts) -> Seq<char> {
    m.message.id@ + "\t"@ + menu_time(m.message.time_created) + "  "@ + m.message.data.role@ + "\t"@
        + pick_preview(m)
}

fn is_text_part(p: &Part) -> (r: bool)
    ensures
        r == (p.data.part_type@ == "text"@ || p.data.part_type@ == "reasoning"@),
{
    str_eq(p.data.part_type.as_str(), "text") || str_eq(p.data.part_type.as_str(), "reasoning")
}

/// The line of a message in the undo menu (see [`pick_line_text`]).
pub fn pick_line(m: &MessageWithParts) -> (r: String)
    ensures
        r@ == pick_line_text(*m),
{
    let mut out = String::new();
    out.append(m.message.id.as_str());
    out.append("\t");
    let ts = format_timestamp(m.message.time_created);
    out.append(ts.as_str());
    out.append("  ");
    out.append(m.message.data.role.as_str());
    out.append("\t");
    let ghost head = out@;
    let mut i: usize = 0;
    proof {
        assert(m.parts@.skip(0) =~= m.parts@);
    }
    while i < m.parts.len() && !is_text_part(&m.parts[i])
        invariant
            i <= m.parts@.len(),
            first_text_part(m.parts@) == first_text_part(m.parts@.skip(i as int)),
        decreases m.parts@.len() - i,
    {
        proof {
            assert(m.parts@.skip(i as int)[0] == m.parts@[i as int]);
            assert(m.parts@.skip(i as int).skip(1) =~= m.parts@.skip(i + 1));
        }
        i = i + 1;
    }
    if i < m.parts.len() {
        proof {
            assert(m.parts@.skip(i as int)[0] == m.parts@[i as int]);
        }
        match &m.parts[i].data.text {
            Some(t) => {
                let cs = chars_of(t.as_str());
                let n = if cs.len() > 80 {
                    80
                } else {
                    cs.len()
                };
                push_chars_range(&mut out, &cs, 0, n);
                assert(cs@.subrange(0, n as int) =~= pick_preview(*m));
            },
            None => {},
        }
    } else {
        assert(m.parts@.skip(i as int).len() == 0);
    }
    proof {
        assert(out@ =~= pick_line_text(*m));
    }
    out
}

/// The undo menu's lines of the user's messages among `ms`, in order.
pub open spec fn user_pick_lines(ms: Seq<MessageWithParts>) -> Seq<Seq<char>>
    decreases ms.len(),
{
    if ms.len() == 0 {
        Seq::empty()
    } else {
        let rest = user_pick_lines(ms.drop_last());
        if ms.last().message.data.role@ == "user"@ {
            rest.push(pick_line_text(ms.last()))
        } else {
            rest
        }
    }
}

/// The lines of the undo menu: one per message of the user, in order (see
/// [`pick_line_text`]); `None` when the session has no message of the user.
pub fn undo_menu(msgs: &Vec<MessageWithParts>) -> (r: Option<Vec<String>>)
    ensures
        r is None <==> (forall|j: int| 0 <= j < msgs@.len() ==> #[trigger] msgs@[j].message.data.role@ != "user"@),
        r matches Some(v) ==> strs(v@) == user_pick_lines(msgs@),
{
    let mut lines: Vec<String> = Vec::new();
    let mut i: usize = 0;
    proof {
        assert(msgs@.take(0) =~= Seq::<MessageWithParts>::empty());
    }
    while i < msgs.len()
        invariant
            i <= msgs@.len(),
            strs(lines@) == user_pick_lines(msgs@.take(i as int)),
            lines@.len() == 0 <==> (forall|j: int| 0 <= j < i ==> #[trigger] msgs@[j].message.data.role@ != "user"@),
        decreases msgs@.len() - i,
    {
        proof {
            assert(msgs@.take(i + 1).drop_last() =~= msgs@.take(i as int));
        }
        if str_eq(msgs[i].message.data.role.as_str(), "user") {
            let line = pick_line(&msgs[i]);
            proof {
                lemma_strs_push(lines@, line);
            }
            lines.push(line);
        }
        i = i + 1;
    }
    assert(msgs@.take(i as int) =~= msgs@);
    if lines.len() == 0 {
        None
    } else {
        Some(lines)
    }
}

// ───────────────────────── the tag table ─────────────────────────

/// `s` padded with spaces on the right to `w` characters (`{:<w}`).
pub open spec fn pad_right(s: Seq<char>, w: nat) -> Seq<char> {
    if s.len() < w {
        s + repeat_seq(" "@, (w - s.len()) as nat)
    } else {
        s
    }
}

fn push_padded(out: &mut String, s: &str, w: usize)
    ensures
        final(out)@ == old(out)@ + pad_right(s@, w as nat),
{
    let ghost start = out@;
    out.append(s);
    let n = chars_of(s).len();
    if n < w {
        push_repeat(out, " ", w - n);
    }
    assert(out@ =~= start + pad_right(s@, w as nat));
}

/// The line of one tag: the tag padded to 20 characters, then its count.
pub open spec fn tag_line(t: (String, usize)) -> Seq<char> {
    pad_right(t.0@, 20) + " "@ + dec_nat(t.1 as nat)
}

/// The lines the tag listing prints: a heading, a rule, then one line per
/// tag.
pub open spec fn tag_table(tags: Seq<(String, usize)>) -> Seq<Seq<char>> {
    seq![pad_right("Tag"@, 20) + " "@ + "Sessions"@, repeat_seq("-"@, 30)] + Seq::new(
        tags.len(),
        |i: int| tag_line(tags[i]),
    )
}

/// The lines of the tag listing (see [`tag_table`]).
pub fn render_tag_table(tags: &Vec<(String, usize)>) -> (r: Vec<String>)
    ensures
        strs(r@) == tag_table(tags@),
{
    let mut r: Vec<String> = Vec::new();
    let mut head = String::new();
    push_padded(&mut head, "Tag", 20);
    head.append(" ");
    head.append("Sessions");
    proof {
        lemma_strs_push(r@, head);
    }
    r.push(head);
    let mut rule = String::new();
    push_repeat(&mut rule, "-", 30);
    proof {
        lemma_strs_push(r@, rule);
    }
    r.push(rule);
    let ghost top = strs(r@);
    let mut i: usize = 0;
    while i < tags.len()
        invariant
            i <= tags@.len(),
            top.len() == 2,
            top == seq![pad_right("Tag"@, 20) + " "@ + "Sessions"@, repeat_seq("-"@, 30)],
            strs(r@) == top + Seq::new(i as nat, |k: int| tag_line(tags@[k])),
        decreases tags@.len() - i,
    {
        let mut line = String::new();
        push_padded(&mut line, tags[i].0.as_str(), 20);
        line.append(" ");
        push_dec_usize(&mut line, tags[i].1);
        proof {
            lemma_strs_push(r@, line);
            assert(line@ =~= tag_line(tags@[i as int]));
            assert(top + Seq::new((i + 1) as nat, |k: int| tag_line(tags@[k])) =~= (top + Seq::new(
                i as nat,
                |k: int| tag_line(tags@[k]),
            )).push(line@));
        }
        r.push(line);
        i = i + 1;
    }
    proof {
        assert(strs(r@) =~= tag_table(tags@));
    }
    r
}

// ───────────────────────── export ─────────────────────────

/// The formats a session or report can be written in.
#[derive(Clone, Copy, Debug, PartialEq, Eq, Structural)]
pub enum OutputFormat {
    Markdown,
    Json,
}

/// A format that is neither `markdown` nor `json`.
pub struct UnsupportedFormat {
    pub format: String,
}

impl UnsupportedFormat {
    /// The message shown for this error.
    pub fn message(&self) -> (r: String)
        ensures
            r@ == "Unsupported format: '"@ + self.format@ + "'. Use 'markdown' or 'json'."@,
    {
        let mut r = String::from_str("Unsupported format: '");
        r.append(self.format.as_str());
        r.append("'. Use 'markdown' or 'json'.");
        r
    }
}

/// The format named `s`; any other name is refused.
pub fn parse_format(s: &str) -> (r: Result<OutputFormat, UnsupportedFormat>)
    ensures
        match r {
            Ok(OutputFormat::Markdown) => s@ == "markdown"@,
            Ok(OutputFormat::Json) => s@ == "json"@ && s@ != "markdown"@,
            Err(e) => e.format@ == s@ && s@ != "markdown"@ && s@ != "json"@,
        },
{
    if str_eq(s, "markdown") {
        Ok(OutputFormat::Markdown)
    } else if str_eq(s, "json") {
        Ok(OutputFormat::Json)
    } else {
        Err(UnsupportedFormat { format: String::from_str(s) })
    }
}

/// The text that replaces redacted content.
pub open spec fn redacted() -> Seq<char> {
    "[redacted]"@
}

/// A part with its content redacted: the text of text and reasoning parts,
/// and the input (dropped) and output of tool calls.
pub open spec fn is_sanitized(p: Part, q: Part) -> bool {
    &&& q.id == p.id
    &&& q.message_id == p.message_id
    &&& q.data.part_type == p.data.part_type
    &&& q.data.tool == p.data.tool
    &&& q.data.call_id == p.data.call_id
    &&& q.data.reason == p.data.reason
    &&& q.data.time == p.data.time
    &&& q.data.done == p.data.done
    &&& q.data.body == p.data.body
    &&& (if p.data.part_type@ == "text"@ || p.data.part_type@ == "reasoning"@ {
        match q.data.text {
            Some(t) => t@ == redacted(),
            None => false,
        }
    } else {
        q.data.text == p.data.text
    })
    &&& match p.data.state {
        Some(st) => match q.data.state {
            Some(qs) => qs.status == st.status && qs.input is None && match qs.output {
                Some(o) => o@ == redacted(),
                None => false,
            },
            None => false,
        },
        None => q.data.state is None,
    }
}

/// A sanitized part hides what was said and what tools did: the text of a
/// text or reasoning part reads `[redacted]`, and a tool call keeps its
/// status but loses its input and shows `[redacted]` as its output; the
/// part keeps its identity, its kind and which tool it called.
pub proof fn law_sanitized_parts_hide_content(p: Part, q: Part)
    requires
        is_sanitized(p, q),
    ensures
        q.id == p.id && q.message_id == p.message_id && q.data.part_type == p.data.part_type,
        q.data.tool == p.data.tool,
        p.data.part_type@ == "text"@ || p.data.part_type@ == "reasoning"@ ==> (q.data.text matches Some(t) && t@
            == "[redacted]"@),
        q.data.state is Some <==> p.data.state is Some,
        q.data.state matches Some(st) ==> st.input is None && (st.output matches Some(o) && o@ == "[redacted]"@),
        q.data.state matches Some(st) ==> st.status == p.data.state->Some_0.status,
{
}

/// Redacts the content of a part (see [`is_sanitized`]).
pub fn sanitize_part(p: Part) -> (q: Part)
    ensures
        is_sanitized(p, q),
{
    let ghost orig = p;
    let Part { id, message_id, data } = p;
    let PartData { part_type, text, tool, call_id, state, reason, time, done, body } = data;
    let text = if str_eq(part_type.as_str(), "text") || str_eq(part_type.as_str(), "reasoning") {
        Some(String::from_str("[redacted]"))
    } else {
        text
    };
    let state = match state {
        Some(st) => {
            let ToolState { status, input, output } = st;
            Some(ToolState { status, input: None, output: Some(String::from_str("[redacted]")) })
        },
        None => None,
    };
    Part { id, message_id, data: PartData { part_type, text, tool, call_id, state, reason, time, done, body } }
}

// ───────────────────────── paging long sessions ─────────────────────────

/// Sessions with more messages than this open in the pager.
pub const PAGER_THRESHOLD: i64 = 20;

/// Messages are read for the pager in batches of this many.
pub const BATCH_SIZE: i64 = 50;

/// Batches read before the pager opens.
pub const INITIAL_BATCHES: i64 = 4;

/// The earliest message already read for the pager; batches go backwards
/// from the end of the session.
pub struct BatchCursor {
    pub offset: i64,
}

impl BatchCursor {
    /// The next batch to read, as an offset and a count: the [`BATCH_SIZE`]
    /// messages before the cursor, or those that are left; none at the
    /// start of the session.
    pub fn next_batch(&self) -> (r: Option<(i64, i64)>)
        ensures
            self.offset <= 0 ==> r is None,
            self.offset > 0 ==> (r matches Some((start, count)) && count == (if self.offset < BATCH_SIZE {
                self.offset
            } else {
                BATCH_SIZE
            }) && start == self.offset - count),
    {
        if self.offset <= 0 {
            None
        } else {
            let count = if self.offset < BATCH_SIZE {
                self.offset
            } else {
                BATCH_SIZE
            };
            Some((self.offset - count, count))
        }
    }
}

/// The lines shown under the header when the session has an annotation.
pub open spec fn annotation_lines(note: Seq<char>) -> Seq<Seq<char>> {
    seq![
        Seq::empty(),
        "\x1b[33m📝 Annotation: "@ + note + "\x1b[0m"@,
        "\x1b[2m————————————————————————————————\x1b[0m"@,
        Seq::empty(),
    ]
}

/// Adds the annotation lines under the header lines.
pub fn push_annotation_lines(lines: &mut Vec<String>, note: &str)
    ensures
        strs(final(lines)@) == strs(old(lines)@) + annotation_lines(note@),
{
    let ghost start = strs(lines@);
    let a = String::new();
    proof {
        lemma_strs_push(lines@, a);
    }
    lines.push(a);
    let mut b = String::from_str("\x1b[33m📝 Annotation: ");
    b.append(note);
    b.append("\x1b[0m");
    proof {
        lemma_strs_push(lines@, b);
    }
    lines.push(b);
    let c = String::from_str("\x1b[2m————————————————————————————————\x1b[0m");
    proof {
        lemma_strs_push(lines@, c);
    }
    lines.push(c);
    let d = String::new();
    proof {
        lemma_strs_push(lines@, d);
    }
    lines.push(d);
    proof {
        assert(strs(lines@) =~= start + annotation_lines(note@));
    }
}

/// The status-line prefix of the pager: the session and its message count.
pub open spec fn pager_prefix_text(id: Seq<char>, total: i64) -> Seq<char> {
    id + " | msgs:"@ + dec_int(total as int) + "/"@ + dec_int(total as int) + " | "@
}

/// The status-line prefix of the pager (see [`pager_prefix_text`]).
pub fn pager_prefix(id: &str, total: i64) -> (r: String)
    ensures
        r@ == pager_prefix_text(id@, total),
{
    let mut r = String::from_str(id);
    r.append(" | msgs:");
    push_dec_i64(&mut r, total);
    r.append("/");
    push_dec_i64(&mut r, total);
    r.append(" | ");
    r
}

/// Inserts a batch of lines at `pos`; returns how many were added.
pub fn insert_lines_at(all: &mut Vec<String>, batch: Vec<String>, pos: usize) -> (added: usize)
    requires
        pos <= old(all)@.len(),
    ensures
        final(all)@ == old(all)@.subrange(0, pos as int) + batch@ + old(all)@.subrange(
            pos as int,
            old(all)@.len() as int,
        ),
        added == batch@.len(),
{
    let ghost orig = all@;
    let ghost b = batch@;
    let n = batch.len();
    let mut batch = batch;
    let mut tail = all.split_off(pos);
    all.append(&mut batch);
    all.append(&mut tail);
    assert(all@ =~= orig.subrange(0, pos as int) + b + orig.subrange(pos as int, orig.len() as int));
    n
}

} // verus!
