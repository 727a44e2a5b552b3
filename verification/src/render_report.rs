//! Markdown renderers for aggregated numbers: the statistics of a session,
//! its context summary, the export with front matter, the usage report and
//! the comparison of two sessions.

use vstd::prelude::*;

use crate::models::{AgentBreakdown, MessageWithParts, Session, SessionStats};
use crate::render_list::{iso_ts, short_id};
use crate::render_msg::{header_text, messages_text, model_label, render_session_detail, short_iso_ts};
use crate::stats::{datas, sum_of, totals_fit, Qty};
use crate::text::{
    chars_of, cost_text, dec_int, dec_nat, join_seq, push_char, push_chars_range, push_cost,
    push_dec_i64, push_dec_u128, push_dec_usize, push_joined, push_zero_padded, strs, zero_padded,
};
use crate::timefmt::ts_to_iso_short;

verus! {

// ───────────────────────── session statistics ─────────────────────────

/// The table row of one agent: name, messages, tokens and cost.
pub open spec fn agent_row(a: AgentBreakdown) -> Seq<char> {
    "| "@ + a.agent@ + " | "@ + dec_int(a.message_count as int) + " | "@ + dec_int(a.total_tokens as int)
        + " | $"@ + cost_text(a.total_cost as int, 6) + " |\n"@
}

/// The table rows of the agents, in order.
pub open spec fn agent_rows(bs: Seq<AgentBreakdown>) -> Seq<char>
    decreases bs.len(),
{
    if bs.len() == 0 {
        Seq::empty()
    } else {
        agent_rows(bs.drop_last()) + agent_row(bs.last())
    }
}

#[verifier::rlimit(40)]
fn push_agent_rows(out: &mut String, bs: &Vec<AgentBreakdown>)
    ensures
        final(out)@ == old(out)@ + agent_rows(bs@),
{
    let ghost start = out@;
    let mut i: usize = 0;
    proof {
        assert(bs@.take(0) =~= Seq::<AgentBreakdown>::empty());
        assert(out@ =~= start + agent_rows(bs@.take(0)));
    }
    while i < bs.len()
        invariant
            i <= bs@.len(),
            out@ == start + agent_rows(bs@.take(i as int)),
        decreases bs@.len() - i,
    {
        let a = &bs[i];
        let ghost before = out@;
        out.append("| ");
        out.append(a.agent.as_str());
        out.append(" | ");
        push_dec_i64(out, a.message_count);
        out.append(" | ");
        push_dec_i64(out, a.total_tokens);
        out.append(" | $");
        push_cost(out, a.total_cost, 6);
        out.append(" |\n");
        proof {
            assert(out@ =~= before + agent_row(*a));
            assert(bs@.take(i + 1).drop_last() =~= bs@.take(i as int));
            assert(out@ =~= start + agent_rows(bs@.take(i + 1)));
        }
        i = i + 1;
    }
    proof {
        assert(bs@.take(bs@.len() as int) =~= bs@);
    }
}

/// The message-count part of the statistics.
pub open spec fn stats_messages_text(st: SessionStats) -> Seq<char> {
    "# Stats: "@ + st.session_title@ + "\n\n"@ + "**Session**: `"@ + st.session_id@ + "`  \n"@ + "---\n\n"@
        + "## Messages\n\n"@ + "| | Count |\n|---|---|\n"@ + "| **Total** | "@ + dec_int(
        st.total_messages as int,
    ) + " |\n"@ + "| User | "@ + dec_int(st.user_messages as int) + " |\n"@ + "| Assistant | "@ + dec_int(
        st.assistant_messages as int,
    ) + " |\n"@ + "\n"@
}

/// The token part of the statistics; the cache rows only when the session
/// used the cache.
pub open spec fn stats_tokens_text(st: SessionStats) -> Seq<char> {
    "## Token Usage\n\n"@ + "| Metric | Tokens |\n|---|---|\n"@ + "| **Total** | "@ + dec_int(st.total_tokens as int)
        + " |\n"@ + "| Input | "@ + dec_int(st.input_tokens as int) + " |\n"@ + "| Output | "@ + dec_int(
        st.output_tokens as int,
    ) + " |\n"@ + "| Reasoning | "@ + dec_int(st.reasoning_tokens as int) + " |\n"@ + (if st.cache_write > 0
        || st.cache_read > 0 {
        "| Cache Write | "@ + dec_int(st.cache_write as int) + " |\n"@ + "| Cache Read | "@ + dec_int(
            st.cache_read as int,
        ) + " |\n"@
    } else {
        Seq::empty()
    }) + "\n"@
}

/// The cost and per-agent part of the statistics.
pub open spec fn stats_cost_text(st: SessionStats) -> Seq<char> {
    "## Cost\n\n"@ + "**Total cost**: $"@ + cost_text(st.total_cost as int, 6) + "\n\n"@ + if st.agent_breakdown@.len()
        > 0 {
        "## Per-Agent Breakdown\n\n"@ + "| Agent | Messages | Tokens | Cost |\n|---|---|---|---|\n"@ + agent_rows(
            st.agent_breakdown@,
        ) + "\n"@
    } else {
        Seq::empty()
    }
}

/// The markdown of a session's statistics.
pub open spec fn session_stats_text(st: SessionStats) -> Seq<char> {
    stats_messages_text(st) + stats_tokens_text(st) + stats_cost_text(st)
}

/// The statistics show every count and sum of a session under its own
/// label: the message counts in total and by role, the tokens in total, of
/// input, output and reasoning, and of cache writes and reads when the cache
/// was used, the total cost, and one row per agent with its messages,
/// tokens and cost.
pub proof fn law_stats_show_each_count_under_its_label(st: SessionStats, bs: Seq<AgentBreakdown>, a: AgentBreakdown)
    ensures
        session_stats_text(st) == stats_messages_text(st) + stats_tokens_text(st) + stats_cost_text(st),
        stats_messages_text(st) == "# Stats: "@ + st.session_title@ + "\n\n"@ + "**Session**: `"@ + st.session_id@
            + "`  \n"@ + "---\n\n"@ + "## Messages\n\n"@ + "| | Count |\n|---|---|\n"@ + "| **Total** | "@
            + dec_int(st.total_messages as int) + " |\n"@ + "| User | "@ + dec_int(st.user_messages as int) + " |\n"@
            + "| Assistant | "@ + dec_int(st.assistant_messages as int) + " |\n"@ + "\n"@,
        stats_tokens_text(st) == "## Token Usage\n\n"@ + "| Metric | Tokens |\n|---|---|\n"@ + "| **Total** | "@
            + dec_int(st.total_tokens as int) + " |\n"@ + "| Input | "@ + dec_int(st.input_tokens as int) + " |\n"@
            + "| Output | "@ + dec_int(st.output_tokens as int) + " |\n"@ + "| Reasoning | "@ + dec_int(
            st.reasoning_tokens as int,
        ) + " |\n"@ + (if st.cache_write > 0 || st.cache_read > 0 {
            "| Cache Write | "@ + dec_int(st.cache_write as int) + " |\n"@ + "| Cache Read | "@ + dec_int(
                st.cache_read as int,
            ) + " |\n"@
        } else {
            Seq::empty()
        }) + "\n"@,
        stats_cost_text(st).len() >= ("## Cost\n\n"@ + "**Total cost**: $"@ + cost_text(st.total_cost as int, 6)
            + "\n\n"@).len(),
        stats_cost_text(st).subrange(
            0,
            ("## Cost\n\n"@ + "**Total cost**: $"@ + cost_text(st.total_cost as int, 6) + "\n\n"@).len() as int,
        ) == "## Cost\n\n"@ + "**Total cost**: $"@ + cost_text(st.total_cost as int, 6) + "\n\n"@,
        agent_rows(bs.push(a)) == agent_rows(bs) + ("| "@ + a.agent@ + " | "@ + dec_int(a.message_count as int)
            + " | "@ + dec_int(a.total_tokens as int) + " | $"@ + cost_text(a.total_cost as int, 6) + " |\n"@),
{
    let c = "## Cost\n\n"@ + "**Total cost**: $"@ + cost_text(st.total_cost as int, 6) + "\n\n"@;
    assert(stats_cost_text(st).subrange(0, c.len() as int) =~= c);
    assert(bs.push(a).drop_last() =~= bs);
}

#[verifier::rlimit(40)]
fn push_stats_messages(out: &mut String, st: &SessionStats)
    ensures
        final(out)@ == old(out)@ + stats_messages_text(*st),
{
    let ghost start = out@;
    out.append("# Stats: ");
    out.append(st.session_title.as_str());
    out.append("\n\n");
    out.append("**Session**: `");
    out.append(st.session_id.as_str());
    out.append("`  \n");
    out.append("---\n\n");
    out.append("## Messages\n\n");
    out.append("| | Count |\n|---|---|\n");
    out.append("| **Total** | ");
    push_dec_i64(out, st.total_messages);
    out.append(" |\n");
    out.append("| User | ");
    push_dec_i64(out, st.user_messages);
    out.append(" |\n");
    out.append("| Assistant | ");
    push_dec_i64(out, st.assistant_messages);
    out.append(" |\n");
    out.append("\n");
    proof {
        assert(out@ =~= start + stats_messages_text(*st));
    }
}

#[verifier::rlimit(40)]
fn push_stats_tokens(out: &mut String, st: &SessionStats)
    ensures
        final(out)@ == old(out)@ + stats_tokens_text(*st),
{
    let ghost start = out@;
    out.append("## Token Usage\n\n");
    out.append("| Metric | Tokens |\n|---|---|\n");
    out.append("| **Total** | ");
    push_dec_i64(out, st.total_tokens);
    out.append(" |\n");
    out.append("| Input | ");
    push_dec_i64(out, st.input_tokens);
    out.append(" |\n");
    out.append("| Output | ");
    push_dec_i64(out, st.output_tokens);
    out.append(" |\n");
    out.append("| Reasoning | ");
    push_dec_i64(out, st.reasoning_tokens);
    out.append(" |\n");
    let ghost mid = out@;
    if st.cache_write > 0 || st.cache_read > 0 {
        out.append("| Cache Write | ");
        push_dec_i64(out, st.cache_write);
        out.append(" |\n");
        out.append("| Cache Read | ");
        push_dec_i64(out, st.cache_read);
        out.append(" |\n");
    }
    out.append("\n");
    proof {
        assert(out@ =~= start + stats_tokens_text(*st));
    }
}

#[verifier::rlimit(40)]
fn push_stats_cost(out: &mut String, st: &SessionStats)
    ensures
        final(out)@ == old(out)@ + stats_cost_text(*st),
{
    let ghost start = out@;
    out.append("## Cost\n\n");
    out.append("**Total cost**: $");
    push_cost(out, st.total_cost, 6);
    out.append("\n\n");
    let ghost mid = out@;
    if st.agent_breakdown.len() > 0 {
        out.append("## Per-Agent Breakdown\n\n");
        out.append("| Agent | Messages | Tokens | Cost |\n|---|---|---|---|\n");
        push_agent_rows(out, &st.agent_breakdown);
        out.append("\n");
    }
    proof {
        assert(out@ =~= start + stats_cost_text(*st));
    }
}

/// The markdown of a session's statistics (see [`session_stats_text`]).
pub fn render_session_stats(stats: &SessionStats) -> (r: String)
    ensures
        r@ == session_stats_text(*stats),
{
    let mut out = String::new();
    push_stats_messages(&mut out, stats);
    push_stats_tokens(&mut out, stats);
    push_stats_cost(&mut out, stats);
    assert(out@ =~= session_stats_text(*stats));
    out
}

// ───────────────────────── session context ─────────────────────────

/// A value of an optional count, 0 when missing.
pub open spec fn or_zero(o: Option<i64>) -> int {
    match o {
        Some(v) => v as int,
        None => 0,
    }
}

/// The first lines of a session's context.
pub open spec fn context_head_text(s: Session) -> Seq<char> {
    "# Context: "@ + s.title@ + "\n\n"@ + "---\n\n"@ + "**Session**: `"@ + s.id@ + "`  \n"@ + "**Model**: `"@
        + model_label(s) + "`  \n"@ + "**Directory**: `"@ + s.directory@ + "`  \n"@ + "**Created**: "@
        + short_iso_ts(s.time_created) + "  \n"@ + "**Messages**: "@ + dec_int(s.msg_count as int) + "  \n"@
}

/// The metadata part of a session's context.
pub open spec fn context_meta_text(s: Session) -> Seq<char> {
    context_head_text(s) + if or_zero(
        s.summary_additions,
    ) > 0 || or_zero(s.summary_deletions) > 0 {
        files_changed_line(s)
    } else {
        Seq::empty()
    }
}

/// The line counting a session's changed files, added and deleted lines.
pub open spec fn files_changed_line(s: Session) -> Seq<char> {
    "**Files changed**: "@ + dec_int(or_zero(s.summary_files)) + " (+"@ + dec_int(or_zero(s.summary_additions))
        + "/-"@ + dec_int(or_zero(s.summary_deletions)) + ")  \n"@
}

/// The tags and annotation part of a session's context.
pub open spec fn context_notes_text(tags: Seq<Seq<char>>, note: Option<Seq<char>>) -> Seq<char> {
    (if tags.len() > 0 {
        "\n"@ + "**Tags**: "@ + join_seq(tags, ", "@) + "  \n"@
    } else {
        Seq::empty()
    }) + match note {
        Some(n) => "\n"@ + "---\n\n"@ + "## Annotation\n\n"@ + n + "\n"@,
        None => Seq::empty(),
    }
}

/// The token table of a session's context.
pub open spec fn context_token_table(st: SessionStats) -> Seq<char> {
    "\n"@ + "---\n\n"@ + "## Token Usage\n\n"@ + "| Metric | Value |\n|---|---|\n"@ + "| Total Tokens | "@ + dec_int(
        st.total_tokens as int,
    ) + " |\n"@ + "| Input / Output | "@ + dec_int(st.input_tokens as int) + " / "@ + dec_int(
        st.output_tokens as int,
    ) + " |\n"@ + "| Reasoning | "@ + dec_int(st.reasoning_tokens as int) + " |\n"@ + "| Total Cost | $"@
        + cost_text(st.total_cost as int, 6) + " |\n"@
}

/// The token part of a session's context.
pub open spec fn context_tokens_text(st: SessionStats) -> Seq<char> {
    context_token_table(st) + if st.agent_breakdown@.len() > 0 {
        "\n"@ + "## Agents\n\n"@ + "| Agent | Messages | Tokens | Cost |\n|---|---|---|---|\n"@ + agent_rows(
            st.agent_breakdown@,
        )
    } else {
        Seq::empty()
    }
}

/// A session's context lists its tags, separated by commas, when it has
/// any, then its annotation under its own heading when it has one; its
/// token table shows the total tokens, the input and output tokens, the
/// reasoning tokens and the total cost.
pub proof fn law_context_shows_tags_note_and_usage(tags: Seq<Seq<char>>, note: Option<Seq<char>>, st: SessionStats)
    ensures
        context_notes_text(tags, note) == (if tags.len() > 0 {
            "\n"@ + "**Tags**: "@ + join_seq(tags, ", "@) + "  \n"@
        } else {
            Seq::empty()
        }) + match note {
            Some(n) => "\n"@ + "---\n\n"@ + "## Annotation\n\n"@ + n + "\n"@,
            None => Seq::empty(),
        },
        tags.len() == 2 ==> join_seq(tags, ", "@) == tags[0] + ", "@ + tags[1],
        context_token_table(st) == "\n"@ + "---\n\n"@ + "## Token Usage\n\n"@ + "| Metric | Value |\n|---|---|\n"@
            + "| Total Tokens | "@ + dec_int(st.total_tokens as int) + " |\n"@ + "| Input / Output | "@ + dec_int(
            st.input_tokens as int,
        ) + " / "@ + dec_int(st.output_tokens as int) + " |\n"@ + "| Reasoning | "@ + dec_int(
            st.reasoning_tokens as int,
        ) + " |\n"@ + "| Total Cost | $"@ + cost_text(st.total_cost as int, 6) + " |\n"@,
{
    if tags.len() == 2 {
        assert(tags.drop_last().len() == 1);
        assert(join_seq(tags.drop_last(), ", "@) == tags[0]);
    }
}

/// The table row of a related session.
pub open spec fn related_row(r: Session) -> Seq<char> {
    let model = match r.model {
        Some(m) => m@,
        None => "—"@,
    };
    "| `"@ + short_id(r.id@, 12) + "` | "@ + r.title@ + " | "@ + dec_int(r.msg_count as int) + " | "@ + model
        + " | "@ + short_iso_ts(r.time_created) + " |\n"@
}

/// The table rows of related sessions, in order.
pub open spec fn related_rows(rs: Seq<Session>) -> Seq<char>
    decreases rs.len(),
{
    if rs.len() == 0 {
        Seq::empty()
    } else {
        related_rows(rs.drop_last()) + related_row(rs.last())
    }
}

/// The related-sessions part of a session's context.
pub open spec fn context_related_text(rs: Seq<Session>) -> Seq<char> {
    if rs.len() > 0 {
        "\n"@ + "---\n\n"@ + "## Related Sessions (same project)\n\n"@
            + "| Session | Title | Messages | Model | Created |\n|---|---|---|---|---|\n"@ + related_rows(rs)
    } else {
        Seq::empty()
    }
}

/// The context summary of a session: metadata, tags, annotation, token
/// usage, agents and related sessions.
pub open spec fn session_context_text(
    s: Session,
    st: SessionStats,
    tags: Seq<Seq<char>>,
    note: Option<Seq<char>>,
    related: Seq<Session>,
) -> Seq<char> {
    context_meta_text(s) + context_notes_text(tags, note) + context_tokens_text(st) + context_related_text(related)
}

fn push_or_zero(out: &mut String, o: Option<i64>)
    ensures
        final(out)@ == old(out)@ + dec_int(or_zero(o)),
{
    push_dec_i64(
        out,
        match o {
            Some(v) => v,
            None => 0,
        },
    );
}

#[verifier::rlimit(40)]
fn push_context_head(out: &mut String, s: &Session)
    ensures
        final(out)@ == old(out)@ + context_head_text(*s),
{
    let ghost start = out@;
    out.append("# Context: ");
    out.append(s.title.as_str());
    out.append("\n\n");
    out.append("---\n\n");
    out.append("**Session**: `");
    out.append(s.id.as_str());
    out.append("`  \n");
    out.append("**Model**: `");
    match &s.model {
        Some(m) => out.append(m.as_str()),
        None => out.append("unknown"),
    }
    out.append("`  \n");
    out.append("**Directory**: `");
    out.append(s.directory.as_str());
    out.append("`  \n");
    out.append("**Created**: ");
    let created = ts_to_iso_short(s.time_created);
    out.append(created.as_str());
    out.append("  \n");
    out.append("**Messages**: ");
    push_dec_i64(out, s.msg_count);
    out.append("  \n");
    proof {
        assert(out@ =~= start + context_head_text(*s));
    }
}

#[verifier::rlimit(40)]
fn push_files_changed_line(out: &mut String, s: &Session)
    ensures
        final(out)@ == old(out)@ + files_changed_line(*s),
{
    let ghost start = out@;
    out.append("**Files changed**: ");
    push_or_zero(out, s.summary_files);
    out.append(" (+");
    push_or_zero(out, s.summary_additions);
    out.append("/-");
    push_or_zero(out, s.summary_deletions);
    out.append(")  \n");
    assert(out@ =~= start + files_changed_line(*s));
}

#[verifier::rlimit(40)]
fn push_context_meta(out: &mut String, s: &Session)
    ensures
        final(out)@ == old(out)@ + context_meta_text(*s),
{
    let ghost start = out@;
    push_context_head(out, s);
    let ghost mid = out@;
    let adds = match s.summary_additions {
        Some(a) => a,
        None => 0,
    };
    let dels = match s.summary_deletions {
        Some(d) => d,
        None => 0,
    };
    if adds > 0 || dels > 0 {
        push_files_changed_line(out, s);
    }
    proof {
        assert(out@ =~= start + context_meta_text(*s));
    }
}

#[verifier::rlimit(40)]
fn push_context_notes(out: &mut String, tags: &Vec<String>, note: Option<&str>)
    ensures
        final(out)@ == old(out)@ + context_notes_text(
            strs(tags@),
            match note {
                Some(n) => Some(n@),
                None => None,
            },
        ),
{
    let ghost start = out@;
    if tags.len() > 0 {
        out.append("\n");
        out.append("**Tags**: ");
        push_joined(out, tags, ", ");
        out.append("  \n");
    }
    let ghost mid = out@;
    if let Some(n) = note {
        out.append("\n");
        out.append("---\n\n");
        out.append("## Annotation\n\n");
        out.append(n);
        out.append("\n");
    }
    proof {
        assert(out@ =~= start + context_notes_text(
            strs(tags@),
            match note {
                Some(n) => Some(n@),
                None => None,
            },
        ));
    }
}

#[verifier::rlimit(40)]
fn push_context_token_table(out: &mut String, st: &SessionStats)
    ensures
        final(out)@ == old(out)@ + context_token_table(*st),
{
    let ghost start = out@;
    out.append("\n");
    out.append("---\n\n");
    out.append("## Token Usage\n\n");
    out.append("| Metric | Value |\n|---|---|\n");
    out.append("| Total Tokens | ");
    push_dec_i64(out, st.total_tokens);
    out.append(" |\n");
    out.append("| Input / Output | ");
    push_dec_i64(out, st.input_tokens);
    out.append(" / ");
    push_dec_i64(out, st.output_tokens);
    out.append(" |\n");
    out.append("| Reasoning | ");
    push_dec_i64(out, st.reasoning_tokens);
    out.append(" |\n");
    out.append("| Total Cost | $");
    push_cost(out, st.total_cost, 6);
    out.append(" |\n");
    assert(out@ =~= start + context_token_table(*st));
}

#[verifier::rlimit(40)]
fn push_context_tokens(out: &mut String, st: &SessionStats)
    ensures
        final(out)@ == old(out)@ + context_tokens_text(*st),
{
    let ghost start = out@;
    push_context_token_table(out, st);
    let ghost mid = out@;
    if st.agent_breakdown.len() > 0 {
        out.append("\n");
        out.append("## Agents\n\n");
        out.append("| Agent | Messages | Tokens | Cost |\n|---|---|---|---|\n");
        push_agent_rows(out, &st.agent_breakdown);
    }
    proof {
        assert(out@ =~= start + context_tokens_text(*st));
    }
}

#[verifier::rlimit(40)]
fn push_related_row(out: &mut String, r: &Session)
    ensures
        final(out)@ == old(out)@ + related_row(*r),
{
    let ghost start = out@;
    out.append("| `");
    let cs = chars_of(r.id.as_str());
    if cs.len() > 12 {
        push_chars_range(out, &cs, 0, 12);
        out.append("…");
        assert(cs@.subrange(0, 12) =~= r.id@.take(12));
    } else {
        out.append(r.id.as_str());
    }
    out.append("` | ");
    out.append(r.title.as_str());
    out.append(" | ");
    push_dec_i64(out, r.msg_count);
    out.append(" | ");
    match &r.model {
        Some(m) => out.append(m.as_str()),
        None => out.append("—"),
    }
    out.append(" | ");
    let ts = ts_to_iso_short(r.time_created);
    out.append(ts.as_str());
    out.append(" |\n");
    proof {
        assert(out@ =~= start + related_row(*r));
    }
}

fn push_context_related(out: &mut String, related: &Vec<Session>)
    ensures
        final(out)@ == old(out)@ + context_related_text(related@),
{
    let ghost start = out@;
    if related.len() == 0 {
        assert(out@ =~= start + context_related_text(related@));
        return;
    }
    out.append("\n");
    out.append("---\n\n");
    out.append("## Related Sessions (same project)\n\n");
    out.append("| Session | Title | Messages | Model | Created |\n|---|---|---|---|---|\n");
    let ghost head = out@;
    let mut i: usize = 0;
    proof {
        assert(related@.take(0) =~= Seq::<Session>::empty());
        assert(out@ =~= head + related_rows(related@.take(0)));
    }
    while i < related.len()
        invariant
            i <= related@.len(),
            out@ == head + related_rows(related@.take(i as int)),
        decreases related@.len() - i,
    {
        push_related_row(out, &related[i]);
        proof {
            assert(related@.take(i + 1).drop_last() =~= related@.take(i as int));
            assert(out@ =~= head + related_rows(related@.take(i + 1)));
        }
        i = i + 1;
    }
    proof {
        assert(related@.take(related@.len() as int) =~= related@);
        assert(out@ =~= start + context_related_text(related@));
    }
}

/// The context summary of a session (see [`session_context_text`]).
pub fn render_session_context(
    session: &Session,
    stats: &SessionStats,
    tags: &Vec<String>,
    note: Option<&str>,
    related: &Vec<Session>,
) -> (r: String)
    ensures
        r@ == session_context_text(
            *session,
            *stats,
            strs(tags@),
            match note {
                Some(n) => Some(n@),
                None => None,
            },
            related@,
        ),
{
    let mut out = String::new();
    push_context_meta(&mut out, session);
    push_context_notes(&mut out, tags, note);
    push_context_tokens(&mut out, stats);
    push_context_related(&mut out, related);
    assert(out@ =~= session_context_text(
        *session,
        *stats,
        strs(tags@),
        match note {
            Some(n) => Some(n@),
            None => None,
        },
        related@,
    ));
    out
}

// ───────────────────────── export ─────────────────────────

/// `s` without its trailing zeros.
pub open spec fn without_trailing_zeros(s: Seq<char>) -> Seq<char>
    decreases s.len(),
{
    if s.len() > 0 && s.last() == '0' {
        without_trailing_zeros(s.drop_last())
    } else {
        s
    }
}

/// A cost in millionths of a dollar written as a plain decimal number, as
/// Rust's `Display` writes such a value: no exponent, no trailing zeros
/// after the point, and no point for a whole number.
pub open spec fn plain_cost(micros: int) -> Seq<char> {
    let a: nat = if micros < 0 {
        (-micros) as nat
    } else {
        micros as nat
    };
    let sign: Seq<char> = if micros < 0 {
        seq!['-']
    } else {
        Seq::empty()
    };
    sign + dec_nat(a / 1_000_000) + if a % 1_000_000 > 0 {
        seq!['.'] + without_trailing_zeros(zero_padded(a % 1_000_000, 6))
    } else {
        Seq::empty()
    }
}

fn push_plain_cost(out: &mut String, micros: i64)
    ensures
        final(out)@ == old(out)@ + plain_cost(micros as int),
{
    let ghost start = out@;
    let a: u128 = if micros < 0 {
        (0 - (micros as i128)) as u128
    } else {
        micros as u128
    };
    let ghost an: nat = if micros < 0 {
        (-micros) as nat
    } else {
        micros as nat
    };
    assert(a == an);
    if micros < 0 {
        push_char(out, '-');
    }
    let ghost signed = out@;
    push_dec_u128(out, a / 1_000_000);
    let ghost whole = out@;
    let frac = a % 1_000_000;
    if frac > 0 {
        push_char(out, '.');
        let mut digits = String::new();
        push_zero_padded(&mut digits, frac, 6);
        let cs = chars_of(digits.as_str());
        let mut n = cs.len();
        proof {
            assert(cs@.take(n as int) =~= cs@);
        }
        while n > 0 && cs[n - 1] == '0'
            invariant
                n <= cs@.len(),
                without_trailing_zeros(cs@) == without_trailing_zeros(cs@.take(n as int)),
            decreases n,
        {
            proof {
                assert(cs@.take(n as int).drop_last() =~= cs@.take(n - 1));
            }
            n = n - 1;
        }
        push_chars_range(out, &cs, 0, n);
        proof {
            assert(cs@.subrange(0, n as int) =~= cs@.take(n as int));
            assert(without_trailing_zeros(cs@.take(n as int)) == cs@.take(n as int));
            assert(cs@ == zero_padded(an % 1_000_000, 6));
            assert(out@ =~= whole + seq!['.'] + without_trailing_zeros(zero_padded(an % 1_000_000, 6)));
        }
    } else {
        assert(out@ =~= whole);
    }
    proof {
        assert(out@ =~= start + plain_cost(micros as int));
    }
}

/// The identifying lines of an exported session's front matter.
pub open spec fn front_matter_head(s: Session) -> Seq<char> {
    "---\n"@ + "id: \""@ + s.id@ + "\"\n"@ + "title: \""@ + s.title@ + "\"\n"@ + "model: \""@ + model_label(s)
        + "\"\n"@ + "directory: \""@ + s.directory@ + "\"\n"@ + "created: \""@ + iso_ts(s.time_created) + "\"\n"@
        + "updated: \""@ + iso_ts(s.time_updated) + "\"\n"@
}

/// The message count and cost lines of an exported session's front matter.
pub open spec fn front_matter_counts(s: Session, total_cost: int) -> Seq<char> {
    "messages: "@ + dec_int(s.msg_count as int) + "\n"@ + "cost: "@ + plain_cost(total_cost) + "\n"@
}

/// The front matter of an exported session; `total_cost` is the sum of its
/// messages' costs.
pub open spec fn front_matter_text(s: Session, total_cost: int) -> Seq<char> {
    front_matter_head(s) + front_matter_counts(s, total_cost) + front_matter_files(s) + "---\n\n"@
}

/// The changed-file lines of an exported session's front matter, present
/// when it changed at least one file.
pub open spec fn front_matter_files(s: Session) -> Seq<char> {
    match s.summary_files {
        Some(f) => if f > 0 {
            "files_changed: "@ + dec_int(f as int) + "\n"@ + "additions: "@ + dec_int(or_zero(s.summary_additions))
                + "\n"@ + "deletions: "@ + dec_int(or_zero(s.summary_deletions)) + "\n"@
        } else {
            Seq::empty()
        },
        None => Seq::empty(),
    }
}

#[verifier::rlimit(40)]
fn push_front_matter_head(out: &mut String, s: &Session)
    ensures
        final(out)@ == old(out)@ + front_matter_head(*s),
{
    let ghost start = out@;
    out.append("---\n");
    out.append("id: \"");
    out.append(s.id.as_str());
    out.append("\"\n");
    out.append("title: \"");
    out.append(s.title.as_str());
    out.append("\"\n");
    out.append("model: \"");
    match &s.model {
        Some(m) => out.append(m.as_str()),
        None => out.append("unknown"),
    }
    out.append("\"\n");
    out.append("directory: \"");
    out.append(s.directory.as_str());
    out.append("\"\n");
    out.append("created: \"");
    let created = crate::timefmt::ts_to_iso(s.time_created);
    out.append(created.as_str());
    out.append("\"\n");
    out.append("updated: \"");
    let updated = crate::timefmt::ts_to_iso(s.time_updated);
    out.append(updated.as_str());
    out.append("\"\n");
    proof {
        assert(out@ =~= start + front_matter_head(*s));
    }
}

#[verifier::rlimit(40)]
fn push_front_matter_files(out: &mut String, s: &Session)
    ensures
        final(out)@ == old(out)@ + front_matter_files(*s),
{
    let ghost start = out@;
    if let Some(files) = s.summary_files {
        if files > 0 {
            out.append("files_changed: ");
            push_dec_i64(out, files);
            out.append("\n");
            out.append("additions: ");
            push_or_zero(out, s.summary_additions);
            out.append("\n");
            out.append("deletions: ");
            push_or_zero(out, s.summary_deletions);
            out.append("\n");
        }
    }
    assert(out@ =~= start + front_matter_files(*s));
}

#[verifier::rlimit(40)]
fn push_front_matter(out: &mut String, s: &Session, total_cost: i64)
    ensures
        final(out)@ == old(out)@ + front_matter_text(*s, total_cost as int),
{
    let ghost start = out@;
    push_front_matter_head(out, s);
    let ghost head = out@;
    out.append("messages: ");
    push_dec_i64(out, s.msg_count);
    out.append("\n");
    out.append("cost: ");
    push_plain_cost(out, total_cost);
    out.append("\n");
    assert(out@ =~= head + front_matter_counts(*s, total_cost as int));
    push_front_matter_files(out, s);
    out.append("---\n\n");
    proof {
        assert(out@ =~= start + front_matter_text(*s, total_cost as int));
    }
}

/// The markdown export of a session: front matter with the sum of the
/// messages' costs, then the session as [`render_session_detail`] renders it.
pub open spec fn export_markdown_text(s: Session, ms: Seq<MessageWithParts>, show_tools: bool) -> Seq<char> {
    front_matter_text(s, sum_of(datas(ms), Qty::Cost)) + header_text(s) + messages_text(ms, show_tools)
}

/// The first and last pieces of a text made of five pieces.
proof fn lemma_five_pieces_ends(h: Seq<char>, a: Seq<char>, b: Seq<char>, c: Seq<char>, tl: Seq<char>)
    ensures
        ({
            let t = (((h + a) + b) + c) + tl;
            &&& h.len() <= t.len() && t.subrange(0, h.len() as int) == h
            &&& tl.len() <= t.len() && t.subrange(t.len() - tl.len(), t.len() as int) == tl
        }),
{
    let t = (((h + a) + b) + c) + tl;
    assert(t =~= h + (a + b + c) + tl);
    assert(t.subrange(0, h.len() as int) =~= h);
    assert(t.subrange(t.len() - tl.len(), t.len() as int) =~= tl);
}

/// An export opens with front matter that identifies the session: its id,
/// title, model (`unknown` when it has none), directory, creation and update
/// times, then its message count and total cost (the sum of its messages'
/// costs), each on its own line; it ends with the messages, in order.
pub proof fn law_export_opens_with_the_sessions_front_matter(s: Session, ms: Seq<MessageWithParts>, show_tools: bool)
    ensures
        ({
            let t = export_markdown_text(s, ms, show_tools);
            let model = match s.model {
                Some(m) => m@,
                None => "unknown"@,
            };
            let head = ("---\n"@ + "id: \""@ + s.id@ + "\"\n"@ + "title: \""@ + s.title@ + "\"\n"@ + "model: \""@
                + model + "\"\n"@ + "directory: \""@ + s.directory@ + "\"\n"@ + "created: \""@ + iso_ts(
                s.time_created,
            ) + "\"\n"@ + "updated: \""@ + iso_ts(s.time_updated) + "\"\n"@) + ("messages: "@ + dec_int(
                s.msg_count as int,
            ) + "\n"@ + "cost: "@ + plain_cost(sum_of(datas(ms), Qty::Cost)) + "\n"@);
            let tail = messages_text(ms, show_tools);
            &&& head.len() <= t.len() && t.subrange(0, head.len() as int) == head
            &&& tail.len() <= t.len() && t.subrange(t.len() - tail.len(), t.len() as int) == tail
        }),
{
    let c = sum_of(datas(ms), Qty::Cost);
    lemma_five_pieces_ends(
        front_matter_head(s) + front_matter_counts(s, c),
        front_matter_files(s),
        "---\n\n"@,
        header_text(s),
        messages_text(ms, show_tools),
    );
}

/// The markdown export of a session (see [`export_markdown_text`]).
pub fn render_export_markdown(session: &Session, messages: &Vec<MessageWithParts>, show_tools: bool) -> (r: String)
    requires
        totals_fit(datas(messages@)),
    ensures
        r@ == export_markdown_text(*session, messages@, show_tools),
{
    let totals = crate::stats::message_totals(messages);
    let mut out = String::new();
    push_front_matter(&mut out, session, totals.total_cost);
    let detail = render_session_detail(session, messages, show_tools);
    out.append(detail.as_str());
    assert(out@ =~= export_markdown_text(*session, messages@, show_tools));
    out
}

} // verus!
