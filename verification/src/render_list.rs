//! Markdown renderers for lists: project groups, session diffs and search
//! results grouped by session.

use vstd::prelude::*;

use crate::models::{DiffEntry, ProjectGroup, SearchResult, Session, TopSessionEntry};
use crate::render_msg::model_label;
use crate::sorted::{same_elems, sorted_set_of, sorted_unique, strictly_sorted};
use crate::text::{
    chars_of, cost_text, dec_int, dec_nat, last_segment, lemma_seq_le_antisym, lemma_seq_lt_trans,
    push_chars_range, push_cost, push_dec_i64, push_dec_usize, push_last_segment, push_replaced,
    replace_seq, seq_lt, str_eq, strs,
};
use crate::timefmt::{invalid_ts_text, ts_text, ts_to_compact, ts_to_iso, ts_to_time};

verus! {

/// `MM-DD HH:MM` of a millisecond timestamp, or empty.
pub open spec fn compact_ts(ts: i64) -> Seq<char> {
    ts_text(ts as int, "%m-%d %H:%M"@, Seq::empty())
}

/// `HH:MM:SS` of a millisecond timestamp, or empty.
pub open spec fn time_ts(ts: i64) -> Seq<char> {
    ts_text(ts as int, "%H:%M:%S"@, Seq::empty())
}

// ───────────────────────── diffs ─────────────────────────

/// The markdown of one changed file.
pub open spec fn diff_entry_text(e: DiffEntry) -> Seq<char> {
    let status = match e.status {
        Some(s) => s@,
        None => "unknown"@,
    };
    let adds = match e.additions {
        Some(a) => a as int,
        None => 0,
    };
    let dels = match e.deletions {
        Some(d) => d as int,
        None => 0,
    };
    "## `"@ + e.file@ + "`  \n"@ + "**Status**: "@ + status + " · **+"@ + dec_int(adds) + "/-"@ + dec_int(
        dels,
    ) + "**  \n\n"@ + match e.patch {
        Some(p) => "```diff\n"@ + p@ + "\n```\n\n"@,
        None => Seq::empty(),
    }
}

/// The markdown of the changed files, in order.
pub open spec fn diff_entries_text(es: Seq<DiffEntry>) -> Seq<char>
    decreases es.len(),
{
    if es.len() == 0 {
        Seq::empty()
    } else {
        diff_entries_text(es.drop_last()) + diff_entry_text(es.last())
    }
}

/// The markdown of the diff of session `session_id`.
pub open spec fn diff_text(es: Seq<DiffEntry>, session_id: Seq<char>) -> Seq<char> {
    "# Diff: `"@ + session_id + "`\n\n"@ + if es.len() == 0 {
        "No file changes recorded for this session.\n"@
    } else {
        diff_entries_text(es)
    }
}

#[verifier::rlimit(40)]
fn push_diff_entry(out: &mut String, e: &DiffEntry)
    ensures
        final(out)@ == old(out)@ + diff_entry_text(*e),
{
    let ghost start = out@;
    out.append("## `");
    out.append(e.file.as_str());
    out.append("`  \n");
    out.append("**Status**: ");
    match &e.status {
        Some(s) => out.append(s.as_str()),
        None => out.append("unknown"),
    }
    out.append(" · **+");
    push_dec_i64(
        out,
        match e.additions {
            Some(a) => a,
            None => 0,
        },
    );
    out.append("/-");
    push_dec_i64(
        out,
        match e.deletions {
            Some(d) => d,
            None => 0,
        },
    );
    out.append("**  \n\n");
    if let Some(p) = &e.patch {
        out.append("```diff\n");
        out.append(p.as_str());
        out.append("\n```\n\n");
    }
    proof {
        assert(out@ =~= start + diff_entry_text(*e));
    }
}

/// The markdown of the diff of session `session_id` (see [`diff_text`]).
pub fn render_diff(entries: &Vec<DiffEntry>, session_id: &str) -> (r: String)
    ensures
        r@ == diff_text(entries@, session_id@),
{
    let mut out = String::from_str("# Diff: `");
    out.append(session_id);
    out.append("`\n\n");
    let ghost head = out@;
    if entries.len() == 0 {
        out.append("No file changes recorded for this session.\n");
        proof {
            assert(out@ =~= diff_text(entries@, session_id@));
        }
        return out;
    }
    let mut i: usize = 0;
    proof {
        assert(entries@.take(0) =~= Seq::<DiffEntry>::empty());
        assert(out@ =~= head + diff_entries_text(entries@.take(0)));
    }
    while i < entries.len()
        invariant
            i <= entries@.len(),
            out@ == head + diff_entries_text(entries@.take(i as int)),
        decreases entries@.len() - i,
    {
        push_diff_entry(&mut out, &entries[i]);
        proof {
            assert(entries@.take(i + 1).drop_last() =~= entries@.take(i as int));
            assert(out@ =~= head + diff_entries_text(entries@.take(i + 1)));
        }
        i = i + 1;
    }
    proof {
        assert(entries@.take(entries@.len() as int) =~= entries@);
        assert(out@ =~= diff_text(entries@, session_id@));
    }
    out
}

// ───────────────────────── projects ─────────────────────────

/// The table row of the `n`-th project group (counting from 1).
pub open spec fn project_row(g: ProjectGroup, n: nat) -> Seq<char> {
    "| "@ + dec_nat(n) + " | `"@ + g.directory@ + "` | "@ + dec_int(g.session_count as int) + " | "@ + dec_int(
        g.total_messages as int,
    ) + " | "@ + compact_ts(g.last_active) + " |\n"@
}

/// The table rows of the project groups, numbered from 1.
pub open spec fn project_rows(gs: Seq<ProjectGroup>) -> Seq<char>
    decreases gs.len(),
{
    if gs.len() == 0 {
        Seq::empty()
    } else {
        project_rows(gs.drop_last()) + project_row(gs.last(), gs.len())
    }
}

/// The markdown table of project groups.
pub open spec fn projects_text(gs: Seq<ProjectGroup>) -> Seq<char> {
    "# Projects\n\n"@ + "| # | Directory | Sessions | Messages | Last Active |\n|---|---|---|---|---|\n"@
        + project_rows(gs)
}

/// The markdown table of project groups (see [`projects_text`]).
#[verifier::rlimit(40)]
pub fn render_projects(groups: &Vec<ProjectGroup>) -> (r: String)
    ensures
        r@ == projects_text(groups@),
{
    let mut out = String::from_str("# Projects\n\n");
    out.append("| # | Directory | Sessions | Messages | Last Active |\n|---|---|---|---|---|\n");
    let ghost head = out@;
    let mut i: usize = 0;
    proof {
        assert(groups@.take(0) =~= Seq::<ProjectGroup>::empty());
        assert(out@ =~= head + project_rows(groups@.take(0)));
    }
    while i < groups.len()
        invariant
            i <= groups@.len(),
            out@ == head + project_rows(groups@.take(i as int)),
        decreases groups@.len() - i,
    {
        let g = &groups[i];
        let ghost before = out@;
        out.append("| ");
        push_dec_usize(&mut out, i + 1);
        out.append(" | `");
        out.append(g.directory.as_str());
        out.append("` | ");
        push_dec_i64(&mut out, g.session_count);
        out.append(" | ");
        push_dec_i64(&mut out, g.total_messages);
        out.append(" | ");
        let ts = ts_to_compact(g.last_active);
        out.append(ts.as_str());
        out.append(" |\n");
        proof {
            assert(out@ =~= before + project_row(*g, (i + 1) as nat));
            assert(groups@.take(i + 1).drop_last() =~= groups@.take(i as int));
            assert(out@ =~= head + project_rows(groups@.take(i + 1)));
        }
        i = i + 1;
    }
    proof {
        assert(groups@.take(groups@.len() as int) =~= groups@);
    }
    out
}

// ───────────────────────── search results ─────────────────────────

/// The session ids of the results, in order.
pub open spec fn result_session_ids(rs: Seq<SearchResult>) -> Seq<Seq<char>> {
    Seq::new(rs.len(), |i: int| rs[i].session_id@)
}

/// The results of session `sid`, in order.
pub open spec fn hits_of(rs: Seq<SearchResult>, sid: Seq<char>) -> Seq<SearchResult>
    decreases rs.len(),
{
    if rs.len() == 0 {
        Seq::empty()
    } else {
        let rest = hits_of(rs.drop_last(), sid);
        if rs.last().session_id@ == sid {
            rest.push(rs.last())
        } else {
            rest
        }
    }
}

/// The quote line of one hit, the query in bold wherever it occurs.
pub open spec fn hit_text(h: SearchResult, query: Seq<char>) -> Seq<char> {
    "> 🕐 "@ + time_ts(h.msg_time_created) + " · "@ + replace_seq(h.snippet@, query, "**"@ + query + "**"@)
        + "\n\n"@
}

/// The quote lines of the hits, in order.
pub open spec fn hits_text(hs: Seq<SearchResult>, query: Seq<char>) -> Seq<char>
    decreases hs.len(),
{
    if hs.len() == 0 {
        Seq::empty()
    } else {
        hits_text(hs.drop_last(), query) + hit_text(hs.last(), query)
    }
}

/// The section of session `sid`, whose hits are `hs` (at least one).
pub open spec fn group_text(sid: Seq<char>, hs: Seq<SearchResult>, query: Seq<char>) -> Seq<char> {
    let first = hs[0];
    "## [`"@ + first.session_title@ + "`](opencode://session/"@ + sid + ")  \n"@ + "📁 Session: `"@ + sid
        + "` · "@ + compact_ts(first.time_created) + " · "@ + dec_nat(hs.len()) + " match(es)  \n"@ + "\n"@
        + hits_text(hs, query) + "\n"@
}

/// The sections of the sessions `ids`, in that order.
pub open spec fn groups_text(rs: Seq<SearchResult>, ids: Seq<Seq<char>>, query: Seq<char>) -> Seq<char>
    decreases ids.len(),
{
    if ids.len() == 0 {
        Seq::empty()
    } else {
        groups_text(rs, ids.drop_last(), query) + group_text(ids.last(), hits_of(rs, ids.last()), query)
    }
}

/// The distinct session ids of the results in increasing order.
pub open spec fn sorted_session_ids(rs: Seq<SearchResult>) -> Seq<Seq<char>> {
    choose|ids: Seq<Seq<char>>| sorted_set_of(ids, result_session_ids(rs))
}

/// The markdown of search results for `query`: one section per session, in
/// increasing order of session id, each listing its hits in order.
pub open spec fn search_results_text(rs: Seq<SearchResult>, query: Seq<char>) -> Seq<char> {
    "# Search Results for \""@ + replace_seq(query, "\""@, "\\\""@) + "\"\n\n"@ + if rs.len() == 0 {
        "No results found.\n"@
    } else {
        groups_text(rs, sorted_session_ids(rs), query)
    }
}

/// Two sorted lists of distinct strings with the same strings are equal.
pub proof fn lemma_sorted_set_unique(a: Seq<Seq<char>>, b: Seq<Seq<char>>)
    requires
        strictly_sorted(a),
        strictly_sorted(b),
        same_elems(a, b),
    ensures
        a == b,
    decreases a.len(),
{
    if a.len() == 0 {
        if b.len() > 0 {
            assert(b.contains(b[0]));
        }
        assert(a =~= b);
    } else {
        assert(a.contains(a[0]));
        assert(b.len() > 0);
        assert(b.contains(b[0]));
        let j = choose|j: int| 0 <= j < b.len() && b[j] == a[0];
        let k = choose|k: int| 0 <= k < a.len() && a[k] == b[0];
        if j > 0 {
            assert(seq_lt(b[0], b[j]));
            if k > 0 {
                assert(seq_lt(a[0], a[k]));
                lemma_seq_lt_trans(b[0], a[0], b[0]);
            } else {
                assert(b[0] == a[0]);
            }
        }
        assert(a[0] == b[0]);
        let a1 = a.drop_first();
        let b1 = b.drop_first();
        assert forall|x: Seq<char>| a1.contains(x) <==> b1.contains(x) by {
            if a1.contains(x) {
                let i = choose|i: int| 0 <= i < a1.len() && a1[i] == x;
                assert(a.contains(x));
                assert(seq_lt(a[0], a[i + 1]));
                let m = choose|m: int| 0 <= m < b.len() && b[m] == x;
                if m == 0 {
                    assert(false);
                }
                assert(b1[m - 1] == x);
            }
            if b1.contains(x) {
                let i = choose|i: int| 0 <= i < b1.len() && b1[i] == x;
                assert(b.contains(x));
                assert(seq_lt(b[0], b[i + 1]));
                let m = choose|m: int| 0 <= m < a.len() && a[m] == x;
                if m == 0 {
                    assert(false);
                }
                assert(a1[m - 1] == x);
            }
        }
        assert forall|x: int, y: int| 0 <= x < y < a1.len() implies seq_lt(#[trigger] a1[x], #[trigger] a1[y]) by {
            assert(seq_lt(a[x + 1], a[y + 1]));
        }
        assert forall|x: int, y: int| 0 <= x < y < b1.len() implies seq_lt(#[trigger] b1[x], #[trigger] b1[y]) by {
            assert(seq_lt(b[x + 1], b[y + 1]));
        }
        lemma_sorted_set_unique(a1, b1);
        assert(a =~= seq![a[0]] + a1);
        assert(b =~= seq![b[0]] + b1);
    }
}

/// The hits of session `sid`.
fn collect_hits(rs: &Vec<SearchResult>, sid: &String) -> (r: Vec<usize>)
    ensures
        r@.len() == hits_of(rs@, sid@).len(),
        forall|k: int| 0 <= k < r@.len() ==> #[trigger] r@[k] < rs@.len() && rs@[r@[k] as int] == hits_of(rs@, sid@)[k],
{
    let mut r: Vec<usize> = Vec::new();
    let mut i: usize = 0;
    while i < rs.len()
        invariant
            i <= rs@.len(),
            r@.len() == hits_of(rs@.take(i as int), sid@).len(),
            forall|k: int| 0 <= k < r@.len() ==> #[trigger] r@[k] < i && rs@[r@[k] as int] == hits_of(rs@.take(i as int), sid@)[k],
        decreases rs@.len() - i,
    {
        proof {
            assert(rs@.take(i + 1).drop_last() =~= rs@.take(i as int));
        }
        if str_eq(rs[i].session_id.as_str(), sid.as_str()) {
            r.push(i);
        }
        i = i + 1;
    }
    proof {
        assert(rs@.take(rs@.len() as int) =~= rs@);
    }
    r
}

#[verifier::rlimit(40)]
fn push_group(out: &mut String, rs: &Vec<SearchResult>, sid: &String, query: &str)
    requires
        hits_of(rs@, sid@).len() > 0,
    ensures
        final(out)@ == old(out)@ + group_text(sid@, hits_of(rs@, sid@), query@),
{
    let ghost start = out@;
    let ghost hs = hits_of(rs@, sid@);
    let idx = collect_hits(rs, sid);
    let first = &rs[idx[0]];
    out.append("## [`");
    out.append(first.session_title.as_str());
    out.append("`](opencode://session/");
    out.append(sid.as_str());
    out.append(")  \n");
    out.append("📁 Session: `");
    out.append(sid.as_str());
    out.append("` · ");
    let ts = ts_to_compact(first.time_created);
    out.append(ts.as_str());
    out.append(" · ");
    push_dec_usize(out, idx.len());
    out.append(" match(es)  \n");
    out.append("\n");
    let ghost mid = out@;
    let mut bold = String::from_str("**");
    bold.append(query);
    bold.append("**");
    let mut k: usize = 0;
    proof {
        assert(hs.take(0) =~= Seq::<SearchResult>::empty());
        assert(out@ =~= mid + hits_text(hs.take(0), query@));
    }
    while k < idx.len()
        invariant
            k <= idx@.len(),
            idx@.len() == hs.len(),
            hs == hits_of(rs@, sid@),
            forall|j: int| 0 <= j < idx@.len() ==> #[trigger] idx@[j] < rs@.len() && rs@[idx@[j] as int] == hs[j],
            bold@ == "**"@ + query@ + "**"@,
            out@ == mid + hits_text(hs.take(k as int), query@),
        decreases idx@.len() - k,
    {
        let h = &rs[idx[k]];
        let ghost before = out@;
        out.append("> 🕐 ");
        let t = ts_to_time(h.msg_time_created);
        out.append(t.as_str());
        out.append(" · ");
        push_replaced(out, h.snippet.as_str(), query, bold.as_str());
        out.append("\n\n");
        proof {
            assert(out@ =~= before + hit_text(hs[k as int], query@));
            assert(hs.take(k + 1).drop_last() =~= hs.take(k as int));
            assert(out@ =~= mid + hits_text(hs.take(k + 1), query@));
        }
        k = k + 1;
    }
    out.append("\n");
    proof {
        assert(hs.take(hs.len() as int) =~= hs);
        assert(out@ =~= start + group_text(sid@, hs, query@));
    }
}

proof fn lemma_sid_has_hits(rs: Seq<SearchResult>, sid: Seq<char>)
    requires
        result_session_ids(rs).contains(sid),
    ensures
        hits_of(rs, sid).len() > 0,
    decreases rs.len(),
{
    let j = choose|j: int| 0 <= j < result_session_ids(rs).len() && result_session_ids(rs)[j] == sid;
    if rs.last().session_id@ != sid {
        assert(j < rs.len() - 1);
        assert(result_session_ids(rs.drop_last())[j] == sid);
        lemma_sid_has_hits(rs.drop_last(), sid);
    }
}

/// The markdown of search results for `query` (see
/// [`search_results_text`]).
pub fn render_search_results(results: &Vec<SearchResult>, query: &str) -> (r: String)
    ensures
        r@ == search_results_text(results@, query@),
{
    let mut out = String::from_str("# Search Results for \"");
    push_replaced(&mut out, query, "\"", "\\\"");
    out.append("\"\n\n");
    let ghost head = out@;
    if results.len() == 0 {
        out.append("No results found.\n");
        proof {
            assert(out@ =~= search_results_text(results@, query@));
        }
        return out;
    }
    let mut ids: Vec<String> = Vec::new();
    let mut i: usize = 0;
    while i < results.len()
        invariant
            i <= results@.len(),
            strs(ids@) == result_session_ids(results@).take(i as int),
        decreases results@.len() - i,
    {
        let c = results[i].session_id.clone();
        proof {
            crate::text::lemma_strs_push(ids@, c);
            assert(result_session_ids(results@).take(i + 1) =~= result_session_ids(results@).take(i as int).push(c@));
        }
        ids.push(c);
        i = i + 1;
    }
    proof {
        assert(result_session_ids(results@).take(results@.len() as int) =~= result_session_ids(results@));
    }
    let keys = sorted_unique(&ids);
    proof {
        let chosen = sorted_session_ids(results@);
        assert(sorted_set_of(strs(keys@), result_session_ids(results@)));
        assert(sorted_set_of(chosen, result_session_ids(results@)));
        assert forall|x: Seq<char>| strs(keys@).contains(x) <==> chosen.contains(x) by {}
        lemma_sorted_set_unique(strs(keys@), chosen);
    }
    let ghost ks = strs(keys@);
    let mut g: usize = 0;
    proof {
        assert(ks.take(0) =~= Seq::<Seq<char>>::empty());
        assert(out@ =~= head + groups_text(results@, ks.take(0), query@));
    }
    while g < keys.len()
        invariant
            g <= keys@.len(),
            ks == strs(keys@),
            sorted_set_of(ks, result_session_ids(results@)),
            out@ == head + groups_text(results@, ks.take(g as int), query@),
        decreases keys@.len() - g,
    {
        proof {
            assert(ks.contains(ks[g as int]));
            lemma_sid_has_hits(results@, ks[g as int]);
            assert(ks.take(g + 1).drop_last() =~= ks.take(g as int));
        }
        push_group(&mut out, results, &keys[g], query);
        g = g + 1;
    }
    proof {
        assert(ks.take(ks.len() as int) =~= ks);
        assert(out@ =~= search_results_text(results@, query@));
    }
    out
}

// ───────────────────────── session lists ─────────────────────────

/// `YYYY-MM-DD HH:MM:SS UTC` of a millisecond timestamp.
pub open spec fn iso_ts(ts: i64) -> Seq<char> {
    ts_text(ts as int, "%Y-%m-%d %H:%M:%S UTC"@, invalid_ts_text(ts as int))
}

/// ` (+A/-D)` when a session records added or deleted lines.
pub open spec fn diff_summary(s: Session) -> Seq<char> {
    match (s.summary_additions, s.summary_deletions) {
        (Some(a), Some(d)) => if a > 0 || d > 0 {
            " (+"@ + dec_int(a as int) + "/-"@ + dec_int(d as int) + ")"@
        } else {
            Seq::empty()
        },
        _ => Seq::empty(),
    }
}

/// The markdown entry of one session in a listing.
pub open spec fn session_entry_text(s: Session) -> Seq<char> {
    "## [`"@ + s.id@ + "`](opencode://session/"@ + s.id@ + ")  \n"@ + "**"@ + s.title@ + "** | `"@ + dec_int(
        s.msg_count as int,
    ) + "` messages | Model: `"@ + model_label(s) + "`  \n"@ + "📁 "@ + s.directory@ + "  \n"@ + "🕐 "@
        + iso_ts(s.time_created) + diff_summary(s) + "  \n\n"@
}

/// The entries of sessions, in order.
pub open spec fn session_entries_text(ss: Seq<Session>) -> Seq<char>
    decreases ss.len(),
{
    if ss.len() == 0 {
        Seq::empty()
    } else {
        session_entries_text(ss.drop_last()) + session_entry_text(ss.last())
    }
}

/// The markdown listing of sessions.
pub open spec fn session_list_text(ss: Seq<Session>) -> Seq<char> {
    "# OpenCode Sessions\n\n"@ + session_entries_text(ss)
}

fn push_diff_summary(out: &mut String, s: &Session)
    ensures
        final(out)@ == old(out)@ + diff_summary(*s),
{
    let ghost start = out@;
    match (s.summary_additions, s.summary_deletions) {
        (Some(a), Some(d)) => {
            if a > 0 || d > 0 {
                out.append(" (+");
                push_dec_i64(out, a);
                out.append("/-");
                push_dec_i64(out, d);
                out.append(")");
            }
        },
        _ => {},
    }
    assert(out@ =~= start + diff_summary(*s));
}

fn push_model(out: &mut String, s: &Session)
    ensures
        final(out)@ == old(out)@ + model_label(*s),
{
    match &s.model {
        Some(m) => out.append(m.as_str()),
        None => out.append("unknown"),
    }
}

#[verifier::rlimit(40)]
fn push_session_entry(out: &mut String, s: &Session)
    ensures
        final(out)@ == old(out)@ + session_entry_text(*s),
{
    let ghost start = out@;
    out.append("## [`");
    out.append(s.id.as_str());
    out.append("`](opencode://session/");
    out.append(s.id.as_str());
    out.append(")  \n");
    out.append("**");
    out.append(s.title.as_str());
    out.append("** | `");
    push_dec_i64(out, s.msg_count);
    out.append("` messages | Model: `");
    push_model(out, s);
    out.append("`  \n");
    out.append("📁 ");
    out.append(s.directory.as_str());
    out.append("  \n");
    out.append("🕐 ");
    let ts = ts_to_iso(s.time_created);
    out.append(ts.as_str());
    push_diff_summary(out, s);
    out.append("  \n\n");
    proof {
        assert(out@ =~= start + session_entry_text(*s));
    }
}

/// The markdown listing of sessions (see [`session_list_text`]).
pub fn render_session_list(sessions: &Vec<Session>) -> (r: String)
    ensures
        r@ == session_list_text(sessions@),
{
    let mut out = String::from_str("# OpenCode Sessions\n\n");
    let ghost head = out@;
    let mut i: usize = 0;
    proof {
        assert(sessions@.take(0) =~= Seq::<Session>::empty());
        assert(out@ =~= head + session_entries_text(sessions@.take(0)));
    }
    while i < sessions.len()
        invariant
            i <= sessions@.len(),
            out@ == head + session_entries_text(sessions@.take(i as int)),
        decreases sessions@.len() - i,
    {
        push_session_entry(&mut out, &sessions[i]);
        proof {
            assert(sessions@.take(i + 1).drop_last() =~= sessions@.take(i as int));
            assert(out@ =~= head + session_entries_text(sessions@.take(i + 1)));
        }
        i = i + 1;
    }
    proof {
        assert(sessions@.take(sessions@.len() as int) =~= sessions@);
    }
    out
}

/// `$C` with two decimals when the cost is positive, else empty.
pub open spec fn short_cost(c: i64) -> Seq<char> {
    if c > 0 {
        "$"@ + cost_text(c as int, 2)
    } else {
        Seq::empty()
    }
}

/// One session as a tab-separated line: id, creation time, messages, model,
/// cost, project (the last part of the directory) and title.
pub open spec fn compact_line(s: Session) -> Seq<char> {
    s.id@ + "\t"@ + compact_ts(s.time_created) + "\t"@ + dec_int(s.msg_count as int) + "\t"@ + model_label(s)
        + "\t"@ + short_cost(s.total_cost) + "\t"@ + last_segment(s.directory@) + "\t"@ + s.title@
}

#[verifier::rlimit(40)]
fn compact_session_line(s: &Session) -> (r: String)
    ensures
        r@ == compact_line(*s),
{
    let mut out = String::new();
    out.append(s.id.as_str());
    out.append("\t");
    let ts = ts_to_compact(s.time_created);
    out.append(ts.as_str());
    out.append("\t");
    push_dec_i64(&mut out, s.msg_count);
    out.append("\t");
    push_model(&mut out, s);
    out.append("\t");
    if s.total_cost > 0 {
        out.append("$");
        push_cost(&mut out, s.total_cost, 2);
    }
    out.append("\t");
    push_last_segment(&mut out, s.directory.as_str());
    out.append("\t");
    out.append(s.title.as_str());
    proof {
        assert(out@ =~= compact_line(*s));
    }
    out
}

/// Each session as a tab-separated line (see [`compact_line`]).
pub fn render_session_list_compact(sessions: &Vec<Session>) -> (r: Vec<String>)
    ensures
        r@.len() == sessions@.len(),
        forall|i: int| 0 <= i < r@.len() ==> #[trigger] r@[i]@ == compact_line(sessions@[i]),
{
    let mut r: Vec<String> = Vec::new();
    let mut i: usize = 0;
    while i < sessions.len()
        invariant
            i <= sessions@.len(),
            r@.len() == i,
            forall|k: int| 0 <= k < i ==> #[trigger] r@[k]@ == compact_line(sessions@[k]),
        decreases sessions@.len() - i,
    {
        r.push(compact_session_line(&sessions[i]));
        i = i + 1;
    }
    r
}

/// The rule that frames a session preview.
pub open spec fn preview_rule() -> Seq<char> {
    "────────────────────────────────────────"@
}

/// The card shown for a session during interactive selection.
pub open spec fn preview_text(s: Session) -> Seq<char> {
    let diff = match (s.summary_additions, s.summary_deletions) {
        (Some(a), Some(d)) => if a > 0 || d > 0 {
            "(+"@ + dec_int(a as int) + "/"@ + dec_int(d as int) + ")"@
        } else {
            Seq::empty()
        },
        _ => Seq::empty(),
    };
    preview_rule() + "\nTitle:    "@ + s.title@ + "\nSession:  "@ + s.id@ + "\nModel:    "@ + model_label(s)
        + "\nProject:  "@ + last_segment(s.directory@) + "\nMessages: "@ + dec_int(s.msg_count as int)
        + "\nCost:     "@ + "$"@ + cost_text(s.total_cost as int, 4) + "\nCreated:  "@ + compact_ts(
        s.time_created,
    ) + " "@ + diff + "\n"@ + preview_rule()
}

/// The card shown for a session during interactive selection (see
/// [`preview_text`]).
#[verifier::rlimit(40)]
pub fn render_session_preview(s: &Session) -> (r: String)
    ensures
        r@ == preview_text(*s),
{
    let mut out = String::from_str("────────────────────────────────────────");
    out.append("\nTitle:    ");
    out.append(s.title.as_str());
    out.append("\nSession:  ");
    out.append(s.id.as_str());
    out.append("\nModel:    ");
    push_model(&mut out, s);
    out.append("\nProject:  ");
    push_last_segment(&mut out, s.directory.as_str());
    out.append("\nMessages: ");
    push_dec_i64(&mut out, s.msg_count);
    out.append("\nCost:     ");
    out.append("$");
    push_cost(&mut out, s.total_cost, 4);
    out.append("\nCreated:  ");
    let ts = ts_to_compact(s.time_created);
    out.append(ts.as_str());
    out.append(" ");
    let ghost before_diff = out@;
    match (s.summary_additions, s.summary_deletions) {
        (Some(a), Some(d)) => {
            if a > 0 || d > 0 {
                out.append("(+");
                push_dec_i64(&mut out, a);
                out.append("/");
                push_dec_i64(&mut out, d);
                out.append(")");
            }
        },
        _ => {},
    }
    out.append("\n");
    out.append("────────────────────────────────────────");
    proof {
        assert(out@ =~= preview_text(*s));
    }
    out
}

/// An id cut to its first `n` characters with `…` when it is longer.
pub open spec fn short_id(id: Seq<char>, n: nat) -> Seq<char> {
    if id.len() > n {
        id.take(n as int) + "…"@
    } else {
        id
    }
}

fn push_short_id(out: &mut String, id: &str, n: usize)
    ensures
        final(out)@ == old(out)@ + short_id(id@, n as nat),
{
    let cs = chars_of(id);
    if cs.len() > n {
        push_chars_range(out, &cs, 0, n);
        out.append("…");
        assert(cs@.subrange(0, n as int) =~= id@.take(n as int));
    } else {
        out.append(id);
    }
}

/// The table row of a session to be pruned.
pub open spec fn prune_row(s: Session) -> Seq<char> {
    "| `"@ + short_id(s.id@, 16) + "` | "@ + s.title@ + " | "@ + dec_int(s.msg_count as int) + " | "@
        + compact_ts(s.time_created) + " |\n"@
}

/// The table rows of sessions to be pruned, in order.
pub open spec fn prune_rows(ss: Seq<Session>) -> Seq<char>
    decreases ss.len(),
{
    if ss.len() == 0 {
        Seq::empty()
    } else {
        prune_rows(ss.drop_last()) + prune_row(ss.last())
    }
}

/// The plan shown before sessions older than `days` days are deleted.
pub open spec fn prune_plan_text(ss: Seq<Session>, days: i64) -> Seq<char> {
    "# Prune Plan: sessions older than "@ + dec_int(days as int) + " days\n\n"@ + "**"@ + dec_nat(ss.len())
        + " session(s) will be deleted.**\n\n"@ + if ss.len() == 0 {
        Seq::empty()
    } else {
        "| Session | Title | Messages | Created |\n|---|---|---|---|\n"@ + prune_rows(ss)
    }
}

#[verifier::rlimit(40)]
fn push_prune_row(out: &mut String, s: &Session)
    ensures
        final(out)@ == old(out)@ + prune_row(*s),
{
    let ghost before = out@;
    out.append("| `");
    push_short_id(out, s.id.as_str(), 16);
    out.append("` | ");
    out.append(s.title.as_str());
    out.append(" | ");
    push_dec_i64(out, s.msg_count);
    out.append(" | ");
    let ts = ts_to_compact(s.time_created);
    out.append(ts.as_str());
    out.append(" |\n");
    proof {
        assert(out@ =~= before + prune_row(*s));
    }
}

/// The plan shown before sessions are pruned (see [`prune_plan_text`]).
pub fn render_prune_plan(sessions: &Vec<Session>, days: i64) -> (r: String)
    ensures
        r@ == prune_plan_text(sessions@, days),
{
    let mut out = String::from_str("# Prune Plan: sessions older than ");
    push_dec_i64(&mut out, days);
    out.append(" days\n\n");
    out.append("**");
    push_dec_usize(&mut out, sessions.len());
    out.append(" session(s) will be deleted.**\n\n");
    if sessions.len() == 0 {
        proof {
            assert(out@ =~= prune_plan_text(sessions@, days));
        }
        return out;
    }
    out.append("| Session | Title | Messages | Created |\n|---|---|---|---|\n");
    let ghost head = out@;
    let mut i: usize = 0;
    proof {
        assert(sessions@.take(0) =~= Seq::<Session>::empty());
        assert(out@ =~= head + prune_rows(sessions@.take(0)));
    }
    while i < sessions.len()
        invariant
            i <= sessions@.len(),
            out@ == head + prune_rows(sessions@.take(i as int)),
        decreases sessions@.len() - i,
    {
        push_prune_row(&mut out, &sessions[i]);
        proof {
            assert(sessions@.take(i + 1).drop_last() =~= sessions@.take(i as int));
            assert(out@ =~= head + prune_rows(sessions@.take(i + 1)));
        }
        i = i + 1;
    }
    proof {
        assert(sessions@.take(sessions@.len() as int) =~= sessions@);
        assert(out@ =~= prune_plan_text(sessions@, days));
    }
    out
}

/// The heading of a ranking by `sort_by`.
pub open spec fn top_title(sort_by: Seq<char>) -> Seq<char> {
    if sort_by == "cost"@ {
        "Top Sessions by Cost"@
    } else if sort_by == "tokens"@ {
        "Top Sessions by Token Usage"@
    } else if sort_by == "msgs"@ {
        "Top Sessions by Message Count"@
    } else {
        "Top Sessions"@
    }
}

/// The first cells of the row of the `n`-th ranked session: rank, id,
/// title and messages.
pub open spec fn top_row_head(e: TopSessionEntry, n: nat) -> Seq<char> {
    "| "@ + dec_nat(n) + " | `"@ + short_id(e.id@, 20) + "` "@ + e.title@ + " | "@ + dec_int(e.msg_count as int)
}

/// The last cells of the row of a ranked session: tokens, cost and time.
pub open spec fn top_row_tail(e: TopSessionEntry) -> Seq<char> {
    " | "@ + dec_int(e.total_input as int) + "/"@ + dec_int(e.total_output as int) + " | $"@ + cost_text(
        e.total_cost as int,
        6,
    ) + " | "@ + compact_ts(e.time_created) + " |\n"@
}

/// The table row of the `n`-th ranked session (counting from 1).
pub open spec fn top_row(e: TopSessionEntry, n: nat) -> Seq<char> {
    top_row_head(e, n) + top_row_tail(e)
}

/// The table rows of ranked sessions, numbered from 1.
pub open spec fn top_rows(es: Seq<TopSessionEntry>) -> Seq<char>
    decreases es.len(),
{
    if es.len() == 0 {
        Seq::empty()
    } else {
        top_rows(es.drop_last()) + top_row(es.last(), es.len())
    }
}

/// The markdown table of the top sessions by `sort_by`.
pub open spec fn top_sessions_text(es: Seq<TopSessionEntry>, sort_by: Seq<char>) -> Seq<char> {
    "# "@ + top_title(sort_by) + "\n\n"@
        + "| # | Session | Messages | Tokens (in/out) | Cost | Last Active |\n|---|---|---|---|---|---|\n"@
        + top_rows(es)
}

fn push_top_row_head(out: &mut String, e: &TopSessionEntry, n: usize)
    ensures
        final(out)@ == old(out)@ + top_row_head(*e, n as nat),
{
    let ghost start = out@;
    out.append("| ");
    push_dec_usize(out, n);
    out.append(" | `");
    push_short_id(out, e.id.as_str(), 20);
    out.append("` ");
    out.append(e.title.as_str());
    out.append(" | ");
    push_dec_i64(out, e.msg_count);
    proof {
        assert(out@ =~= start + top_row_head(*e, n as nat));
    }
}

#[verifier::rlimit(40)]
fn push_top_row_tail(out: &mut String, e: &TopSessionEntry)
    ensures
        final(out)@ == old(out)@ + top_row_tail(*e),
{
    let ghost start = out@;
    out.append(" | ");
    push_dec_i64(out, e.total_input);
    out.append("/");
    push_dec_i64(out, e.total_output);
    out.append(" | $");
    push_cost(out, e.total_cost, 6);
    out.append(" | ");
    let ts = ts_to_compact(e.time_created);
    out.append(ts.as_str());
    out.append(" |\n");
    proof {
        assert(out@ =~= start + top_row_tail(*e));
    }
}

fn push_top_row(out: &mut String, e: &TopSessionEntry, n: usize)
    ensures
        final(out)@ == old(out)@ + top_row(*e, n as nat),
{
    let ghost start = out@;
    push_top_row_head(out, e, n);
    push_top_row_tail(out, e);
    assert(out@ =~= start + top_row(*e, n as nat));
}

/// The markdown table of the top sessions (see [`top_sessions_text`]).
pub fn render_top_sessions(entries: &Vec<TopSessionEntry>, sort_by: &str) -> (r: String)
    ensures
        r@ == top_sessions_text(entries@, sort_by@),
{
    let mut out = String::from_str("# ");
    if str_eq(sort_by, "cost") {
        out.append("Top Sessions by Cost");
    } else if str_eq(sort_by, "tokens") {
        out.append("Top Sessions by Token Usage");
    } else if str_eq(sort_by, "msgs") {
        out.append("Top Sessions by Message Count");
    } else {
        out.append("Top Sessions");
    }
    out.append("\n\n");
    out.append("| # | Session | Messages | Tokens (in/out) | Cost | Last Active |\n|---|---|---|---|---|---|\n");
    let ghost head = out@;
    let mut i: usize = 0;
    proof {
        assert(entries@.take(0) =~= Seq::<TopSessionEntry>::empty());
        assert(out@ =~= head + top_rows(entries@.take(0)));
    }
    while i < entries.len()
        invariant
            i <= entries@.len(),
            out@ == head + top_rows(entries@.take(i as int)),
        decreases entries@.len() - i,
    {
        push_top_row(&mut out, &entries[i], i + 1);
        proof {
            assert(entries@.take(i + 1).drop_last() =~= entries@.take(i as int));
            assert(out@ =~= head + top_rows(entries@.take(i + 1)));
        }
        i = i + 1;
    }
    proof {
        assert(entries@.take(entries@.len() as int) =~= entries@);
        assert(out@ =~= top_sessions_text(entries@, sort_by@));
    }
    out
}

/// The text of a table or listing and one more piece at its end.
proof fn lemma_appended(a: Seq<char>, b: Seq<char>, c: Seq<char>)
    ensures
        a + (b + c) == (a + b) + c,
{
    assert(a + (b + c) =~= (a + b) + c);
}

/// A ranking lists its sessions in the order given, one row each, numbered
/// from 1: one more session adds one row at the end with the next number,
/// the session's id (cut to 20 characters), title and message count, then
/// its input and output tokens, cost and last activity.
pub proof fn law_top_rows_follow_the_ranking(es: Seq<TopSessionEntry>, e: TopSessionEntry, sort_by: Seq<char>)
    ensures
        top_sessions_text(es.push(e), sort_by) == top_sessions_text(es, sort_by) + (("| "@ + dec_nat(es.len() + 1)
            + " | `"@ + short_id(e.id@, 20) + "` "@ + e.title@ + " | "@ + dec_int(e.msg_count as int)) + (" | "@
            + dec_int(e.total_input as int) + "/"@ + dec_int(e.total_output as int) + " | $"@ + cost_text(
            e.total_cost as int,
            6,
        ) + " | "@ + compact_ts(e.time_created) + " |\n"@)),
{
    assert(es.push(e).drop_last() =~= es);
    let head = "# "@ + top_title(sort_by) + "\n\n"@
        + "| # | Session | Messages | Tokens (in/out) | Cost | Last Active |\n|---|---|---|---|---|---|\n"@;
    lemma_appended(head, top_rows(es), top_row(e, es.len() + 1));
}

/// The project table lists its groups in the order given, one row each,
/// numbered from 1: one more group adds one row at the end with the next
/// number, the directory, its session and message counts and its last
/// activity.
pub proof fn law_project_rows_follow_the_groups(gs: Seq<ProjectGroup>, g: ProjectGroup)
    ensures
        projects_text(gs.push(g)) == projects_text(gs) + "| "@ + dec_nat(gs.len() + 1) + " | `"@ + g.directory@
            + "` | "@ + dec_int(g.session_count as int) + " | "@ + dec_int(g.total_messages as int) + " | "@
            + compact_ts(g.last_active) + " |\n"@,
{
    assert(gs.push(g).drop_last() =~= gs);
    assert(projects_text(gs.push(g)) =~= projects_text(gs) + "| "@ + dec_nat(gs.len() + 1) + " | `"@ + g.directory@
        + "` | "@ + dec_int(g.session_count as int) + " | "@ + dec_int(g.total_messages as int) + " | "@ + compact_ts(
        g.last_active,
    ) + " |\n"@);
}

/// A session listing shows its sessions in the order given: one more
/// session adds its entry at the end, with its own id, title, message
/// count, model, directory, creation time and changed lines.
pub proof fn law_session_list_follows_the_sessions(ss: Seq<Session>, s: Session)
    ensures
        session_list_text(ss.push(s)) == session_list_text(ss) + ("## [`"@ + s.id@ + "`](opencode://session/"@
            + s.id@ + ")  \n"@ + "**"@ + s.title@ + "** | `"@ + dec_int(s.msg_count as int) + "` messages | Model: `"@
            + model_label(s) + "`  \n"@ + "📁 "@ + s.directory@ + "  \n"@ + "🕐 "@ + iso_ts(s.time_created) + (match (
            s.summary_additions,
            s.summary_deletions,
        ) {
            (Some(a), Some(d)) => if a > 0 || d > 0 {
                " (+"@ + dec_int(a as int) + "/-"@ + dec_int(d as int) + ")"@
            } else {
                Seq::empty()
            },
            _ => Seq::empty(),
        }) + "  \n\n"@),
{
    assert(ss.push(s).drop_last() =~= ss);
    lemma_appended("# OpenCode Sessions\n\n"@, session_entries_text(ss), session_entry_text(s));
}

/// A prune plan names how many sessions go and lists each, in the order
/// given: one more session adds its row at the end with its id (cut to 16
/// characters), title, message count and creation time.
pub proof fn law_prune_plan_lists_every_session(ss: Seq<Session>, s: Session, days: i64)
    requires
        ss.len() > 0,
    ensures
        prune_plan_text(ss.push(s), days) == "# Prune Plan: sessions older than "@ + dec_int(days as int)
            + " days\n\n"@ + "**"@ + dec_nat(ss.len() + 1) + " session(s) will be deleted.**\n\n"@
            + "| Session | Title | Messages | Created |\n|---|---|---|---|\n"@ + prune_rows(ss) + "| `"@ + short_id(
            s.id@,
            16,
        ) + "` | "@ + s.title@ + " | "@ + dec_int(s.msg_count as int) + " | "@ + compact_ts(s.time_created)
            + " |\n"@,
{
    assert(ss.push(s).drop_last() =~= ss);
    assert(prune_plan_text(ss.push(s), days) =~= "# Prune Plan: sessions older than "@ + dec_int(days as int)
        + " days\n\n"@ + "**"@ + dec_nat(ss.len() + 1) + " session(s) will be deleted.**\n\n"@
        + "| Session | Title | Messages | Created |\n|---|---|---|---|\n"@ + prune_rows(ss) + prune_row(s));
}

/// Each section of the search results holds exactly its own session's
/// hits, in the order found: every hit listed for a session is one of that
/// session's, and one more result joins its own session's hits at the end
/// and leaves the other sessions' hits as they were.
pub proof fn law_search_sections_hold_their_own_hits(rs: Seq<SearchResult>, r: SearchResult, sid: Seq<char>)
    ensures
        forall|i: int| 0 <= i < hits_of(rs, sid).len() ==> (#[trigger] hits_of(rs, sid)[i]).session_id@ == sid,
        hits_of(rs.push(r), sid) == if r.session_id@ == sid {
            hits_of(rs, sid).push(r)
        } else {
            hits_of(rs, sid)
        },
    decreases rs.len(),
{
    assert(rs.push(r).drop_last() =~= rs);
    if rs.len() > 0 {
        law_search_sections_hold_their_own_hits(rs.drop_last(), rs.last(), sid);
        let h = hits_of(rs.drop_last(), sid);
        assert forall|i: int| 0 <= i < hits_of(rs, sid).len() implies (#[trigger] hits_of(rs, sid)[i]).session_id@
            == sid by {
            if i < h.len() {
                assert(hits_of(rs, sid)[i] == h[i]);
            }
        }
    }
}

/// A diff lists every changed file in order, each with its name, status
/// (`unknown` when missing), added and deleted lines (0 when missing) and
/// patch when there is one; a session without changes says so.
pub proof fn law_diff_lists_every_changed_file(es: Seq<DiffEntry>, e: DiffEntry, sid: Seq<char>)
    ensures
        diff_text(Seq::empty(), sid) == "# Diff: `"@ + sid + "`\n\n"@ + "No file changes recorded for this session.\n"@,
        diff_entries_text(es.push(e)) == diff_entries_text(es) + ("## `"@ + e.file@ + "`  \n"@ + "**Status**: "@
            + (match e.status {
            Some(st) => st@,
            None => "unknown"@,
        }) + " · **+"@ + dec_int(
            match e.additions {
                Some(a) => a as int,
                None => 0,
            },
        ) + "/-"@ + dec_int(
            match e.deletions {
                Some(d) => d as int,
                None => 0,
            },
        ) + "**  \n\n"@ + match e.patch {
            Some(p) => "```diff\n"@ + p@ + "\n```\n\n"@,
            None => Seq::empty(),
        }),
        es.len() > 0 ==> diff_text(es, sid) == "# Diff: `"@ + sid + "`\n\n"@ + diff_entries_text(es),
{
    assert(es.push(e).drop_last() =~= es);
}

} // verus!
