//! Markdown renderers of usage over a period and of two sessions side by
//! side.

use vstd::prelude::*;

use crate::models::{DailyTrend, ModelBreakdown, MessageWithParts, ReportSummary, Session, TopSessionEntry};
use crate::render_list::{lemma_sorted_set_unique, short_id};
use crate::render_msg::short_iso_ts;
use crate::sorted::{same_elems, sorted_set_of, sorted_unique};
use crate::stats::{
    aggregate_usage, count_keys, datas, is_usage_of, named_agents, occurrences, sum_of, totals_fit, Qty,
    UsageAgg,
};
use crate::text::{
    chars_of, cost_text, dec_int, dec_nat, fixed_ratio, push_chars_range, push_cost, push_dec_i64,
    push_dec_usize, push_fixed_ratio, push_repeat, push_replaced, repeat_seq, replace_seq, str_eq, strs,
};
use crate::timefmt::ts_to_iso_short;

verus! {

fn push_short_id(out: &mut String, id: &str, n: usize)
    ensures
        final(out)@ == old(out)@ + short_id(id@, n as nat),
{
    let cs = chars_of(id);
    if cs.len() > n {
        push_chars_range(out, &cs, 0, n);
        out.append("…");
        assert(cs@.subrange(0, n as int) =~= id@.take(n as int));
    } else {
        out.append(id);
    }
}

// ───────────────────────── usage report ─────────────────────────

/// The overview table of a report.
pub open spec fn report_overview_text(s: ReportSummary) -> Seq<char> {
    "# OpenCode 使用报告\n\n"@ + "**期间:** "@ + s.period_start@ + " ~ "@ + s.period_end@ + "\n\n"@ + "## 总览\n\n"@
        + "| 指标 | 数值 |\n"@ + "|------|------|\n"@ + "| 会话数 | "@ + dec_int(s.total_sessions as int) + " |\n"@
        + "| 总消息 | "@ + dec_int(s.total_messages as int) + " |\n"@ + "| 总 Tokens | "@ + dec_int(
        s.total_tokens as int,
    ) + " |\n"@ + "| 总费用 | $"@ + cost_text(s.total_cost as int, 4) + " |\n"@
}

/// The row of the `n`-th most expensive session; `|` in titles is escaped.
pub open spec fn report_top_row(e: TopSessionEntry, n: nat) -> Seq<char> {
    "| "@ + dec_nat(n) + " | "@ + short_id(e.id@, 12) + " | "@ + replace_seq(e.title@, "|"@, "\\|"@) + " | "@
        + dec_int(e.msg_count as int) + " | "@ + dec_int(e.total_tokens as int) + " | $"@ + cost_text(
        e.total_cost as int,
        4,
    ) + " |\n"@
}

/// The rows of the most expensive sessions, numbered from 1.
pub open spec fn report_top_rows(es: Seq<TopSessionEntry>) -> Seq<char>
    decreases es.len(),
{
    if es.len() == 0 {
        Seq::empty()
    } else {
        report_top_rows(es.drop_last()) + report_top_row(es.last(), es.len())
    }
}

/// The ranking part of a report, when there are sessions.
pub open spec fn report_top_text(es: Seq<TopSessionEntry>) -> Seq<char> {
    if es.len() > 0 {
        "\n## 会话排行 (Top 10 by Cost)\n\n"@ + "| # | 会话 | 标题 | 消息 | Tokens | 费用 |\n"@
            + "|---|------|------|------|--------|------|\n"@ + report_top_rows(es)
    } else {
        Seq::empty()
    }
}

/// The row of one day.
pub open spec fn trend_row(t: DailyTrend) -> Seq<char> {
    "| "@ + t.date@ + " | "@ + dec_int(t.sessions as int) + " | "@ + dec_int(t.messages as int) + " | "@ + dec_int(
        t.tokens as int,
    ) + " | $"@ + cost_text(t.cost as int, 4) + " |\n"@
}

/// The rows of the days, in order.
pub open spec fn trend_rows(ts: Seq<DailyTrend>) -> Seq<char>
    decreases ts.len(),
{
    if ts.len() == 0 {
        Seq::empty()
    } else {
        trend_rows(ts.drop_last()) + trend_row(ts.last())
    }
}

/// The highest daily cost, and at least 0.
pub open spec fn max_cost(ts: Seq<DailyTrend>) -> int
    decreases ts.len(),
{
    if ts.len() == 0 {
        0
    } else {
        let m = max_cost(ts.drop_last());
        if ts.last().cost > m {
            ts.last().cost as int
        } else {
            m
        }
    }
}

/// The length of the bar of cost `c` when the highest is `m`: 40 for the
/// highest, proportionally less, rounded down, and none for a cost that is
/// not positive.
pub open spec fn bar_len(c: int, m: int) -> int {
    if c <= 0 {
        0
    } else {
        (c * 40) / m
    }
}

/// The bar line of one day.
pub open spec fn bar_line(t: DailyTrend, m: int) -> Seq<char> {
    t.date@ + ": "@ + repeat_seq("█"@, bar_len(t.cost as int, m) as nat) + " $"@ + cost_text(t.cost as int, 4)
        + "\n"@
}

/// The bar lines of the days, in order.
pub open spec fn bar_lines(ts: Seq<DailyTrend>, m: int) -> Seq<char>
    decreases ts.len(),
{
    if ts.len() == 0 {
        Seq::empty()
    } else {
        bar_lines(ts.drop_last(), m) + bar_line(ts.last(), m)
    }
}

/// The daily part of a report, when there are days: a table, then a bar
/// per day scaled to the highest cost when some cost is positive.
pub open spec fn report_trends_text(ts: Seq<DailyTrend>) -> Seq<char> {
    if ts.len() > 0 {
        "\n## 每日趋势\n\n"@ + "| 日期 | 会话 | 消息 | Tokens | 费用 |\n"@ + "|------|------|------|--------|------|\n"@
            + trend_rows(ts) + "\n"@ + if max_cost(ts) > 0 {
            bar_lines(ts, max_cost(ts))
        } else {
            Seq::empty()
        }
    } else {
        Seq::empty()
    }
}

/// The daily bars are scaled to the most expensive day: it is the highest
/// daily cost (and at least 0), some day has it when it is positive, its
/// bar is 40 blocks long, a cheaper day never gets a longer bar than a
/// dearer one, every bar is at most 40 blocks, and a day without a positive
/// cost gets none.
pub proof fn law_bars_scale_to_the_dearest_day(ts: Seq<DailyTrend>, c1: int, c2: int)
    ensures
        max_cost(ts) >= 0,
        forall|i: int| 0 <= i < ts.len() ==> #[trigger] ts[i].cost <= max_cost(ts),
        max_cost(ts) > 0 ==> exists|i: int| 0 <= i < ts.len() && #[trigger] ts[i].cost == max_cost(ts),
        max_cost(ts) > 0 ==> bar_len(max_cost(ts), max_cost(ts)) == 40,
        max_cost(ts) > 0 && c1 <= c2 <= max_cost(ts) ==> 0 <= bar_len(c1, max_cost(ts)) <= bar_len(
            c2,
            max_cost(ts),
        ) <= 40,
        c1 <= 0 ==> bar_len(c1, max_cost(ts)) == 0,
    decreases ts.len(),
{
    let m = max_cost(ts);
    if ts.len() > 0 {
        law_bars_scale_to_the_dearest_day(ts.drop_last(), c1, c2);
        let p = ts.drop_last();
        assert forall|i: int| 0 <= i < ts.len() implies #[trigger] ts[i].cost <= m by {
            if i < ts.len() - 1 {
                assert(ts[i] == p[i]);
            }
        }
        if m > 0 {
            if ts.last().cost > max_cost(p) {
                assert(ts[ts.len() - 1].cost == m);
            } else {
                let i = choose|i: int| 0 <= i < p.len() && #[trigger] p[i].cost == max_cost(p);
                assert(ts[i] == p[i]);
            }
        }
    }
    if m > 0 {
        assert((m * 40) / m == 40) by (nonlinear_arith)
            requires
                m > 0,
        ;
        if c1 <= c2 && c2 <= m {
            if c1 > 0 {
                assert((c1 * 40) / m <= (c2 * 40) / m && (c2 * 40) / m <= 40 && 0 <= (c1 * 40) / m)
                    by (nonlinear_arith)
                    requires
                        0 < c1 <= c2 <= m,
                ;
            } else if c2 > 0 {
                assert(0 <= (c2 * 40) / m <= 40) by (nonlinear_arith)
                    requires
                        0 < c2 <= m,
                ;
            }
        }
    }
}

/// The sum of the models' costs.
pub open spec fn models_cost(ms: Seq<ModelBreakdown>) -> int
    decreases ms.len(),
{
    if ms.len() == 0 {
        0
    } else {
        models_cost(ms.drop_last()) + ms.last().total_cost
    }
}

/// The share of a model's cost in the total, with one decimal, or `-` when
/// the total is not positive.
pub open spec fn share_text(c: int, total: int) -> Seq<char> {
    if total > 0 {
        fixed_ratio(c * 100, total as nat, 1) + "%"@
    } else {
        "-"@
    }
}

/// The row of one model.
pub open spec fn model_row(m: ModelBreakdown, total: int) -> Seq<char> {
    "| "@ + m.model@ + " | "@ + dec_int(m.message_count as int) + " | "@ + dec_int(m.total_tokens as int) + " | $"@
        + cost_text(m.total_cost as int, 4) + " | "@ + share_text(m.total_cost as int, total) + " |\n"@
}

/// The rows of the models, in order.
pub open spec fn model_rows(ms: Seq<ModelBreakdown>, total: int) -> Seq<char>
    decreases ms.len(),
{
    if ms.len() == 0 {
        Seq::empty()
    } else {
        model_rows(ms.drop_last(), total) + model_row(ms.last(), total)
    }
}

/// The model part of a report, when there are models.
pub open spec fn report_models_text(ms: Seq<ModelBreakdown>) -> Seq<char> {
    if ms.len() > 0 {
        "\n## 模型使用分布\n\n"@ + "| 模型 | 消息数 | Tokens | 费用 | 占比 |\n"@ + "|------|--------|--------|------|------|\n"@
            + model_rows(ms, models_cost(ms))
    } else {
        Seq::empty()
    }
}

/// The markdown usage report.
pub open spec fn report_text(
    s: ReportSummary,
    ts: Seq<DailyTrend>,
    ms: Seq<ModelBreakdown>,
    top: Seq<TopSessionEntry>,
) -> Seq<char> {
    report_overview_text(s) + report_top_text(top) + report_trends_text(ts) + report_models_text(ms)
}

/// The running sums of the models' costs fit in an `i64`.
pub open spec fn models_cost_fits(ms: Seq<ModelBreakdown>) -> bool {
    forall|k: int| 0 <= k <= ms.len() ==> i64::MIN <= #[trigger] models_cost(ms.take(k)) <= i64::MAX
}

/// Whether every running sum of the models' costs fits in an `i64` (see
/// [`models_cost_fits`]).
pub fn models_cost_in_range(ms: &Vec<ModelBreakdown>) -> (r: bool)
    ensures
        r == models_cost_fits(ms@),
{
    let mut total: i128 = 0;
    let mut k: usize = 0;
    proof {
        assert(ms@.take(0) =~= Seq::<ModelBreakdown>::empty());
    }
    while k < ms.len()
        invariant
            k <= ms@.len(),
            total == models_cost(ms@.take(k as int)),
            forall|j: int| 0 <= j <= k ==> i64::MIN <= #[trigger] models_cost(ms@.take(j)) <= i64::MAX,
        decreases ms@.len() - k,
    {
        proof {
            assert(ms@.take(k + 1).drop_last() =~= ms@.take(k as int));
        }
        assert(i64::MIN <= models_cost(ms@.take(k as int)) <= i64::MAX);
        total = total + ms[k].total_cost as i128;
        assert(total == models_cost(ms@.take(k + 1)));
        if total < -0x8000_0000_0000_0000i128 || total > 0x7fff_ffff_ffff_ffffi128 {
            assert(!(i64::MIN <= models_cost(ms@.take(k + 1)) <= i64::MAX));
            return false;
        }
        k = k + 1;
    }
    assert(ms@.take(k as int) =~= ms@);
    true
}

#[verifier::rlimit(40)]
fn push_overview(out: &mut String, s: &ReportSummary)
    ensures
        final(out)@ == old(out)@ + report_overview_text(*s),
{
    let ghost start = out@;
    out.append("# OpenCode 使用报告\n\n");
    out.append("**期间:** ");
    out.append(s.period_start.as_str());
    out.append(" ~ ");
    out.append(s.period_end.as_str());
    out.append("\n\n");
    out.append("## 总览\n\n");
    out.append("| 指标 | 数值 |\n");
    out.append("|------|------|\n");
    out.append("| 会话数 | ");
    push_dec_i64(out, s.total_sessions);
    out.append(" |\n");
    out.append("| 总消息 | ");
    push_dec_i64(out, s.total_messages);
    out.append(" |\n");
    out.append("| 总 Tokens | ");
    push_dec_i64(out, s.total_tokens);
    out.append(" |\n");
    out.append("| 总费用 | $");
    push_cost(out, s.total_cost, 4);
    out.append(" |\n");
    proof {
        assert(out@ =~= start + report_overview_text(*s));
    }
}

#[verifier::rlimit(40)]
fn push_report_top_row(out: &mut String, e: &TopSessionEntry, n: usize)
    ensures
        final(out)@ == old(out)@ + report_top_row(*e, n as nat),
{
    let ghost start = out@;
    out.append("| ");
    push_dec_usize(out, n);
    out.append(" | ");
    push_short_id(out, e.id.as_str(), 12);
    out.append(" | ");
    push_replaced(out, e.title.as_str(), "|", "\\|");
    out.append(" | ");
    push_dec_i64(out, e.msg_count);
    out.append(" | ");
    push_dec_i64(out, e.total_tokens);
    out.append(" | $");
    push_cost(out, e.total_cost, 4);
    out.append(" |\n");
    proof {
        assert(out@ =~= start + report_top_row(*e, n as nat));
    }
}

fn push_report_top(out: &mut String, es: &Vec<TopSessionEntry>)
    ensures
        final(out)@ == old(out)@ + report_top_text(es@),
{
    let ghost start = out@;
    if es.len() == 0 {
        assert(out@ =~= start + report_top_text(es@));
        return;
    }
    out.append("\n## 会话排行 (Top 10 by Cost)\n\n");
    out.append("| # | 会话 | 标题 | 消息 | Tokens | 费用 |\n");
    out.append("|---|------|------|------|--------|------|\n");
    let ghost head = out@;
    let mut i: usize = 0;
    proof {
        assert(es@.take(0) =~= Seq::<TopSessionEntry>::empty());
        assert(out@ =~= head + report_top_rows(es@.take(0)));
    }
    while i < es.len()
        invariant
            i <= es@.len(),
            out@ == head + report_top_rows(es@.take(i as int)),
        decreases es@.len() - i,
    {
        push_report_top_row(out, &es[i], i + 1);
        proof {
            assert(es@.take(i + 1).drop_last() =~= es@.take(i as int));
            assert(out@ =~= head + report_top_rows(es@.take(i + 1)));
        }
        i = i + 1;
    }
    proof {
        assert(es@.take(es@.len() as int) =~= es@);
        assert(out@ =~= start + report_top_text(es@));
    }
}

#[verifier::rlimit(40)]
fn push_trend_row(out: &mut String, t: &DailyTrend)
    ensures
        final(out)@ == old(out)@ + trend_row(*t),
{
    let ghost start = out@;
    out.append("| ");
    out.append(t.date.as_str());
    out.append(" | ");
    push_dec_i64(out, t.sessions);
    out.append(" | ");
    push_dec_i64(out, t.messages);
    out.append(" | ");
    push_dec_i64(out, t.tokens);
    out.append(" | $");
    push_cost(out, t.cost, 4);
    out.append(" |\n");
    proof {
        assert(out@ =~= start + trend_row(*t));
    }
}

/// The highest daily cost, and at least 0.
fn highest_cost(ts: &Vec<DailyTrend>) -> (m: i64)
    ensures
        m == max_cost(ts@),
        m >= 0,
        forall|k: int| 0 <= k < ts@.len() ==> #[trigger] ts@[k].cost <= m,
{
    let mut m: i64 = 0;
    let mut i: usize = 0;
    while i < ts.len()
        invariant
            i <= ts@.len(),
            m == max_cost(ts@.take(i as int)),
            m >= 0,
            forall|k: int| 0 <= k < i ==> #[trigger] ts@[k].cost <= m,
        decreases ts@.len() - i,
    {
        proof {
            assert(ts@.take(i + 1).drop_last() =~= ts@.take(i as int));
        }
        if ts[i].cost > m {
            m = ts[i].cost;
        }
        i = i + 1;
    }
    proof {
        assert(ts@.take(ts@.len() as int) =~= ts@);
    }
    m
}

fn push_bar_line(out: &mut String, t: &DailyTrend, m: i64)
    requires
        m > 0,
        t.cost <= m,
    ensures
        final(out)@ == old(out)@ + bar_line(*t, m as int),
{
    let ghost start = out@;
    out.append(t.date.as_str());
    out.append(": ");
    let n: usize = if t.cost <= 0 {
        0
    } else {
        let scaled: i128 = (t.cost as i128) * 40 / (m as i128);
        proof {
            assert(0 <= (t.cost as int) * 40 / (m as int) <= 40) by (nonlinear_arith)
                requires
                    0 < t.cost <= m,
            ;
        }
        scaled as usize
    };
    push_repeat(out, "█", n);
    out.append(" $");
    push_cost(out, t.cost, 4);
    out.append("\n");
    proof {
        assert(out@ =~= start + bar_line(*t, m as int));
    }
}

fn push_report_trends(out: &mut String, ts: &Vec<DailyTrend>)
    ensures
        final(out)@ == old(out)@ + report_trends_text(ts@),
{
    let ghost start = out@;
    if ts.len() == 0 {
        assert(out@ =~= start + report_trends_text(ts@));
        return;
    }
    out.append("\n## 每日趋势\n\n");
    out.append("| 日期 | 会话 | 消息 | Tokens | 费用 |\n");
    out.append("|------|------|------|--------|------|\n");
    let ghost head = out@;
    let mut i: usize = 0;
    proof {
        assert(ts@.take(0) =~= Seq::<DailyTrend>::empty());
        assert(out@ =~= head + trend_rows(ts@.take(0)));
    }
    while i < ts.len()
        invariant
            i <= ts@.len(),
            out@ == head + trend_rows(ts@.take(i as int)),
        decreases ts@.len() - i,
    {
        push_trend_row(out, &ts[i]);
        proof {
            assert(ts@.take(i + 1).drop_last() =~= ts@.take(i as int));
            assert(out@ =~= head + trend_rows(ts@.take(i + 1)));
        }
        i = i + 1;
    }
    out.append("\n");
    proof {
        assert(ts@.take(ts@.len() as int) =~= ts@);
    }
    let ghost table = out@;
    let m = highest_cost(ts);
    if m > 0 {
        let mut j: usize = 0;
        proof {
            assert(ts@.take(0) =~= Seq::<DailyTrend>::empty());
            assert(out@ =~= table + bar_lines(ts@.take(0), m as int));
        }
        while j < ts.len()
            invariant
                j <= ts@.len(),
                m > 0,
                forall|k: int| 0 <= k < ts@.len() ==> #[trigger] ts@[k].cost <= m,
                out@ == table + bar_lines(ts@.take(j as int), m as int),
            decreases ts@.len() - j,
        {
            push_bar_line(out, &ts[j], m);
            proof {
                assert(ts@.take(j + 1).drop_last() =~= ts@.take(j as int));
                assert(out@ =~= table + bar_lines(ts@.take(j + 1), m as int));
            }
            j = j + 1;
        }
        proof {
            assert(ts@.take(ts@.len() as int) =~= ts@);
        }
    }
    proof {
        assert(out@ =~= start + report_trends_text(ts@));
    }
}

/// The sum of the models' costs.
fn total_models_cost(ms: &Vec<ModelBreakdown>) -> (t: i64)
    requires
        models_cost_fits(ms@),
    ensures
        t == models_cost(ms@),
{
    let mut t: i64 = 0;
    let mut i: usize = 0;
    proof {
        assert(ms@.take(0) =~= Seq::<ModelBreakdown>::empty());
    }
    while i < ms.len()
        invariant
            i <= ms@.len(),
            models_cost_fits(ms@),
            t == models_cost(ms@.take(i as int)),
        decreases ms@.len() - i,
    {
        proof {
            assert(ms@.take(i + 1).drop_last() =~= ms@.take(i as int));
            assert(i64::MIN <= models_cost(ms@.take(i + 1)) <= i64::MAX);
        }
        t = t + ms[i].total_cost;
        i = i + 1;
    }
    proof {
        assert(ms@.take(ms@.len() as int) =~= ms@);
    }
    t
}

#[verifier::rlimit(40)]
fn push_model_row(out: &mut String, m: &ModelBreakdown, total: i64)
    ensures
        final(out)@ == old(out)@ + model_row(*m, total as int),
{
    let ghost start = out@;
    out.append("| ");
    out.append(m.model.as_str());
    out.append(" | ");
    push_dec_i64(out, m.message_count);
    out.append(" | ");
    push_dec_i64(out, m.total_tokens);
    out.append(" | $");
    push_cost(out, m.total_cost, 4);
    out.append(" | ");
    if total > 0 {
        push_fixed_ratio(out, (m.total_cost as i128) * 100, total as u128, 1);
        out.append("%");
    } else {
        out.append("-");
    }
    out.append(" |\n");
    proof {
        assert(out@ =~= start + model_row(*m, total as int));
    }
}

fn push_report_models(out: &mut String, ms: &Vec<ModelBreakdown>)
    requires
        models_cost_fits(ms@),
    ensures
        final(out)@ == old(out)@ + report_models_text(ms@),
{
    let ghost start = out@;
    if ms.len() == 0 {
        assert(out@ =~= start + report_models_text(ms@));
        return;
    }
    out.append("\n## 模型使用分布\n\n");
    out.append("| 模型 | 消息数 | Tokens | 费用 | 占比 |\n");
    out.append("|------|--------|--------|------|------|\n");
    let total = total_models_cost(ms);
    let ghost head = out@;
    let mut i: usize = 0;
    proof {
        assert(ms@.take(0) =~= Seq::<ModelBreakdown>::empty());
        assert(out@ =~= head + model_rows(ms@.take(0), total as int));
    }
    while i < ms.len()
        invariant
            i <= ms@.len(),
            out@ == head + model_rows(ms@.take(i as int), total as int),
        decreases ms@.len() - i,
    {
        push_model_row(out, &ms[i], total);
        proof {
            assert(ms@.take(i + 1).drop_last() =~= ms@.take(i as int));
            assert(out@ =~= head + model_rows(ms@.take(i + 1), total as int));
        }
        i = i + 1;
    }
    proof {
        assert(ms@.take(ms@.len() as int) =~= ms@);
        assert(out@ =~= start + report_models_text(ms@));
    }
}

/// The markdown usage report (see [`report_text`]).
pub fn render_report_markdown(
    summary: &ReportSummary,
    trends: &Vec<DailyTrend>,
    models: &Vec<ModelBreakdown>,
    top_sessions: &Vec<TopSessionEntry>,
) -> (r: String)
    requires
        models_cost_fits(models@),
    ensures
        r@ == report_text(*summary, trends@, models@, top_sessions@),
{
    let mut out = String::new();
    push_overview(&mut out, summary);
    push_report_top(&mut out, top_sessions);
    push_report_trends(&mut out, trends);
    push_report_models(&mut out, models);
    assert(out@ =~= report_text(*summary, trends@, models@, top_sessions@));
    out
}

// ───────────────────────── comparing two sessions ─────────────────────────

/// A table row with a label and one value for each session.
pub open spec fn cell_text(label: Seq<char>, v1: Seq<char>, v2: Seq<char>) -> Seq<char> {
    "| "@ + label + " | "@ + v1 + " | "@ + v2 + " |\n"@
}

/// Appends a table row of two strings.
pub fn cell_str(out: &mut String, label: &str, v1: &str, v2: &str)
    ensures
        final(out)@ == old(out)@ + cell_text(label@, v1@, v2@),
{
    let ghost start = out@;
    out.append("| ");
    out.append(label);
    out.append(" | ");
    out.append(v1);
    out.append(" | ");
    out.append(v2);
    out.append(" |\n");
    assert(out@ =~= start + cell_text(label@, v1@, v2@));
}

/// Appends a table row of two counts.
pub fn cell_usize(out: &mut String, label: &str, v1: usize, v2: usize)
    ensures
        final(out)@ == old(out)@ + cell_text(label@, dec_nat(v1 as nat), dec_nat(v2 as nat)),
{
    let ghost start = out@;
    out.append("| ");
    out.append(label);
    out.append(" | ");
    push_dec_usize(out, v1);
    out.append(" | ");
    push_dec_usize(out, v2);
    out.append(" |\n");
    assert(out@ =~= start + cell_text(label@, dec_nat(v1 as nat), dec_nat(v2 as nat)));
}

/// Appends a table row of two integers.
pub fn cell_i64(out: &mut String, label: &str, v1: i64, v2: i64)
    ensures
        final(out)@ == old(out)@ + cell_text(label@, dec_int(v1 as int), dec_int(v2 as int)),
{
    let ghost start = out@;
    out.append("| ");
    out.append(label);
    out.append(" | ");
    push_dec_i64(out, v1);
    out.append(" | ");
    push_dec_i64(out, v2);
    out.append(" |\n");
    assert(out@ =~= start + cell_text(label@, dec_int(v1 as int), dec_int(v2 as int)));
}

/// The model a session names, or `—`.
pub open spec fn model_or_dash(s: Session) -> Seq<char> {
    match s.model {
        Some(m) => m@,
        None => "—"@,
    }
}

/// The head of a comparison table.
pub open spec fn compare_table_head() -> Seq<char> {
    "| 指标 | 会话 1 | 会话 2 |\n"@ + "|------|--------|--------|\n"@
}

/// The first rows of the metadata part of a comparison.
pub open spec fn compare_meta_head(s1: Session, s2: Session) -> Seq<char> {
    "# 会话对比\n\n"@ + "## 元数据对比\n\n"@ + compare_table_head() + cell_text("ID"@, s1.id@, s2.id@) + cell_text(
        "标题"@,
        s1.title@,
        s2.title@,
    ) + cell_text("模型"@, model_or_dash(s1), model_or_dash(s2))
}

/// The metadata part of a comparison.
pub open spec fn compare_meta_text(s1: Session, s2: Session, n1: nat, n2: nat) -> Seq<char> {
    compare_meta_head(s1, s2) + cell_text("消息数"@, dec_nat(n1), dec_nat(n2))
        + cell_text("创建时间"@, short_iso_ts(s1.time_created), short_iso_ts(s2.time_created)) + cell_text(
        "目录"@,
        s1.directory@,
        s2.directory@,
    )
}

/// The token and cost part of a comparison.
pub open spec fn compare_tokens_text(d1: Seq<crate::models::MessageData>, d2: Seq<crate::models::MessageData>) -> Seq<char> {
    "\n## Token / 费用\n\n"@ + compare_table_head() + cell_text(
        "总 Tokens"@,
        dec_int(sum_of(d1, Qty::TotalTokens)),
        dec_int(sum_of(d2, Qty::TotalTokens)),
    ) + cell_text("输入 Tokens"@, dec_int(sum_of(d1, Qty::InputTokens)), dec_int(sum_of(d2, Qty::InputTokens)))
        + cell_text("输出 Tokens"@, dec_int(sum_of(d1, Qty::OutputTokens)), dec_int(sum_of(d2, Qty::OutputTokens)))
        + "| 总费用 | $"@ + cost_text(sum_of(d1, Qty::Cost), 4) + " | $"@ + cost_text(sum_of(d2, Qty::Cost), 4)
        + " |\n"@
}

/// How many messages of `d` agent `a` wrote, or `—` when none.
pub open spec fn agent_count_text(d: Seq<crate::models::MessageData>, a: Seq<char>) -> Seq<char> {
    if named_agents(d).contains(a) {
        dec_nat(occurrences(named_agents(d), a) as nat)
    } else {
        "—"@
    }
}

/// The agents of both sessions in increasing order of name.
pub open spec fn all_agents(d1: Seq<crate::models::MessageData>, d2: Seq<crate::models::MessageData>) -> Seq<Seq<char>> {
    choose|ids: Seq<Seq<char>>| sorted_set_of(ids, named_agents(d1) + named_agents(d2))
}

/// The rows of the agents.
pub open spec fn agent_compare_rows(
    d1: Seq<crate::models::MessageData>,
    d2: Seq<crate::models::MessageData>,
    agents: Seq<Seq<char>>,
) -> Seq<char>
    decreases agents.len(),
{
    if agents.len() == 0 {
        Seq::empty()
    } else {
        agent_compare_rows(d1, d2, agents.drop_last()) + cell_text(
            agents.last(),
            agent_count_text(d1, agents.last()),
            agent_count_text(d2, agents.last()),
        )
    }
}

/// The agent part of a comparison.
pub open spec fn compare_agents_text(d1: Seq<crate::models::MessageData>, d2: Seq<crate::models::MessageData>) -> Seq<char> {
    "\n## 智能体使用\n\n"@ + "| Agent | 会话 1 消息 | 会话 2 消息 |\n"@ + "|-------|-----------|-----------|\n"@
        + agent_compare_rows(d1, d2, all_agents(d1, d2))
}

/// A value of an optional count, 0 when missing.
pub open spec fn count_or_zero(o: Option<i64>) -> int {
    match o {
        Some(v) => v as int,
        None => 0,
    }
}

/// The file part of a comparison.
pub open spec fn compare_files_text(s1: Session, s2: Session) -> Seq<char> {
    "\n## 文件变更\n\n"@ + compare_table_head() + cell_text(
        "新增行"@,
        dec_int(count_or_zero(s1.summary_additions)),
        dec_int(count_or_zero(s2.summary_additions)),
    ) + cell_text("删除行"@, dec_int(count_or_zero(s1.summary_deletions)), dec_int(count_or_zero(s2.summary_deletions)))
}

/// The markdown comparison of two sessions: metadata, tokens and cost,
/// messages per agent, and changed lines.
pub open spec fn compare_text(s1: Session, s2: Session, m1: Seq<MessageWithParts>, m2: Seq<MessageWithParts>) -> Seq<char> {
    compare_meta_text(s1, s2, m1.len(), m2.len()) + compare_tokens_text(datas(m1), datas(m2)) + compare_agents_text(
        datas(m1),
        datas(m2),
    ) + compare_files_text(s1, s2)
}

/// A row of a comparison table, written out.
proof fn lemma_row_written(label: Seq<char>, row_start: Seq<char>, v1: Seq<char>, v2: Seq<char>)
    requires
        row_start == "| "@ + label + " | "@,
    ensures
        cell_text(label, v1, v2) == row_start + v1 + " | "@ + v2 + " |\n"@,
{
    assert(cell_text(label, v1, v2) =~= row_start + v1 + " | "@ + v2 + " |\n"@);
}

/// The first and the last pieces of a text made of pieces.
proof fn lemma_pieces_ends(
    h: Seq<char>,
    x1: Seq<char>,
    x2: Seq<char>,
    x3: Seq<char>,
    x4: Seq<char>,
    k: Seq<char>,
    g: Seq<char>,
    fh: Seq<char>,
    r1: Seq<char>,
    r2: Seq<char>,
)
    ensures
        ({
            let t = ((((((h + x1) + x2) + x3) + x4) + k) + g) + ((fh + r1) + r2);
            &&& h.len() <= t.len() && t.subrange(0, h.len() as int) == h
            &&& (r1 + r2).len() <= t.len() && t.subrange(t.len() - (r1 + r2).len(), t.len() as int) == r1 + r2
        }),
{
    let t = ((((((h + x1) + x2) + x3) + x4) + k) + g) + ((fh + r1) + r2);
    let m = x1 + x2 + x3 + x4 + k + g + fh;
    assert(t =~= h + m + (r1 + r2));
    assert(t.subrange(0, h.len() as int) =~= h);
    assert(t.subrange(t.len() - (r1 + r2).len(), t.len() as int) =~= r1 + r2);
}

/// The first rows and the last rows of a comparison.
proof fn lemma_compare_ends(s1: Session, s2: Session, m1: Seq<MessageWithParts>, m2: Seq<MessageWithParts>)
    ensures
        ({
            let t = compare_text(s1, s2, m1, m2);
            let head = "# 会话对比\n\n"@ + "## 元数据对比\n\n"@ + compare_table_head() + cell_text("ID"@, s1.id@, s2.id@)
                + cell_text("标题"@, s1.title@, s2.title@);
            let tail = cell_text(
                "新增行"@,
                dec_int(count_or_zero(s1.summary_additions)),
                dec_int(count_or_zero(s2.summary_additions)),
            ) + cell_text(
                "删除行"@,
                dec_int(count_or_zero(s1.summary_deletions)),
                dec_int(count_or_zero(s2.summary_deletions)),
            );
            &&& head.len() <= t.len() && t.subrange(0, head.len() as int) == head
            &&& tail.len() <= t.len() && t.subrange(t.len() - tail.len(), t.len() as int) == tail
        }),
{
    lemma_pieces_ends(
        "# 会话对比\n\n"@ + "## 元数据对比\n\n"@ + compare_table_head() + cell_text("ID"@, s1.id@, s2.id@)
            + cell_text("标题"@, s1.title@, s2.title@),
        cell_text("模型"@, model_or_dash(s1), model_or_dash(s2)),
        cell_text("消息数"@, dec_nat(m1.len()), dec_nat(m2.len())),
        cell_text("创建时间"@, short_iso_ts(s1.time_created), short_iso_ts(s2.time_created)),
        cell_text("目录"@, s1.directory@, s2.directory@),
        compare_tokens_text(datas(m1), datas(m2)),
        compare_agents_text(datas(m1), datas(m2)),
        "\n## 文件变更\n\n"@ + compare_table_head(),
        cell_text(
            "新增行"@,
            dec_int(count_or_zero(s1.summary_additions)),
            dec_int(count_or_zero(s2.summary_additions)),
        ),
        cell_text(
            "删除行"@,
            dec_int(count_or_zero(s1.summary_deletions)),
            dec_int(count_or_zero(s2.summary_deletions)),
        ),
    );
}

/// The first rows of a comparison, written out.
proof fn lemma_head_written(s1: Session, s2: Session)
    ensures
        "# 会话对比\n\n"@ + "## 元数据对比\n\n"@ + "| 指标 | 会话 1 | 会话 2 |\n"@ + "|------|--------|--------|\n"@
            + "| ID | "@ + s1.id@ + " | "@ + s2.id@ + " |\n"@ + "| 标题 | "@ + s1.title@ + " | "@ + s2.title@
            + " |\n"@ == "# 会话对比\n\n"@ + "## 元数据对比\n\n"@ + compare_table_head() + cell_text(
            "ID"@,
            s1.id@,
            s2.id@,
        ) + cell_text("标题"@, s1.title@, s2.title@),
{
    reveal_strlit("| ID | ");
    reveal_strlit("| 标题 | ");
    reveal_strlit("| ");
    reveal_strlit(" | ");
    reveal_strlit("ID");
    reveal_strlit("标题");
    assert("| ID | "@ =~= "| "@ + "ID"@ + " | "@);
    assert("| 标题 | "@ =~= "| "@ + "标题"@ + " | "@);
    lemma_row_written("ID"@, "| ID | "@, s1.id@, s2.id@);
    lemma_row_written("标题"@, "| 标题 | "@, s1.title@, s2.title@);
    assert("# 会话对比\n\n"@ + "## 元数据对比\n\n"@ + "| 指标 | 会话 1 | 会话 2 |\n"@ + "|------|--------|--------|\n"@
        + "| ID | "@ + s1.id@ + " | "@ + s2.id@ + " |\n"@ + "| 标题 | "@ + s1.title@ + " | "@ + s2.title@
        + " |\n"@ =~= "# 会话对比\n\n"@ + "## 元数据对比\n\n"@ + compare_table_head() + cell_text(
        "ID"@,
        s1.id@,
        s2.id@,
    ) + cell_text("标题"@, s1.title@, s2.title@));
}

/// The changed-lines rows of a comparison, written out.
proof fn lemma_tail_written(a1: int, a2: int, d1: int, d2: int)
    ensures
        "| 新增行 | "@ + dec_int(a1) + " | "@ + dec_int(a2) + " |\n"@ + "| 删除行 | "@ + dec_int(d1) + " | "@ + dec_int(d2)
            + " |\n"@ == cell_text("新增行"@, dec_int(a1), dec_int(a2)) + cell_text("删除行"@, dec_int(d1), dec_int(d2)),
{
    reveal_strlit("| 新增行 | ");
    reveal_strlit("| 删除行 | ");
    reveal_strlit("| ");
    reveal_strlit(" | ");
    reveal_strlit("新增行");
    reveal_strlit("删除行");
    assert("| 新增行 | "@ =~= "| "@ + "新增行"@ + " | "@);
    assert("| 删除行 | "@ =~= "| "@ + "删除行"@ + " | "@);
    lemma_row_written("新增行"@, "| 新增行 | "@, dec_int(a1), dec_int(a2));
    lemma_row_written("删除行"@, "| 删除行 | "@, dec_int(d1), dec_int(d2));
    assert("| 新增行 | "@ + dec_int(a1) + " | "@ + dec_int(a2) + " |\n"@ + "| 删除行 | "@ + dec_int(d1) + " | "@
        + dec_int(d2) + " |\n"@ =~= cell_text("新增行"@, dec_int(a1), dec_int(a2)) + cell_text(
        "删除行"@,
        dec_int(d1),
        dec_int(d2),
    ));
}

/// In a comparison each column shows its own session: the first rows give
/// session 1's id and title in the first column and session 2's in the
/// second, and the comparison ends with the changed lines, session 1's
/// added and deleted lines in the first column and session 2's in the second
/// (0 where a count is missing).
pub proof fn law_compare_columns_show_their_own_session(
    s1: Session,
    s2: Session,
    m1: Seq<MessageWithParts>,
    m2: Seq<MessageWithParts>,
)
    ensures
        ({
            let t = compare_text(s1, s2, m1, m2);
            let a1: int = match s1.summary_additions {
                Some(v) => v as int,
                None => 0,
            };
            let a2: int = match s2.summary_additions {
                Some(v) => v as int,
                None => 0,
            };
            let d1: int = match s1.summary_deletions {
                Some(v) => v as int,
                None => 0,
            };
            let d2: int = match s2.summary_deletions {
                Some(v) => v as int,
                None => 0,
            };
            let head = "# 会话对比\n\n"@ + "## 元数据对比\n\n"@ + "| 指标 | 会话 1 | 会话 2 |\n"@
                + "|------|--------|--------|\n"@ + "| ID | "@ + s1.id@ + " | "@ + s2.id@ + " |\n"@ + "| 标题 | "@
                + s1.title@ + " | "@ + s2.title@ + " |\n"@;
            let tail = "| 新增行 | "@ + dec_int(a1) + " | "@ + dec_int(a2) + " |\n"@ + "| 删除行 | "@ + dec_int(d1)
                + " | "@ + dec_int(d2) + " |\n"@;
            &&& head.len() <= t.len() && t.subrange(0, head.len() as int) == head
            &&& tail.len() <= t.len() && t.subrange(t.len() - tail.len(), t.len() as int) == tail
        }),
{
    lemma_compare_ends(s1, s2, m1, m2);
    lemma_head_written(s1, s2);
    lemma_tail_written(
        count_or_zero(s1.summary_additions),
        count_or_zero(s2.summary_additions),
        count_or_zero(s1.summary_deletions),
        count_or_zero(s2.summary_deletions),
    );
}

/// The token and cost rows of a comparison show each session's own sums:
/// session 1's total, input and output tokens and cost in the first column,
/// session 2's in the second.
pub proof fn law_compare_token_rows_show_their_own_session(
    d1: Seq<crate::models::MessageData>,
    d2: Seq<crate::models::MessageData>,
)
    ensures
        compare_tokens_text(d1, d2) == "\n## Token / 费用\n\n"@ + "| 指标 | 会话 1 | 会话 2 |\n"@
            + "|------|--------|--------|\n"@ + "| 总 Tokens | "@ + dec_int(sum_of(d1, Qty::TotalTokens)) + " | "@
            + dec_int(sum_of(d2, Qty::TotalTokens)) + " |\n"@ + "| 输入 Tokens | "@ + dec_int(
            sum_of(d1, Qty::InputTokens),
        ) + " | "@ + dec_int(sum_of(d2, Qty::InputTokens)) + " |\n"@ + "| 输出 Tokens | "@ + dec_int(
            sum_of(d1, Qty::OutputTokens),
        ) + " | "@ + dec_int(sum_of(d2, Qty::OutputTokens)) + " |\n"@ + "| 总费用 | $"@ + cost_text(
            sum_of(d1, Qty::Cost),
            4,
        ) + " | $"@ + cost_text(sum_of(d2, Qty::Cost), 4) + " |\n"@,
{
    reveal_strlit("| 总 Tokens | ");
    reveal_strlit("| 输入 Tokens | ");
    reveal_strlit("| 输出 Tokens | ");
    reveal_strlit("| ");
    reveal_strlit(" | ");
    reveal_strlit("总 Tokens");
    reveal_strlit("输入 Tokens");
    reveal_strlit("输出 Tokens");
    assert("| 总 Tokens | "@ =~= "| "@ + "总 Tokens"@ + " | "@);
    assert("| 输入 Tokens | "@ =~= "| "@ + "输入 Tokens"@ + " | "@);
    assert("| 输出 Tokens | "@ =~= "| "@ + "输出 Tokens"@ + " | "@);
    let a = dec_int(sum_of(d1, Qty::TotalTokens));
    let b = dec_int(sum_of(d2, Qty::TotalTokens));
    let c = dec_int(sum_of(d1, Qty::InputTokens));
    let e = dec_int(sum_of(d2, Qty::InputTokens));
    let f = dec_int(sum_of(d1, Qty::OutputTokens));
    let g = dec_int(sum_of(d2, Qty::OutputTokens));
    lemma_row_written("总 Tokens"@, "| 总 Tokens | "@, a, b);
    lemma_row_written("输入 Tokens"@, "| 输入 Tokens | "@, c, e);
    lemma_row_written("输出 Tokens"@, "| 输出 Tokens | "@, f, g);
    assert(compare_table_head() == "| 指标 | 会话 1 | 会话 2 |\n"@ + "|------|--------|--------|\n"@);
    let x = cost_text(sum_of(d1, Qty::Cost), 4);
    let y = cost_text(sum_of(d2, Qty::Cost), 4);
    assert(compare_tokens_text(d1, d2) =~= "\n## Token / 费用\n\n"@ + "| 指标 | 会话 1 | 会话 2 |\n"@
        + "|------|--------|--------|\n"@ + "| 总 Tokens | "@ + a + " | "@ + b + " |\n"@ + "| 输入 Tokens | "@ + c
        + " | "@ + e + " |\n"@ + "| 输出 Tokens | "@ + f + " | "@ + g + " |\n"@ + "| 总费用 | $"@ + x + " | $"@ + y
        + " |\n"@);
}

fn push_compare_meta_head(out: &mut String, s1: &Session, s2: &Session)
    ensures
        final(out)@ == old(out)@ + compare_meta_head(*s1, *s2),
{
    let ghost start = out@;
    out.append("# 会话对比\n\n");
    out.append("## 元数据对比\n\n");
    out.append("| 指标 | 会话 1 | 会话 2 |\n");
    out.append("|------|--------|--------|\n");
    cell_str(out, "ID", s1.id.as_str(), s2.id.as_str());
    cell_str(out, "标题", s1.title.as_str(), s2.title.as_str());
    let dash = String::from_str("—");
    let m1: &str = match &s1.model {
        Some(m) => m.as_str(),
        None => dash.as_str(),
    };
    let m2: &str = match &s2.model {
        Some(m) => m.as_str(),
        None => dash.as_str(),
    };
    cell_str(out, "模型", m1, m2);
    proof {
        assert(out@ =~= start + compare_meta_head(*s1, *s2));
    }
}

fn push_compare_meta(out: &mut String, s1: &Session, s2: &Session, n1: usize, n2: usize)
    ensures
        final(out)@ == old(out)@ + compare_meta_text(*s1, *s2, n1 as nat, n2 as nat),
{
    let ghost start = out@;
    push_compare_meta_head(out, s1, s2);
    cell_usize(out, "消息数", n1, n2);
    let c1 = ts_to_iso_short(s1.time_created);
    let c2 = ts_to_iso_short(s2.time_created);
    cell_str(out, "创建时间", c1.as_str(), c2.as_str());
    cell_str(out, "目录", s1.directory.as_str(), s2.directory.as_str());
    proof {
        assert(out@ =~= start + compare_meta_text(*s1, *s2, n1 as nat, n2 as nat));
    }
}

fn push_compare_tokens(out: &mut String, u1: &UsageAgg, u2: &UsageAgg, Ghost(d1): Ghost<Seq<crate::models::MessageData>>, Ghost(d2): Ghost<Seq<crate::models::MessageData>>)
    requires
        is_usage_of(*u1, d1),
        is_usage_of(*u2, d2),
    ensures
        final(out)@ == old(out)@ + compare_tokens_text(d1, d2),
{
    let ghost start = out@;
    out.append("\n## Token / 费用\n\n");
    out.append("| 指标 | 会话 1 | 会话 2 |\n");
    out.append("|------|--------|--------|\n");
    cell_i64(out, "总 Tokens", u1.total_tokens, u2.total_tokens);
    cell_i64(out, "输入 Tokens", u1.input_tokens, u2.input_tokens);
    cell_i64(out, "输出 Tokens", u1.output_tokens, u2.output_tokens);
    out.append("| 总费用 | $");
    push_cost(out, u1.total_cost, 4);
    out.append(" | $");
    push_cost(out, u2.total_cost, 4);
    out.append(" |\n");
    proof {
        assert(out@ =~= start + compare_tokens_text(d1, d2));
    }
}

/// The count of agent `a` in a usage summary, written, or `—`.
fn push_agent_count(out: &mut String, u: &UsageAgg, a: &String, Ghost(d): Ghost<Seq<crate::models::MessageData>>)
    requires
        is_usage_of(*u, d),
    ensures
        final(out)@ == old(out)@ + agent_count_text(d, a@),
{
    let ghost keys = count_keys(u.agent_counts@);
    let mut i: usize = 0;
    while i < u.agent_counts.len()
        invariant
            i <= u.agent_counts@.len(),
            keys == count_keys(u.agent_counts@),
            is_usage_of(*u, d),
            out@ == old(out)@,
            forall|k: int| 0 <= k < i ==> #[trigger] u.agent_counts@[k].0@ != a@,
        decreases u.agent_counts@.len() - i,
    {
        if str_eq(u.agent_counts[i].0.as_str(), a.as_str()) {
            proof {
                assert(keys[i as int] == a@);
                assert(keys.contains(a@));
            }
            push_dec_usize(out, u.agent_counts[i].1);
            return;
        }
        i = i + 1;
    }
    proof {
        if named_agents(d).contains(a@) {
            assert(keys.contains(a@));
            let k = choose|k: int| 0 <= k < keys.len() && keys[k] == a@;
            assert(u.agent_counts@[k].0@ == a@);
        }
    }
    out.append("—");
}

#[verifier::rlimit(40)]
fn push_compare_agents(out: &mut String, u1: &UsageAgg, u2: &UsageAgg, Ghost(d1): Ghost<Seq<crate::models::MessageData>>, Ghost(d2): Ghost<Seq<crate::models::MessageData>>)
    requires
        is_usage_of(*u1, d1),
        is_usage_of(*u2, d2),
    ensures
        final(out)@ == old(out)@ + compare_agents_text(d1, d2),
{
    let ghost start = out@;
    out.append("\n## 智能体使用\n\n");
    out.append("| Agent | 会话 1 消息 | 会话 2 消息 |\n");
    out.append("|-------|-----------|-----------|\n");
    let ghost head = out@;
    let mut names: Vec<String> = Vec::new();
    let mut i: usize = 0;
    while i < u1.agent_counts.len()
        invariant
            i <= u1.agent_counts@.len(),
            strs(names@) == count_keys(u1.agent_counts@).take(i as int),
        decreases u1.agent_counts@.len() - i,
    {
        let c = u1.agent_counts[i].0.clone();
        proof {
            crate::text::lemma_strs_push(names@, c);
            assert(count_keys(u1.agent_counts@).take(i + 1) =~= count_keys(u1.agent_counts@).take(i as int).push(c@));
        }
        names.push(c);
        i = i + 1;
    }
    let mut j: usize = 0;
    let ghost k1 = count_keys(u1.agent_counts@);
    proof {
        assert(k1.take(k1.len() as int) =~= k1);
    }
    while j < u2.agent_counts.len()
        invariant
            j <= u2.agent_counts@.len(),
            strs(names@) == k1 + count_keys(u2.agent_counts@).take(j as int),
        decreases u2.agent_counts@.len() - j,
    {
        let c = u2.agent_counts[j].0.clone();
        proof {
            crate::text::lemma_strs_push(names@, c);
            assert(count_keys(u2.agent_counts@).take(j + 1) =~= count_keys(u2.agent_counts@).take(j as int).push(c@));
        }
        names.push(c);
        j = j + 1;
    }
    let ghost k2 = count_keys(u2.agent_counts@);
    proof {
        assert(k2.take(k2.len() as int) =~= k2);
    }
    let agents = sorted_unique(&names);
    let ghost ag = strs(agents@);
    proof {
        let want = named_agents(d1) + named_agents(d2);
        assert forall|x: Seq<char>| ag.contains(x) <==> want.contains(x) by {
            assert(ag.contains(x) <==> (k1 + k2).contains(x));
            if (k1 + k2).contains(x) {
                let p = choose|p: int| 0 <= p < (k1 + k2).len() && (k1 + k2)[p] == x;
                if p < k1.len() {
                    assert(k1.contains(x));
                    assert(named_agents(d1).contains(x));
                    let q = choose|q: int| 0 <= q < named_agents(d1).len() && named_agents(d1)[q] == x;
                    assert(want[q] == x);
                } else {
                    assert(k2[p - k1.len()] == x);
                    assert(k2.contains(x));
                    assert(named_agents(d2).contains(x));
                    let q = choose|q: int| 0 <= q < named_agents(d2).len() && named_agents(d2)[q] == x;
                    assert(want[named_agents(d1).len() + q] == x);
                }
            }
            if want.contains(x) {
                let p = choose|p: int| 0 <= p < want.len() && want[p] == x;
                if p < named_agents(d1).len() {
                    assert(named_agents(d1)[p] == x);
                    assert(k1.contains(x));
                    let q = choose|q: int| 0 <= q < k1.len() && k1[q] == x;
                    assert((k1 + k2)[q] == x);
                } else {
                    assert(named_agents(d2)[p - named_agents(d1).len()] == x);
                    assert(k2.contains(x));
                    let q = choose|q: int| 0 <= q < k2.len() && k2[q] == x;
                    assert((k1 + k2)[k1.len() + q] == x);
                }
            }
        }
        let chosen = all_agents(d1, d2);
        assert(sorted_set_of(ag, want));
        assert(sorted_set_of(chosen, want));
        assert forall|x: Seq<char>| ag.contains(x) <==> chosen.contains(x) by {}
        lemma_sorted_set_unique(ag, chosen);
    }
    let mut g: usize = 0;
    proof {
        assert(ag.take(0) =~= Seq::<Seq<char>>::empty());
        assert(out@ =~= head + agent_compare_rows(d1, d2, ag.take(0)));
    }
    while g < agents.len()
        invariant
            g <= agents@.len(),
            ag == strs(agents@),
            is_usage_of(*u1, d1),
            is_usage_of(*u2, d2),
            out@ == head + agent_compare_rows(d1, d2, ag.take(g as int)),
        decreases agents@.len() - g,
    {
        let ghost before = out@;
        let a = &agents[g];
        out.append("| ");
        out.append(a.as_str());
        out.append(" | ");
        push_agent_count(out, u1, a, Ghost(d1));
        out.append(" | ");
        push_agent_count(out, u2, a, Ghost(d2));
        out.append(" |\n");
        proof {
            assert(out@ =~= before + cell_text(a@, agent_count_text(d1, a@), agent_count_text(d2, a@)));
            assert(ag.take(g + 1).drop_last() =~= ag.take(g as int));
            assert(ag[g as int] == a@);
            assert(out@ =~= head + agent_compare_rows(d1, d2, ag.take(g + 1)));
        }
        g = g + 1;
    }
    proof {
        assert(ag.take(ag.len() as int) =~= ag);
        assert(out@ =~= start + compare_agents_text(d1, d2));
    }
}

fn push_compare_files(out: &mut String, s1: &Session, s2: &Session)
    ensures
        final(out)@ == old(out)@ + compare_files_text(*s1, *s2),
{
    let ghost start = out@;
    out.append("\n## 文件变更\n\n");
    out.append("| 指标 | 会话 1 | 会话 2 |\n");
    out.append("|------|--------|--------|\n");
    cell_i64(
        out,
        "新增行",
        match s1.summary_additions {
            Some(v) => v,
            None => 0,
        },
        match s2.summary_additions {
            Some(v) => v,
            None => 0,
        },
    );
    cell_i64(
        out,
        "删除行",
        match s1.summary_deletions {
            Some(v) => v,
            None => 0,
        },
        match s2.summary_deletions {
            Some(v) => v,
            None => 0,
        },
    );
    proof {
        assert(out@ =~= start + compare_files_text(*s1, *s2));
    }
}

/// The markdown comparison of two sessions (see [`compare_text`]).
pub fn render_compare_markdown(
    s1: &Session,
    s2: &Session,
    mp1: &Vec<MessageWithParts>,
    mp2: &Vec<MessageWithParts>,
) -> (r: String)
    requires
        totals_fit(datas(mp1@)),
        totals_fit(datas(mp2@)),
    ensures
        r@ == compare_text(*s1, *s2, mp1@, mp2@),
{
    let u1 = aggregate_usage(mp1);
    let u2 = aggregate_usage(mp2);
    let mut out = String::new();
    push_compare_meta(&mut out, s1, s2, mp1.len(), mp2.len());
    push_compare_tokens(&mut out, &u1, &u2, Ghost(datas(mp1@)), Ghost(datas(mp2@)));
    push_compare_agents(&mut out, &u1, &u2, Ghost(datas(mp1@)), Ghost(datas(mp2@)));
    push_compare_files(&mut out, s1, s2);
    assert(out@ =~= compare_text(*s1, *s2, mp1@, mp2@));
    out
}

} // verus!
