use ocs::models::{
    AgentBreakdown, DailyTrend, Message, MessageData, MessageWithParts, ModelBreakdown, ReportSummary, Session,
    SessionStats, TokenUsage, TopSessionEntry,
};
use ocs::render_report::{render_export_markdown, render_session_context, render_session_stats};
use ocs::render_usage::{cell_i64, cell_str, cell_usize, models_cost_in_range, render_compare_markdown, render_report_markdown};

fn session(id: &str) -> Session {
    Session {
        id: id.to_string(),
        project_id: "p".to_string(),
        slug: "s".to_string(),
        directory: "/d".to_string(),
        title: "Title".to_string(),
        time_created: 0,
        time_updated: 1_700_000_000_000,
        summary_additions: Some(1),
        summary_deletions: Some(0),
        summary_files: None,
        model: None,
        msg_count: 2,
        total_cost: 0,
    }
}

fn stats() -> SessionStats {
    SessionStats {
        session_id: "ses".to_string(),
        session_title: "T".to_string(),
        total_messages: 3,
        user_messages: 1,
        assistant_messages: 2,
        total_tokens: 100,
        input_tokens: 60,
        output_tokens: 40,
        reasoning_tokens: 5,
        cache_write: 0,
        cache_read: 7,
        total_cost: 1_250_000,
        agent_breakdown: vec![AgentBreakdown {
            agent: "build".to_string(),
            message_count: 2,
            total_tokens: 100,
            total_cost: 1_250_000,
        }],
    }
}

fn message(role: &str, agent: Option<&str>, total: i64, cost: Option<i64>) -> MessageWithParts {
    MessageWithParts {
        message: Message {
            id: "m".to_string(),
            session_id: "s".to_string(),
            time_created: 1_700_000_000_000,
            data: MessageData {
                role: role.to_string(),
                agent: agent.map(|a| a.to_string()),
                model: None,
                tokens: Some(TokenUsage { total: Some(total), input: Some(total), output: Some(0), reasoning: None, cache: None }),
                cost,
                mode: None,
                parent_id: None,
            },
        },
        parts: vec![],
    }
}

#[test]
fn stats_markdown() {
    assert_eq!(
        render_session_stats(&stats()),
        "# Stats: T\n\n**Session**: `ses`  \n---\n\n## Messages\n\n| | Count |\n|---|---|\n| **Total** | 3 |\n| User | 1 |\n| Assistant | 2 |\n\n\
## Token Usage\n\n| Metric | Tokens |\n|---|---|\n| **Total** | 100 |\n| Input | 60 |\n| Output | 40 |\n| Reasoning | 5 |\n| Cache Write | 0 |\n| Cache Read | 7 |\n\n\
## Cost\n\n**Total cost**: $1.250000\n\n## Per-Agent Breakdown\n\n| Agent | Messages | Tokens | Cost |\n|---|---|---|---|\n| build | 2 | 100 | $1.250000 |\n\n"
    );
}

#[test]
fn context_markdown() {
    let mut rel = session("ses_0123456789abc");
    rel.title = "Other".to_string();
    let out = render_session_context(&session("ses_1"), &stats(), &vec!["a".to_string(), "b".to_string()], Some("n"), &vec![rel]);
    assert_eq!(
        out,
        "# Context: Title\n\n---\n\n**Session**: `ses_1`  \n**Model**: `unknown`  \n**Directory**: `/d`  \n**Created**: 1970-01-01 00:00:00  \n**Messages**: 2  \n\
**Files changed**: 0 (+1/-0)  \n\n**Tags**: a, b  \n\n---\n\n## Annotation\n\nn\n\n---\n\n## Token Usage\n\n| Metric | Value |\n|---|---|\n\
| Total Tokens | 100 |\n| Input / Output | 60 / 40 |\n| Reasoning | 5 |\n| Total Cost | $1.250000 |\n\n## Agents\n\n\
| Agent | Messages | Tokens | Cost |\n|---|---|---|---|\n| build | 2 | 100 | $1.250000 |\n\n---\n\n## Related Sessions (same project)\n\n\
| Session | Title | Messages | Model | Created |\n|---|---|---|---|---|\n| `ses_01234567…` | Other | 2 | — | 1970-01-01 00:00:00 |\n"
    );
}

#[test]
fn export_front_matter_sums_costs() {
    let mut s = session("ses_1");
    s.summary_files = Some(2);
    let msgs = vec![message("user", None, 0, None), message("assistant", Some("a"), 5, Some(1_500_000))];
    let out = render_export_markdown(&s, &msgs, false);
    assert!(out.starts_with(
        "---\nid: \"ses_1\"\ntitle: \"Title\"\nmodel: \"unknown\"\ndirectory: \"/d\"\ncreated: \"1970-01-01 00:00:00 UTC\"\nupdated: \"2023-11-14 22:13:20 UTC\"\nmessages: 2\ncost: 1.5\nfiles_changed: 2\nadditions: 1\ndeletions: 0\n---\n\n# Title\n"
    ));
    let free = render_export_markdown(&session("ses_2"), &vec![], false);
    assert!(free.contains("\ncost: 0\n"));
}

#[test]
fn report_markdown_with_bars_and_shares() {
    let summary = ReportSummary {
        total_sessions: 2,
        total_messages: 5,
        total_tokens: 900,
        total_cost: 3_000_000,
        period_start: "2024-01-01".to_string(),
        period_end: "2024-01-02".to_string(),
    };
    let trends = vec![
        DailyTrend { date: "2024-01-01".to_string(), sessions: 1, messages: 2, tokens: 300, cost: 1_000_000 },
        DailyTrend { date: "2024-01-02".to_string(), sessions: 1, messages: 3, tokens: 600, cost: 2_000_000 },
    ];
    let models = vec![
        ModelBreakdown { model: "m1".to_string(), message_count: 3, total_tokens: 600, total_cost: 2_000_000 },
        ModelBreakdown { model: "m2".to_string(), message_count: 2, total_tokens: 300, total_cost: 1_000_000 },
    ];
    let top = vec![TopSessionEntry {
        id: "ses_0123456789abcdef".to_string(),
        title: "a|b".to_string(),
        directory: "/d".to_string(),
        time_created: 0,
        msg_count: 3,
        total_cost: 2_000_000,
        total_tokens: 600,
        total_input: 400,
        total_output: 200,
    }];
    let out = render_report_markdown(&summary, &trends, &models, &top);
    let bar20 = "█".repeat(20);
    let bar40 = "█".repeat(40);
    let expected = format!(
        "# OpenCode 使用报告\n\n**期间:** 2024-01-01 ~ 2024-01-02\n\n## 总览\n\n| 指标 | 数值 |\n|------|------|\n| 会话数 | 2 |\n| 总消息 | 5 |\n| 总 Tokens | 900 |\n| 总费用 | $3.0000 |\n\
\n## 会话排行 (Top 10 by Cost)\n\n| # | 会话 | 标题 | 消息 | Tokens | 费用 |\n|---|------|------|------|--------|------|\n| 1 | ses_01234567… | a\\|b | 3 | 600 | $2.0000 |\n\
\n## 每日趋势\n\n| 日期 | 会话 | 消息 | Tokens | 费用 |\n|------|------|------|--------|------|\n| 2024-01-01 | 1 | 2 | 300 | $1.0000 |\n| 2024-01-02 | 1 | 3 | 600 | $2.0000 |\n\n\
2024-01-01: {bar20} $1.0000\n2024-01-02: {bar40} $2.0000\n\
\n## 模型使用分布\n\n| 模型 | 消息数 | Tokens | 费用 | 占比 |\n|------|--------|--------|------|------|\n| m1 | 3 | 600 | $2.0000 | 66.7% |\n| m2 | 2 | 300 | $1.0000 | 33.3% |\n"
    );
    assert_eq!(out, expected);
}

#[test]
fn compare_markdown_cells() {
    let mut out = String::new();
    cell_str(&mut out, "ID", "a", "b");
    cell_usize(&mut out, "n", 1, 2);
    cell_i64(&mut out, "d", -1, 3);
    assert_eq!(out, "| ID | a | b |\n| n | 1 | 2 |\n| d | -1 | 3 |\n");
    let mut s1 = session("s1");
    s1.model = Some("m".to_string());
    let s2 = session("s2");
    let mp1 = vec![message("assistant", Some("build"), 10, Some(1_000_000))];
    let mp2 = vec![message("assistant", Some("plan"), 4, None), message("user", None, 1, None)];
    let out = render_compare_markdown(&s1, &s2, &mp1, &mp2);
    assert_eq!(
        out,
        "# 会话对比\n\n## 元数据对比\n\n| 指标 | 会话 1 | 会话 2 |\n|------|--------|--------|\n| ID | s1 | s2 |\n| 标题 | Title | Title |\n| 模型 | m | — |\n| 消息数 | 1 | 2 |\n\
| 创建时间 | 1970-01-01 00:00:00 | 1970-01-01 00:00:00 |\n| 目录 | /d | /d |\n\n## Token / 费用\n\n| 指标 | 会话 1 | 会话 2 |\n|------|--------|--------|\n\
| 总 Tokens | 10 | 5 |\n| 输入 Tokens | 10 | 5 |\n| 输出 Tokens | 0 | 0 |\n| 总费用 | $1.0000 | $0.0000 |\n\n## 智能体使用\n\n| Agent | 会话 1 消息 | 会话 2 消息 |\n\
|-------|-----------|-----------|\n| build | 1 | — |\n| plan | — | 1 |\n\n## 文件变更\n\n| 指标 | 会话 1 | 会话 2 |\n|------|--------|--------|\n| 新增行 | 1 | 1 |\n| 删除行 | 0 | 0 |\n"
    );
}

#[test]
fn model_cost_sums_out_of_range_are_refused() {
    let m = |c: i64| ModelBreakdown { model: "m".to_string(), message_count: 1, total_tokens: 1, total_cost: c };
    assert!(models_cost_in_range(&vec![m(1), m(2)]));
    assert!(models_cost_in_range(&vec![]));
    assert!(!models_cost_in_range(&vec![m(i64::MAX), m(i64::MAX)]));
    assert!(models_cost_in_range(&vec![m(i64::MAX), m(-1)]));
    assert!(!models_cost_in_range(&vec![m(i64::MIN), m(-1), m(5)]));
}
