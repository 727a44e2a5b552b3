use ocs::models::{
    DiffEntry, Message, MessageData, MessageWithParts, Part, PartData, ProjectGroup, SearchResult, Session,
    TokenUsage, ToolInput, ToolState, TopSessionEntry,
};
use ocs::render_list::{
    render_diff, render_projects, render_prune_plan, render_search_results, render_session_list,
    render_session_list_compact, render_session_preview, render_top_sessions,
};
use ocs::render_msg::{
    render_message_batch, render_message_compact, render_message_only, render_session_detail, render_session_header,
    render_tool_call,
};

fn session(id: &str, title: &str) -> Session {
    Session {
        id: id.to_string(),
        project_id: "p".to_string(),
        slug: "s".to_string(),
        directory: "/home/u/proj".to_string(),
        title: title.to_string(),
        time_created: 0,
        time_updated: 1_700_000_000_000,
        summary_additions: Some(1),
        summary_deletions: Some(0),
        summary_files: None,
        model: None,
        msg_count: 2,
        total_cost: 1_234_567,
    }
}

fn data(role: &str) -> MessageData {
    MessageData { role: role.to_string(), agent: None, model: None, tokens: None, cost: None, mode: None, parent_id: None }
}

fn part(id: &str, msg: &str, ty: &str, text: Option<&str>) -> Part {
    Part {
        id: id.to_string(),
        message_id: msg.to_string(),
        data: PartData {
            part_type: ty.to_string(),
            text: text.map(|t| t.to_string()),
            tool: None,
            call_id: None,
            state: None,
            reason: None,
            time: None,
            done: None,
            body: None,
        },
    }
}

fn message(id: &str, d: MessageData, parts: Vec<Part>) -> MessageWithParts {
    MessageWithParts {
        message: Message { id: id.to_string(), session_id: "ses".to_string(), time_created: 1_700_000_000_000, data: d },
        parts,
    }
}

#[test]
fn diff_without_entries() {
    assert_eq!(render_diff(&vec![], "s1"), "# Diff: `s1`\n\nNo file changes recorded for this session.\n");
}

#[test]
fn diff_entry_with_patch() {
    let e = DiffEntry { file: "a.rs".to_string(), patch: Some("+x".to_string()), additions: Some(2), deletions: None, status: None };
    assert_eq!(
        render_diff(&vec![e], "s1"),
        "# Diff: `s1`\n\n## `a.rs`  \n**Status**: unknown · **+2/-0**  \n\n```diff\n+x\n```\n\n"
    );
}

#[test]
fn projects_table() {
    let g = ProjectGroup { directory: "/p".to_string(), session_count: 3, total_messages: 10, last_active: 1_700_000_000_000 };
    assert_eq!(
        render_projects(&vec![g]),
        "# Projects\n\n| # | Directory | Sessions | Messages | Last Active |\n|---|---|---|---|---|\n| 1 | `/p` | 3 | 10 | 11-14 22:13 |\n"
    );
}

#[test]
fn session_list_entry() {
    assert_eq!(
        render_session_list(&vec![session("ses_1", "T")]),
        "# OpenCode Sessions\n\n## [`ses_1`](opencode://session/ses_1)  \n**T** | `2` messages | Model: `unknown`  \n📁 /home/u/proj  \n🕐 1970-01-01 00:00:00 UTC (+1/-0)  \n\n"
    );
}

#[test]
fn compact_lines_are_tab_separated() {
    let lines = render_session_list_compact(&vec![session("ses_1", "T")]);
    assert_eq!(lines, vec!["ses_1\t01-01 00:00\t2\tunknown\t$1.23\tproj\tT".to_string()]);
    let mut free = session("ses_2", "U");
    free.total_cost = 0;
    assert_eq!(render_session_list_compact(&vec![free])[0], "ses_2\t01-01 00:00\t2\tunknown\t\tproj\tU");
}

#[test]
fn prune_plan_shortens_long_ids() {
    let s = session("ses_0123456789abcdefXYZ", "Old");
    assert_eq!(
        render_prune_plan(&vec![s], 30),
        "# Prune Plan: sessions older than 30 days\n\n**1 session(s) will be deleted.**\n\n| Session | Title | Messages | Created |\n|---|---|---|---|\n| `ses_0123456789ab…` | Old | 2 | 01-01 00:00 |\n"
    );
    assert_eq!(
        render_prune_plan(&vec![], 7),
        "# Prune Plan: sessions older than 7 days\n\n**0 session(s) will be deleted.**\n\n"
    );
}

#[test]
fn top_sessions_table() {
    let e = TopSessionEntry {
        id: "ses_1".to_string(),
        title: "T".to_string(),
        directory: "/d".to_string(),
        time_created: 0,
        msg_count: 4,
        total_cost: 1_500_000,
        total_tokens: 30,
        total_input: 10,
        total_output: 20,
    };
    assert_eq!(
        render_top_sessions(&vec![e], "tokens"),
        "# Top Sessions by Token Usage\n\n| # | Session | Messages | Tokens (in/out) | Cost | Last Active |\n|---|---|---|---|---|---|\n| 1 | `ses_1` T | 4 | 10/20 | $1.500000 | 01-01 00:00 |\n"
    );
}

fn hit(sid: &str, title: &str, snippet: &str) -> SearchResult {
    SearchResult {
        session_id: sid.to_string(),
        session_title: title.to_string(),
        time_created: 0,
        message_id: "m".to_string(),
        msg_time_created: 1_700_000_000_000,
        snippet: snippet.to_string(),
    }
}

#[test]
fn search_results_grouped_by_session() {
    let rs = vec![hit("b", "B", "x foo y"), hit("a", "A", "foo"), hit("b", "B", "foo foo")];
    let out = render_search_results(&rs, "foo");
    assert_eq!(
        out,
        "# Search Results for \"foo\"\n\n\
## [`A`](opencode://session/a)  \n📁 Session: `a` · 01-01 00:00 · 1 match(es)  \n\n> 🕐 22:13:20 · **foo**\n\n\n\
## [`B`](opencode://session/b)  \n📁 Session: `b` · 01-01 00:00 · 2 match(es)  \n\n> 🕐 22:13:20 · x **foo** y\n\n> 🕐 22:13:20 · **foo** **foo**\n\n\n"
    );
    assert_eq!(render_search_results(&vec![], "q\"x"), "# Search Results for \"q\\\"x\"\n\nNo results found.\n");
}

#[test]
fn user_message_markdown() {
    let m = message("m1", data("user"), vec![part("p1", "m1", "text", Some("hello"))]);
    assert_eq!(render_message_only(&m, true), "## 🧑 User (22:13:20)\n\nhello\n---\n\n");
}

#[test]
fn assistant_message_markdown() {
    let mut d = data("assistant");
    d.agent = Some("build".to_string());
    d.tokens = Some(TokenUsage { total: Some(42), input: None, output: None, reasoning: None, cache: None });
    d.cost = Some(1_500);
    let mut finish = part("p3", "m2", "step-finish", None);
    finish.data.reason = Some("stop".to_string());
    let m = message(
        "m2",
        d,
        vec![part("p1", "m2", "reasoning", Some("think\nmore")), part("p2", "m2", "text", Some("answer")), finish],
    );
    assert_eq!(
        render_message_only(&m, false),
        "## 🤖 build (22:13:20) · 42 tokens · $0.001500\n\n<details>\n<summary>💭 Reasoning</summary>\n\n> think\n> more\n\n</details>\n\nthink\nmore\nanswer\n\n> ⏹ Finished: `stop`\n\n---\n\n"
    );
    assert_eq!(render_message_compact(&m), "[22:13:20] 🤖 build · 42 tokens · $0.001500: think\nmore\nanswer");
}

#[test]
fn compact_user_preview_is_cut_at_eighty_chars() {
    let long: String = "x".repeat(81);
    let m = message("m1", data("user"), vec![part("p1", "m1", "text", Some(&long))]);
    assert_eq!(render_message_compact(&m), format!("[22:13:20] 🧑 User: {}…", "x".repeat(80)));
    let other = message("m2", data("system"), vec![]);
    assert_eq!(render_message_compact(&other), "");
}

#[test]
fn bash_tool_call() {
    let mut p = part("p1", "m1", "tool", None);
    p.data.tool = Some("bash".to_string());
    p.data.state = Some(ToolState {
        status: "completed".to_string(),
        input: Some(ToolInput { command: Some("ls".to_string()), pretty: "{\n  \"command\": \"ls\"\n}".to_string() }),
        output: Some("a\nb".to_string()),
    });
    let mut out = String::new();
    render_tool_call(&mut out, &p);
    assert_eq!(out, "**🛠 Tool: `bash`** (status: `completed`)  \n```bash\nls\n```\n\n**Output:**\n```\na\nb\n```\n\n");
}

#[test]
fn other_tool_call_shows_pretty_input() {
    let mut p = part("p1", "m1", "tool", None);
    p.data.tool = Some("read".to_string());
    p.data.state = Some(ToolState {
        status: "done".to_string(),
        input: Some(ToolInput { command: None, pretty: "{}".to_string() }),
        output: None,
    });
    let mut out = String::new();
    render_tool_call(&mut out, &p);
    assert_eq!(out, "**🛠 Tool: `read`** (status: `done`)  \n**Input:**\n```json\n{}\n```\n\n");
}

#[test]
fn long_tool_output_is_cut_at_two_thousand_bytes() {
    let mut p = part("p1", "m1", "tool", None);
    p.data.tool = Some("bash".to_string());
    let long = format!("{}é", "a".repeat(1999));
    p.data.state = Some(ToolState { status: "ok".to_string(), input: None, output: Some(long) });
    let mut out = String::new();
    render_tool_call(&mut out, &p);
    assert_eq!(
        out,
        format!("**🛠 Tool: `bash`** (status: `ok`)  \n**Output:**\n```\n{}...\n*(output truncated to 2000 chars)*\n```\n\n", "a".repeat(1999))
    );
}

#[test]
fn session_header_and_detail() {
    let mut s = session("ses_1", "Title");
    s.summary_files = Some(3);
    let header = render_session_header(&s);
    assert_eq!(
        header,
        "# Title\n\n---\n\n**Session**: `ses_1`  \n**Model**: `unknown`  \n**Directory**: `/home/u/proj`  \n**Created**: 1970-01-01 00:00:00  \n**Updated**: 2023-11-14 22:13:20  \n**Messages**: 2  \n**Files changed**: 3 (+1/-0)  \n\n---\n\n"
    );
    let msgs = vec![message("m1", data("user"), vec![])];
    let detail = render_session_detail(&s, &msgs, true);
    assert_eq!(detail, format!("{header}## 🧑 User (22:13:20)\n\n---\n\n"));
    assert_eq!(render_message_batch(&msgs, true), "## 🧑 User (22:13:20)\n\n---\n\n");
}

#[test]
fn session_preview_card() {
    assert_eq!(
        render_session_preview(&session("ses_1", "T")),
        "────────────────────────────────────────\nTitle:    T\nSession:  ses_1\nModel:    unknown\nProject:  proj\nMessages: 2\nCost:     $1.2346\nCreated:  01-01 00:00 (+1/0)\n────────────────────────────────────────"
    );
}
