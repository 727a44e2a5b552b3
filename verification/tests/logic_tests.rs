use ocs::db::{attach_parts, message_text};
use ocs::manage::{
    confirms, insert_lines_at, pager_prefix, parse_format, parse_undo_action, pick_line, push_annotation_lines,
    render_tag_table, sanitize_part, undo_menu, BatchCursor, OutputFormat, UndoAction,
};
use ocs::models::{Message, MessageData, MessageWithParts, Part, PartData, TokenUsage, ToolInput, ToolState};
use ocs::run::{
    check_directory, cut_output, last_user_message, needs_pager, parse_after_run, prompt_args, prompt_from, prompt_key,
    redraw_input_text, run_args, AfterRun, DirCheck, PromptKey, PromptStep, WatchState,
};
use ocs::stats::{aggregate_usage, message_totals, session_stats, stats_in_range, totals_in_range, try_session_stats};
use ocs::pager::KeyCode;

fn data(role: &str, agent: Option<&str>, total: Option<i64>, cost: Option<i64>) -> MessageData {
    MessageData {
        role: role.to_string(),
        agent: agent.map(|a| a.to_string()),
        model: None,
        tokens: total.map(|t| TokenUsage { total: Some(t), input: Some(t / 2), output: Some(t / 4), reasoning: None, cache: None }),
        cost,
        mode: None,
        parent_id: None,
    }
}

fn part(id: &str, msg: &str, ty: &str, text: Option<&str>) -> Part {
    Part {
        id: id.to_string(),
        message_id: msg.to_string(),
        data: PartData {
            part_type: ty.to_string(),
            text: text.map(|t| t.to_string()),
            tool: None,
            call_id: None,
            state: None,
            reason: None,
            time: None,
            done: None,
            body: None,
        },
    }
}

fn msg(id: &str, d: MessageData) -> Message {
    Message { id: id.to_string(), session_id: "s".to_string(), time_created: 1_700_000_000_000, data: d }
}

#[test]
fn session_stats_totals_and_breakdown() {
    let rows = vec![
        data("user", None, None, None),
        data("assistant", Some("build"), Some(100), Some(2_000_000)),
        data("assistant", Some("plan"), Some(40), Some(5_000_000)),
        data("assistant", Some("build"), Some(10), Some(1_000_000)),
    ];
    let st = session_stats("ses", "Title".to_string(), &rows);
    assert_eq!(st.total_messages, 4);
    assert_eq!(st.user_messages, 1);
    assert_eq!(st.assistant_messages, 3);
    assert_eq!(st.total_tokens, 150);
    assert_eq!(st.input_tokens, 50 + 20 + 5);
    assert_eq!(st.total_cost, 8_000_000);
    let agents: Vec<(String, i64, i64, i64)> = st
        .agent_breakdown
        .iter()
        .map(|a| (a.agent.clone(), a.message_count, a.total_tokens, a.total_cost))
        .collect();
    assert_eq!(
        agents,
        vec![
            ("plan".to_string(), 1, 40, 5_000_000),
            ("build".to_string(), 2, 110, 3_000_000),
            ("unknown".to_string(), 1, 0, 0),
        ]
    );
    let counted: i64 = st.agent_breakdown.iter().map(|a| a.message_count).sum();
    assert_eq!(counted, st.total_messages);
}

#[test]
fn totals_and_usage_of_messages() {
    let ms = vec![
        MessageWithParts { message: msg("m1", data("user", Some("build"), None, None)), parts: vec![] },
        MessageWithParts { message: msg("m2", data("assistant", Some("build"), Some(8), Some(250))), parts: vec![] },
        MessageWithParts { message: msg("m3", data("assistant", None, Some(2), None)), parts: vec![] },
    ];
    let t = message_totals(&ms);
    assert_eq!((t.messages, t.user_messages, t.assistant_messages), (3, 1, 2));
    assert_eq!((t.total_tokens, t.total_cost), (10, 250));
    let u = aggregate_usage(&ms);
    assert_eq!((u.total_tokens, u.input_tokens, u.output_tokens, u.total_cost), (10, 5, 2, 250));
    assert_eq!(u.agent_counts, vec![("build".to_string(), 2)]);
}

#[test]
fn parts_go_to_their_messages() {
    let msgs = vec![msg("m1", data("user", None, None, None)), msg("m2", data("assistant", None, None, None))];
    let parts = vec![
        part("p1", "m2", "text", Some("a")),
        part("p2", "m1", "text", Some("b")),
        part("p3", "zz", "text", Some("c")),
        part("p4", "m2", "text", Some("d")),
    ];
    let r = attach_parts(msgs, parts);
    assert_eq!(r.len(), 2);
    let ids = |m: &MessageWithParts| m.parts.iter().map(|p| p.id.clone()).collect::<Vec<_>>();
    assert_eq!(ids(&r[0]), vec!["p2".to_string()]);
    assert_eq!(ids(&r[1]), vec!["p1".to_string(), "p4".to_string()]);
    assert_eq!(r[1].text_body(), "a\nd");
}

#[test]
fn message_text_joins_and_trims() {
    let parts = vec![
        part("p1", "m", "text", Some("  first")).data,
        part("p2", "m", "tool", Some("skip")).data,
        part("p3", "m", "reasoning", Some("second  ")).data,
    ];
    assert_eq!(message_text(&parts), "first\nsecond");
}

#[test]
fn run_arguments() {
    assert_eq!(run_args("ses_1", Some("/proj"), true, false), vec!["run", "-s", "ses_1", "--dir", "/proj", "--fork"]);
    assert_eq!(run_args("", None, false, true), vec!["run", "-c"]);
    assert_eq!(run_args("ses_1", Some(""), false, false), vec!["run", "-s", "ses_1"]);
    assert_eq!(prompt_args("", None, false, false, true), vec!["run"]);
    assert_eq!(prompt_args("", None, true, false, false), vec!["run", "-c", "--fork"]);
    assert_eq!(prompt_args("ses_1", Some("a\0b"), false, true, true), vec!["run", "-s", "ses_1"]);
    assert_eq!(check_directory(""), DirCheck::Empty);
    assert_eq!(check_directory("a\0"), DirCheck::Invalid);
    assert_eq!(check_directory(&"x".repeat(4097)), DirCheck::Invalid);
    assert_eq!(check_directory("/ok"), DirCheck::Usable);
}

#[test]
fn prompts_and_choices() {
    assert_eq!(prompt_from("  \n".to_string()), None);
    assert_eq!(prompt_from(" hi ".to_string()), Some(" hi ".to_string()));
    assert_eq!(parse_after_run(" U \n"), AfterRun::Undo);
    assert_eq!(parse_after_run("\n"), AfterRun::Next);
    assert_eq!(parse_after_run("q"), AfterRun::Quit);
    assert!(confirms("Yes\n"));
    assert!(!confirms("nope"));
    assert_eq!(parse_undo_action(" D"), UndoAction::Delete);
    assert_eq!(parse_undo_action("e\n"), UndoAction::Edit);
    assert_eq!(parse_undo_action("x"), UndoAction::Cancel);
}

#[test]
fn output_is_cut_before_rendering() {
    let small = cut_output("abc".to_string());
    assert_eq!((small.text.as_str(), small.kept_kb), ("abc", None));
    let big = format!("{}\n{}", "a".repeat(600_000), "b".repeat(600_000));
    let cut = cut_output(big);
    assert_eq!(cut.text, "a".repeat(600_000));
    assert_eq!(cut.kept_kb, Some(600_000 / 1024));
    let no_newline = cut_output("c".repeat(1_000_005));
    assert_eq!(no_newline.text.len(), 1_000_000);
    assert_eq!(no_newline.kept_kb, Some(1_000_000 / 1024));
    assert!(needs_pager("a\nb\nc", 2));
    assert!(!needs_pager("a\nb", 2));
}

#[test]
fn undo_takes_the_last_user_message() {
    let ms = vec![
        msg("m1", data("user", None, None, None)),
        msg("m2", data("user", None, None, None)),
        msg("m3", data("assistant", None, None, None)),
    ];
    assert_eq!(last_user_message(&ms), Some(1));
    assert_eq!(last_user_message(&vec![msg("m3", data("assistant", None, None, None))]), None);
}

#[test]
fn prompt_editor_keys() {
    let mut text = String::from("ab");
    let key = |code, shift, control| PromptKey { code, shift, control };
    assert_eq!(prompt_key(&mut text, key(KeyCode::Char('c'), false, false)), PromptStep::Continue { redraw: true });
    assert_eq!(prompt_key(&mut text, key(KeyCode::Enter, true, false)), PromptStep::Continue { redraw: true });
    assert_eq!(text, "abc\n");
    assert_eq!(prompt_key(&mut text, key(KeyCode::Backspace, false, false)), PromptStep::Continue { redraw: true });
    assert_eq!(text, "abc");
    assert_eq!(prompt_key(&mut text, key(KeyCode::Char('\u{7}'), false, false)), PromptStep::Continue { redraw: false });
    assert_eq!(prompt_key(&mut text, key(KeyCode::Char('d'), false, true)), PromptStep::Cancel);
    assert_eq!(prompt_key(&mut text, key(KeyCode::Enter, false, false)), PromptStep::Submit);
    assert_eq!(text, "abc");
    assert_eq!(redraw_input_text("a\nb"), "a\r\nb\r\n");
    assert_eq!(redraw_input_text("a\n"), "a\r\n\r\n");
}

#[test]
fn watch_prints_only_new_user_and_assistant_messages() {
    let mut w = WatchState { last_count: 1, last_data_version: 5 };
    assert!(!w.data_changed(5));
    assert!(w.data_changed(6));
    assert_eq!(w.last_data_version, 6);
    assert!(w.has_new(3));
    assert!(!w.has_new(1));
    let ms = vec![
        MessageWithParts { message: msg("m1", data("user", None, None, None)), parts: vec![] },
        MessageWithParts { message: msg("m2", data("system", None, None, None)), parts: vec![] },
        MessageWithParts { message: msg("m3", data("assistant", None, None, None)), parts: vec![] },
    ];
    assert_eq!(w.to_print(&ms), vec![2]);
    let beyond = WatchState { last_count: 9, last_data_version: 0 };
    assert!(beyond.to_print(&ms).is_empty());
}

#[test]
fn tag_table_and_formats() {
    assert_eq!(
        render_tag_table(&vec![("bug".to_string(), 2)]),
        vec![format!("{:<20} {}", "Tag", "Sessions"), "-".repeat(30), format!("{:<20} {}", "bug", 2)]
    );
    assert!(matches!(parse_format("markdown"), Ok(OutputFormat::Markdown)));
    assert!(matches!(parse_format("json"), Ok(OutputFormat::Json)));
    let e = parse_format("pdf").err().unwrap();
    assert_eq!(e.message(), "Unsupported format: 'pdf'. Use 'markdown' or 'json'.");
}

#[test]
fn sanitized_parts_hide_content() {
    let mut p = part("p1", "m", "tool", None);
    p.data.state = Some(ToolState {
        status: "done".to_string(),
        input: Some(ToolInput { command: Some("rm".to_string()), pretty: "{}".to_string() }),
        output: Some("secret".to_string()),
    });
    let q = sanitize_part(p);
    let st = q.data.state.unwrap();
    assert!(st.input.is_none());
    assert_eq!(st.output.as_deref(), Some("[redacted]"));
    let t = sanitize_part(part("p2", "m", "text", Some("private")));
    assert_eq!(t.data.text.as_deref(), Some("[redacted]"));
    let other = sanitize_part(part("p3", "m", "step-start", Some("kept")));
    assert_eq!(other.data.text.as_deref(), Some("kept"));
}

#[test]
fn pager_batches_go_backwards() {
    assert_eq!(BatchCursor { offset: 120 }.next_batch(), Some((70, 50)));
    assert_eq!(BatchCursor { offset: 30 }.next_batch(), Some((0, 30)));
    assert_eq!(BatchCursor { offset: 0 }.next_batch(), None);
    assert_eq!(pager_prefix("ses_1", 42), "ses_1 | msgs:42/42 | ");
    let mut lines = vec!["h".to_string(), "x".to_string()];
    assert_eq!(insert_lines_at(&mut lines, vec!["a".to_string(), "b".to_string()], 1), 2);
    assert_eq!(lines, vec!["h", "a", "b", "x"]);
    let mut header = vec!["h".to_string()];
    push_annotation_lines(&mut header, "note");
    assert_eq!(
        header,
        vec![
            "h".to_string(),
            String::new(),
            "\x1b[33m📝 Annotation: note\x1b[0m".to_string(),
            "\x1b[2m————————————————————————————————\x1b[0m".to_string(),
            String::new()
        ]
    );
}

#[test]
fn undo_menu_line() {
    let m = MessageWithParts {
        message: msg("msg_1", data("user", None, None, None)),
        parts: vec![part("p0", "msg_1", "tool", Some("no")), part("p1", "msg_1", "text", Some(&"y".repeat(90)))],
    };
    assert_eq!(pick_line(&m), format!("msg_1\t22:13:20  user\t{}", "y".repeat(80)));
}

#[test]
fn sums_out_of_range_are_refused() {
    let ok = vec![data("assistant", Some("build"), Some(10), Some(1_000_000))];
    assert!(stats_in_range(&ok));
    let st = try_session_stats("ses", "T".to_string(), &ok).expect("in range");
    assert_eq!((st.total_messages, st.total_tokens, st.total_cost), (1, 10, 1_000_000));

    let big = vec![
        data("assistant", Some("build"), None, Some(i64::MAX)),
        data("assistant", Some("plan"), None, Some(1)),
    ];
    assert!(!stats_in_range(&big));
    assert!(try_session_stats("ses", "T".to_string(), &big).is_none());

    let ms = vec![
        MessageWithParts { message: msg("m1", data("assistant", None, Some(i64::MAX), None)), parts: vec![] },
        MessageWithParts { message: msg("m2", data("assistant", None, Some(2), None)), parts: vec![] },
    ];
    assert!(!totals_in_range(&ms));
    let one = vec![MessageWithParts { message: msg("m1", data("assistant", None, Some(i64::MAX), None)), parts: vec![] }];
    assert!(totals_in_range(&one));
}

#[test]
fn undo_menu_lists_only_user_messages() {
    let ms = vec![
        MessageWithParts { message: msg("m1", data("user", None, None, None)), parts: vec![part("p1", "m1", "text", Some("first"))] },
        MessageWithParts { message: msg("m2", data("assistant", None, None, None)), parts: vec![] },
        MessageWithParts { message: msg("m3", data("user", None, None, None)), parts: vec![] },
    ];
    assert_eq!(
        undo_menu(&ms),
        Some(vec!["m1\t22:13:20  user\tfirst".to_string(), "m3\t22:13:20  user\t".to_string()])
    );
    let none = vec![MessageWithParts { message: msg("m2", data("assistant", None, None, None)), parts: vec![] }];
    assert_eq!(undo_menu(&none), None);
}
