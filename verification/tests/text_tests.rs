use ocs::ansi::{strip_ansi, truncate_ansi, visible_width};
use ocs::cmd::{prefix_before, selected_session_id, temp_path_for, validate_session_id};
use ocs::db::{
    content_search_query, like_contains_pattern, parse_top_sort, parts_batch_query, session_list_query,
    sessions_by_ids_query, snippet_around,
    top_sessions_sql, truncate_with_context, SqlValue, TopSort, CONTENT_SEARCH_SELECT,
    SESSION_LIST_SELECT, TOP_SESSIONS_SELECT,
};
use ocs::split::{blank, byte_len, split_lines, trim};
use ocs::text::{push_cost, push_fixed_ratio, push_last_segment, push_replaced, str_contains};
use ocs::timefmt::{format_timestamp, parse_date, ts_to_compact, ts_to_iso, ts_to_iso_short, ts_to_time};

fn cost(micros: i64, p: u32) -> String {
    let mut s = String::new();
    push_cost(&mut s, micros, p);
    s
}

#[test]
fn cost_text_rounds_half_to_even() {
    assert_eq!(cost(1_234_567, 4), "1.2346");
    assert_eq!(cost(1_234_567, 2), "1.23");
    assert_eq!(cost(125_000, 2), "0.12");
    assert_eq!(cost(135_000, 2), "0.14");
    assert_eq!(cost(0, 4), "0.0000");
    assert_eq!(cost(-2_500_000, 0), "-2");
    assert_eq!(cost(5_000, 6), "0.005000");
}

#[test]
fn fixed_ratio_percentages() {
    let mut s = String::new();
    push_fixed_ratio(&mut s, 100, 3, 1);
    assert_eq!(s, "33.3");
    let mut t = String::new();
    push_fixed_ratio(&mut t, 200, 3, 1);
    assert_eq!(t, "66.7");
}

#[test]
fn last_segment_and_replace() {
    let mut s = String::new();
    push_last_segment(&mut s, "/home/u/proj");
    assert_eq!(s, "proj");
    let mut t = String::new();
    push_last_segment(&mut t, "/home/u/");
    assert_eq!(t, "");
    let mut r = String::new();
    push_replaced(&mut r, "a|b|c", "|", "\\|");
    assert_eq!(r, "a\\|b\\|c");
    assert!(str_contains("hello world", "o w"));
    assert!(!str_contains("hello", "world"));
}

#[test]
fn session_ids_that_traverse_are_refused() {
    assert!(validate_session_id("ses_abc123").is_ok());
    assert!(validate_session_id("../etc").is_err());
    assert!(validate_session_id("a/b").is_err());
    assert!(validate_session_id("a\0b").is_err());
    let e = validate_session_id("..").unwrap_err();
    assert_eq!(e.message(), "Invalid session ID: path traversal detected");
}

#[test]
fn output_paths_with_dotdot_are_refused() {
    assert_eq!(temp_path_for("out/x.md").ok(), Some("out/x.md.tmp".to_string()));
    let e = temp_path_for("../x.md").unwrap_err();
    assert_eq!(e.path, "../x.md");
    assert_eq!(e.message(), "Output path must not contain '..': ../x.md");
}

#[test]
fn selector_output_gives_the_session_id() {
    assert_eq!(prefix_before("ses_1\ttitle", '\t'), "ses_1");
    assert_eq!(selected_session_id("ses_1\tMy title\t3 msgs\n"), Some("ses_1".to_string()));
    assert_eq!(selected_session_id(""), None);
    assert_eq!(selected_session_id("   \n"), None);
}

#[test]
fn snippet_around_first_match() {
    assert_eq!(truncate_with_context("Hello World foo bar", "world", 4), "...o World f...");
    assert_eq!(truncate_with_context("short", "zzz", 10), "short");
    assert_eq!(truncate_with_context("abcdefghij", "zzz", 4), "abcd...");
    assert_eq!(truncate_with_context("abc", "ABC", 100), "abc");
}

#[test]
fn like_pattern_escapes_wildcards() {
    assert_eq!(like_contains_pattern("a%b_c"), "%a\\%b\\_c%");
    assert_eq!(like_contains_pattern("plain"), "%plain%");
}

#[test]
fn top_sort_names() {
    assert_eq!(parse_top_sort("cost").ok(), Some(TopSort::Cost));
    assert_eq!(parse_top_sort("tokens").ok(), Some(TopSort::Tokens));
    assert_eq!(parse_top_sort("msgs").ok(), Some(TopSort::Msgs));
    let e = parse_top_sort("size").unwrap_err();
    assert_eq!(e.field, "size");
    assert_eq!(e.message(), "Invalid sort field: size. Use 'cost', 'tokens', or 'msgs'.");
    let sql = top_sessions_sql(TopSort::Tokens);
    assert!(sql.starts_with(TOP_SESSIONS_SELECT));
    assert!(sql.contains("total_tokens DESC"));
}

#[test]
fn session_list_query_without_filters() {
    let q = session_list_query(20, None, None, None, None, None, false, false);
    assert!(q.sql.starts_with(SESSION_LIST_SELECT));
    assert!(q.sql.ends_with("LIMIT ?1"));
    assert_eq!(q.params.len(), 1);
    assert!(matches!(q.params[0], SqlValue::Integer(20)));
}

#[test]
fn content_search_query_binds_the_pattern() {
    let q = content_search_query("50%", 10, None, None, None);
    assert!(q.sql.starts_with(CONTENT_SEARCH_SELECT));
    assert!(matches!(&q.params[0], SqlValue::Text(t) if t == "%50\\%%"));
}

#[test]
fn ansi_sequences_are_stripped_and_not_counted() {
    assert_eq!(strip_ansi("\x1b[1;31mred\x1b[0m plain"), "red plain");
    assert_eq!(visible_width("\x1b[32mab\x1b[0m"), 2);
    assert_eq!(visible_width("日本"), 4);
    assert_eq!(truncate_ansi("abcdef", 3), "abc");
    assert_eq!(truncate_ansi("\x1b[1mabcdef", 2), "\x1b[1mab");
    assert_eq!(truncate_ansi("ab\x1b[3", 5), "ab\x1b[3m");
    assert_eq!(truncate_ansi("ab", 3), "ab");
}

#[test]
fn trimming_and_lines() {
    assert_eq!(trim("  a b \n"), "a b");
    assert!(blank(" \t\n"));
    assert!(!blank(" x "));
    assert_eq!(split_lines("a\nb\r\nc"), vec!["a".to_string(), "b".to_string(), "c".to_string()]);
    assert_eq!(split_lines("a\n"), vec!["a".to_string()]);
    assert_eq!(byte_len("é"), 2);
}

#[test]
fn timestamps_format_in_utc() {
    assert_eq!(ts_to_iso(0), "1970-01-01 00:00:00 UTC");
    assert_eq!(ts_to_iso_short(1_700_000_000_000), "2023-11-14 22:13:20");
    assert_eq!(ts_to_compact(1_700_000_000_000), "11-14 22:13");
    assert_eq!(ts_to_time(1_700_000_000_500), "22:13:20");
    assert_eq!(format_timestamp(1_700_000_000_999), "22:13:20");
    assert_eq!(ts_to_iso(i64::MAX), format!("(invalid timestamp {})", i64::MAX));
    assert_eq!(ts_to_compact(i64::MAX), "");
    assert_eq!(format_timestamp(i64::MAX), "??:??:??");
}

#[test]
fn dates_parse_as_utc_milliseconds() {
    assert_eq!(parse_date("1970-01-02"), Some(86_400_000));
    assert_eq!(parse_date("2023-11-14 22:13:20"), Some(1_700_000_000_000));
    assert_eq!(parse_date("yesterday"), None);
}

#[test]
fn snippet_around_a_given_lowered_match() {
    assert_eq!(snippet_around("Hello", "hello", "ll", 2, 2), "...ello");
    assert_eq!(snippet_around("Hello", "hello", "zz", 2, 3), "Hel...");
    assert_eq!(snippet_around("ab", "xxxxab", "ab", 2, 0), "...");
}

#[test]
fn lookups_by_id_bind_one_placeholder_each() {
    assert_eq!(
        parts_batch_query(3),
        "SELECT id, message_id, data FROM part WHERE message_id IN (?1,?2,?3) ORDER BY id ASC"
    );
    assert_eq!(parts_batch_query(1), "SELECT id, message_id, data FROM part WHERE message_id IN (?1) ORDER BY id ASC");
    assert_eq!(
        sessions_by_ids_query(2),
        format!("{SESSION_LIST_SELECT} WHERE s.id IN (?1,?2) ORDER BY s.time_created DESC")
    );
}

#[test]
fn cutting_a_cut_line_again_changes_nothing() {
    for (line, w) in [("\x1b[1mabcdef\x1b[0m", 3), ("ab\x1b[3", 5), ("xyz", 0), ("héllo wörld", 4)] {
        let once = truncate_ansi(line, w);
        assert_eq!(truncate_ansi(&once, w), once);
    }
}

#[test]
fn truncation_counts_display_columns() {
    assert_eq!(truncate_ansi("你好你", 2), "你");
    assert_eq!(truncate_ansi("你好你", 3), "你");
    assert_eq!(truncate_ansi("你a好b", 3), "你a");
    assert_eq!(truncate_ansi("\x1b[1m你好\x1b[0m", 3), "\x1b[1m你\x1b[0m");
    assert_eq!(visible_width(&truncate_ansi("ab你好cd", 5)), 4);
}
