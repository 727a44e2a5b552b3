use ocs::md_events::{MdEvent, MdTag, MdTagEnd};
use ocs::md_render::{render_events, render_markdown};
use ocs::styling::{
    apply_terminal_styles, highlight_code_blocks, highlight_snippet, preprocess_markdown, push_alternated,
    style_data_text,
};

#[test]
fn heading_is_bold() {
    assert_eq!(render_markdown("# Title"), "\x1b[1mTitle\x1b[0m\n");
    assert_eq!(render_markdown("## Sub"), "\x1b[92m\x1b[1mSub\x1b[0m\n");
}

#[test]
fn emphasis_inside_a_paragraph() {
    assert_eq!(render_markdown("Hello *world*"), "Hello \x1b[3mworld\x1b[23m\n");
}

#[test]
fn bullet_and_ordered_lists() {
    assert_eq!(render_markdown("- a\n- b"), "\x1b[37m•\x1b[0m a\n\x1b[37m•\x1b[0m b\n\n");
    assert_eq!(render_markdown("1. a\n2. b"), "1.\x1b[0m a\n2.\x1b[0m b\n\n");
}

#[test]
fn links_get_numbered_notes() {
    assert_eq!(
        render_markdown("[x](http://e.com)"),
        "\x1b[4m\x1b[34mx\x1b[0m\x1b[2m[1]\x1b[0m\n\x1b[2m [1]: http://e.com\x1b[0m\n"
    );
}

#[test]
fn data_in_text_is_highlighted() {
    // The parser splits text at `$` (a math delimiter), so a cost inside a
    // paragraph reaches the highlighter in pieces and stays plain.
    assert_eq!(render_markdown("cost $1.50 and 42 tokens"), "cost $1.50 and \x1b[35m42 tokens\x1b[0m\n");
    assert_eq!(style_data_text("cost $1.50"), "cost \x1b[33m$1.50\x1b[0m");
    assert_eq!(style_data_text("(+3/-1)"), "(\x1b[32m+3\x1b[0m/\x1b[31m-1\x1b[0m)");
    assert_eq!(style_data_text("> ⏹ done"), "\x1b[1m\x1b[33m> ⏹ done\x1b[0m");
    assert_eq!(style_data_text("plain"), "plain");
}

#[test]
fn table_rows_are_boxed() {
    let out = render_markdown("| a | b |\n|---|---|\n| 1 | 22 |");
    assert_eq!(out, "┌─────┬─────┐\n│ 1   │ 22  │\n├─────┼─────┤\n\n└─────┴─────┘\n\n");
}

#[test]
fn unlabelled_code_block_text_is_written_plain() {
    assert_eq!(render_markdown("```\ncode\n```"), "code\n\n");
}

#[test]
fn block_quote_lines_get_a_bar() {
    let events = vec![
        MdEvent::Start(MdTag::BlockQuote),
        MdEvent::Start(MdTag::Paragraph),
        MdEvent::Text("q".to_string()),
        MdEvent::End(MdTagEnd::Paragraph),
        MdEvent::End(MdTagEnd::BlockQuote),
    ];
    assert_eq!(render_events(&events), "\x1b[2m│\x1b[0m q\n");
    assert_eq!(render_markdown("> q"), "\x1b[2m│\x1b[0m q\n");
}

#[test]
fn unbalanced_end_events_do_not_fail() {
    let events = vec![MdEvent::End(MdTagEnd::BlockQuote), MdEvent::End(MdTagEnd::TableCell), MdEvent::Text("x".to_string())];
    assert_eq!(render_events(&events), "x");
}

#[test]
fn html_is_dimmed_without_brackets() {
    let events = vec![MdEvent::Html("<b>".to_string()), MdEvent::InlineHtml("  ".to_string()), MdEvent::Rule];
    let mut rule = String::from("\x1b[2m");
    rule.push_str(&"─".repeat(60));
    rule.push_str("\x1b[0m\n");
    assert_eq!(render_events(&events), format!("\x1b[2mb\x1b[0m{rule}"));
}

#[test]
fn long_code_blocks_are_not_highlighted() {
    let code: String = (0..101).map(|i| format!("line {i}\n")).collect();
    let out = highlight_snippet(&code, "rust");
    assert_eq!(
        out,
        format!("\x1b[1m\x1b[38;5;245m┌─ rust (101 lines, highlighting skipped)\x1b[0m\n{code}\n\x1b[1m\x1b[38;5;245m└─\x1b[0m")
    );
    let short = highlight_snippet("let x = 1;", "rust");
    assert!(short.contains("let"));
    assert!(short.ends_with('\n'));
    assert_ne!(short, "let x = 1;");
}

#[test]
fn details_blocks_are_folded() {
    assert_eq!(preprocess_markdown("<details>\n<summary>Sum</summary>\nBody</details>"), "**▼ Sum**\n\nBody");
    assert_eq!(preprocess_markdown("none"), "none");
}

#[test]
fn terminal_styles_skip_code_blocks() {
    let out = apply_terminal_styles("# T\n`x` **b**\n```\n`keep`\n```\n");
    assert_eq!(out, "\x1b[1mT\x1b[0m\n\x1b[96mx\x1b[0m \x1b[1mb\x1b[22m\n```\n`keep`\n```\n");
}

#[test]
fn code_blocks_are_highlighted_in_place() {
    assert_eq!(highlight_code_blocks("plain\n"), "plain\n");
    let out = highlight_code_blocks("before\n```rust\nlet x = 1;\n```\nafter");
    assert!(out.starts_with("before\n"));
    assert!(out.ends_with("after"));
    assert!(!out.contains("```"));
}

#[test]
fn pieces_and_blocks_alternate() {
    let mut out = String::new();
    push_alternated(&mut out, &vec!["a".to_string(), "b".to_string()], &vec!["X".to_string()]);
    assert_eq!(out, "aXb");
    let mut more = String::new();
    push_alternated(&mut more, &vec![], &vec!["X".to_string(), "Y".to_string()]);
    assert_eq!(more, "XY");
}

#[test]
fn text_after_a_code_block_is_rendered() {
    let out = render_markdown("```rust\nx\n```\n\nhello");
    assert!(out.ends_with("hello\n"), "{out:?}");
    let plain = render_markdown("```\ncode\n```\n\nafter *it*");
    assert_eq!(plain, "code\n\nafter \x1b[3mit\x1b[23m\n");
}

#[test]
fn line_styles_skip_code_fences() {
    let text = "```bash\n# c\n---\n```";
    assert_eq!(apply_terminal_styles(text), text);
    let out = apply_terminal_styles("# T\n```sh\n# c\n```\n## U\n");
    assert_eq!(out, "\x1b[1mT\x1b[0m\n```sh\n# c\n```\n\x1b[92m\x1b[1mU\x1b[0m\n");
}
