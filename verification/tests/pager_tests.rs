use ocs::pager::{Highlight, KeyCode, KeyEvent, Loader, Pager};

fn key(c: KeyCode) -> KeyEvent {
    KeyEvent { code: c, control: false }
}

fn lines(n: usize) -> Vec<String> {
    (0..n).map(|i| format!("line {i}")).collect()
}

fn type_keys(p: &mut Pager, s: &str, h: usize) {
    for c in s.chars() {
        assert!(!p.handle_key(key(KeyCode::Char(c)), h));
    }
}

#[test]
fn search_finds_matching_lines_ignoring_case_and_escapes() {
    let mut p = Pager::new(vec![
        "alpha".to_string(),
        "\x1b[1mBeta\x1b[0m".to_string(),
        "gamma".to_string(),
        "beta two".to_string(),
    ]);
    type_keys(&mut p, "/", 2);
    type_keys(&mut p, "BETA", 2);
    assert_eq!(p.status_line(2, 50, 80), "\x1b[7m /BETA \x1b[0m");
    assert!(!p.handle_key(key(KeyCode::Enter), 2));
    assert_eq!(p.top(), 1);
    assert_eq!(p.highlight(1), Highlight::Current);
    assert_eq!(p.highlight(3), Highlight::Match);
    assert_eq!(p.highlight(0), Highlight::Plain);
    assert_eq!(p.frame_line(1, 80), "\x1b[7m\x1b[1mBeta\x1b[0m\x1b[0m\r\n");
    assert_eq!(p.frame_line(3, 4), "\x1b[48;5;236mbeta\x1b[0m\r\n");
    assert_eq!(p.frame_line(0, 80), "alpha\r\n");
    assert_eq!(
        p.status_line(3, 75, 200),
        "\x1b[7m L2-3/4 (75%) | match 1/2 | n/N \x1b[0m"
    );
}

#[test]
fn next_then_previous_match_returns() {
    let mut p = Pager::new(vec!["x".to_string(), "y".to_string(), "x".to_string(), "x".to_string()]);
    type_keys(&mut p, "/x", 1);
    p.handle_key(key(KeyCode::Enter), 1);
    assert_eq!(p.top(), 0);
    type_keys(&mut p, "n", 1);
    assert_eq!(p.top(), 2);
    type_keys(&mut p, "n", 1);
    assert_eq!(p.top(), 3);
    type_keys(&mut p, "n", 1);
    assert_eq!(p.top(), 0);
    type_keys(&mut p, "N", 1);
    assert_eq!(p.top(), 3);
    type_keys(&mut p, "n", 1);
    assert_eq!(p.top(), 0);
}

#[test]
fn go_to_line_and_scrolling() {
    let mut p = Pager::new(lines(100)).with_status_prefix("pre | ");
    type_keys(&mut p, ":", 10);
    type_keys(&mut p, "4x2", 10);
    assert_eq!(p.status_line(10, 10, 80), "\x1b[7m :42 \x1b[0m");
    p.handle_key(key(KeyCode::Enter), 10);
    assert_eq!(p.top(), 41);
    type_keys(&mut p, ":", 10);
    type_keys(&mut p, "500", 10);
    p.handle_key(key(KeyCode::Enter), 10);
    assert_eq!(p.top(), 99);
    type_keys(&mut p, "g", 10);
    assert_eq!(p.top(), 0);
    p.handle_key(key(KeyCode::PageDown), 10);
    assert_eq!(p.top(), 10);
    p.handle_key(KeyEvent { code: KeyCode::Char('d'), control: true }, 10);
    assert_eq!(p.top(), 15);
    p.handle_key(KeyEvent { code: KeyCode::Char('u'), control: true }, 10);
    assert_eq!(p.top(), 10);
    type_keys(&mut p, "G", 10);
    assert_eq!(p.top(), 90);
    p.scroll_wheel_down(10);
    assert_eq!(p.top(), 90);
    p.scroll_wheel_up();
    assert_eq!(p.top(), 87);
    assert_eq!(p.visible_end(10), 97);
    assert_eq!(
        p.status_line(97, 97, 200),
        "\x1b[7m pre | L88-97/100 (97%) | ↑↓ PgUp PgDn Ctrl+U/D g G / q \x1b[0m"
    );
    assert_eq!(p.status_line(97, 97, 5), "\x1b[7m ");
    assert!(p.handle_key(key(KeyCode::Char('q')), 10));
    assert!(p.handle_key(key(KeyCode::Esc), 10));
}

#[test]
fn opening_at_the_bottom_and_clamping() {
    let mut p = Pager::new(lines(30));
    p.scroll_to_bottom(10);
    assert_eq!(p.top(), 20);
    p.clamp_scroll(25);
    assert_eq!(p.top(), 5);
    p.clamp_scroll(40);
    assert_eq!(p.top(), 0);
    assert_eq!(p.line_count(), 30);
}

struct TwoBatches {
    calls: usize,
}

impl Loader for TwoBatches {
    fn load_more(&mut self) -> Vec<String> {
        self.calls += 1;
        if self.calls == 1 {
            vec!["early 1".to_string(), "early 2".to_string()]
        } else {
            vec![]
        }
    }
}

#[test]
fn loaded_lines_go_after_the_header_and_keep_the_view() {
    let mut p = Pager::new(vec!["header".to_string(), "a".to_string(), "b".to_string(), "c".to_string()]);
    p.set_loader(1, Box::new(TwoBatches { calls: 0 }));
    p.handle_key(key(KeyCode::Char('j')), 1);
    p.handle_key(key(KeyCode::Char('j')), 1);
    assert_eq!(p.top(), 2);
    assert_eq!(p.try_load_more(), 2);
    assert_eq!(p.line_count(), 6);
    assert_eq!(p.top(), 4);
    assert_eq!(p.frame_line(1, 80), "early 1\r\n");
    assert_eq!(p.frame_line(4, 80), "b\r\n");
    assert_eq!(p.load_if_near_top(), 0);
    assert_eq!(p.try_load_more(), 0);
    assert_eq!(p.line_count(), 6);
}

#[test]
fn search_after_loading_sees_new_lines() {
    let mut p = Pager::new(vec!["h".to_string(), "zeta".to_string()]);
    p.set_loader(1, Box::new(TwoBatches { calls: 0 }));
    assert_eq!(p.try_load_more(), 2);
    type_keys(&mut p, "/early", 5);
    p.handle_key(key(KeyCode::Enter), 5);
    assert_eq!(p.status_line(3, 100, 100), "\x1b[7m L2-3/4 (100%) | match 1/2 | n/N \x1b[0m");
    p.execute_search();
    assert_eq!(p.top(), 1);
}

#[test]
fn a_loaded_batch_goes_after_the_header() {
    let mut p = Pager::new(vec!["head".to_string(), "late".to_string()]);
    p.set_loader(1, Box::new(TwoBatches { calls: 0 }));
    assert_eq!(p.insert_loaded(vec!["early 1".to_string(), "early 2".to_string()]), 2);
    assert_eq!(p.line_count(), 4);
    assert_eq!(p.frame_line(1, 80), "early 1\r\n");
    assert_eq!(p.frame_line(3, 80), "late\r\n");
    assert_eq!(p.insert_loaded(vec![]), 0);
    assert_eq!(p.line_count(), 4);
}

#[test]
fn navigation_keys_keep_the_view_within_the_content() {
    let mut p = Pager::new(lines(10));
    let h = 4;
    for code in [KeyCode::End, KeyCode::Down, KeyCode::PageDown, KeyCode::Char('j'), KeyCode::Up, KeyCode::Home, KeyCode::PageUp, KeyCode::Char('G')] {
        assert!(!p.handle_key(key(code), h));
        assert!(p.top() <= 10 - h);
        assert_eq!(p.line_count(), 10);
    }
    assert_eq!(p.top(), 6);
    assert!(!p.handle_key(KeyEvent { code: KeyCode::Char('d'), control: true }, h));
    assert_eq!(p.top(), 6);
}
