//! The full-screen pager: its state and how each key and scroll event
//! changes it. Drawing the screen and reading events is done by the
//! application, which hands every event to [`Pager::handle_key`] and the
//! other transition methods here.

use vstd::prelude::*;

use crate::ansi::{strip_ansi, strip_ansi_seq, truncate_ansi, truncate_ansi_seq};
use crate::text::{
    chars_of, contains_seq, dec_nat, lowercase, pop_char, push_char, push_chars_range, push_dec_u128,
    push_dec_usize, str_contains, strs, to_lowercase,
};

verus! {

/// Lines to scroll per mouse-wheel step.
pub const SCROLL_LINES: usize = 3;

/// Scrolling to this line or above asks the loader for earlier content.
pub const LOAD_THRESHOLD: usize = 5;

/// Source of earlier lines, asked when the user scrolls near the top of the
/// content loaded so far.
pub trait Loader {
    /// The next batch of lines that precede the ones loaded so far; an empty
    /// batch means there are no more.
    fn load_more(&mut self) -> Vec<String>;
}

/// The keys the pager tells apart.
#[derive(Clone, Copy, Debug, PartialEq, Eq, Structural)]
pub enum KeyCode {
    Char(char),
    Up,
    Down,
    PageUp,
    PageDown,
    Home,
    End,
    Enter,
    Esc,
    Backspace,
    Other,
}

/// A key press; `control` is true when Control is the only modifier held.
#[derive(Clone, Copy, Debug, PartialEq, Eq, Structural)]
pub struct KeyEvent {
    pub code: KeyCode,
    pub control: bool,
}

/// The pager's state as a mathematical value.
pub struct PagerState {
    pub lines: Seq<Seq<char>>,
    pub scroll_pos: int,
    pub search_mode: bool,
    pub search_query: Seq<char>,
    pub search_matches: Seq<int>,
    pub search_current: int,
    pub goto_mode: bool,
    pub goto_buf: Seq<char>,
    pub status_prefix: Seq<char>,
}

/// A scrollable view over lines of text, with search and go-to-line.
pub struct Pager {
    lines: Vec<String>,
    scroll_pos: usize,
    search_mode: bool,
    search_query: String,
    search_matches: Vec<usize>,
    search_current: usize,
    goto_mode: bool,
    goto_buf: String,
    status_prefix: String,
    loader: Option<Box<dyn Loader>>,
    loader_header: usize,
}

// ───────────────────────── the transitions, as spec ─────────────────────────

/// A control character (Unicode category Cc), as `char::is_control` tells.
pub open spec fn is_control_char(c: char) -> bool {
    (c as int) <= 0x1f || (0x7f <= (c as int) && (c as int) <= 0x9f)
}

/// An ASCII decimal digit.
pub open spec fn is_digit_char(c: char) -> bool {
    48 <= (c as int) <= 57
}

/// The number written by the digits `s`.
pub open spec fn digits_value(s: Seq<char>) -> int
    decreases s.len(),
{
    if s.len() == 0 {
        0
    } else {
        digits_value(s.drop_last()) * 10 + ((s.last() as int) - 48)
    }
}

/// A number written in decimal reads back as that number: its digits are
/// all decimal digits, their value is the number, and it has no leading
/// zero (so typing the line number the pager shows goes to that line).
pub proof fn law_numbers_read_back_as_written(n: nat)
    ensures
        all_digits(crate::text::dec_nat(n)),
        digits_value(crate::text::dec_nat(n)) == n,
        crate::text::dec_nat(n).len() >= 1,
        crate::text::dec_nat(n).len() > 1 ==> crate::text::dec_nat(n)[0] != '0',
    decreases n,
{
    let d = crate::text::dec_nat(n);
    if n < 10 {
        assert(crate::text::digit_char(n) as int == 48 + n);
        assert(d.drop_last() =~= Seq::<char>::empty());
        assert(digits_value(d.drop_last()) == 0);
        assert(digits_value(d) == digits_value(d.drop_last()) * 10 + ((d.last() as int) - 48));
        assert(d.len() > 1 ==> false);
    } else {
        law_numbers_read_back_as_written(n / 10);
        let e = crate::text::dec_nat(n / 10);
        assert(crate::text::digit_char(n % 10) as int == 48 + n % 10);
        assert(d == e.push(crate::text::digit_char(n % 10)));
        assert(d.drop_last() =~= e);
        assert((n / 10) * 10 + n % 10 == n) by (nonlinear_arith);
        assert(('0' as int) == 48);
        assert(d.last() == crate::text::digit_char(n % 10));
        assert(digits_value(d) == digits_value(e) * 10 + ((d.last() as int) - 48));
        assert(e.len() >= 1);
        if n / 10 >= 10 {
            assert(e == crate::text::dec_nat(n / 10 / 10).push(crate::text::digit_char((n / 10) % 10)));
            assert(e.len() > 1);
        }
        if n / 10 < 10 {
            assert(crate::text::digit_char(n / 10) as int == 48 + n / 10);
            assert(e[0] == crate::text::digit_char(n / 10));
        }
        assert forall|i: int| 0 <= i < d.len() implies is_digit_char(#[trigger] d[i]) by {
            if i < e.len() {
                assert(d[i] == e[i]);
            }
        }
        assert(d[0] == e[0]);
    }
}

/// `a - b`, or 0 when `b > a` (`usize::saturating_sub`).
pub open spec fn sat_sub(a: int, b: int) -> int {
    if a > b {
        a - b
    } else {
        0
    }
}

/// The smaller of two integers.
pub open spec fn min_int(a: int, b: int) -> int {
    if a < b {
        a
    } else {
        b
    }
}

/// Whether line `line` matches the search `query`: the line without its
/// control sequences, lowercased, contains the lowercased query.
pub open spec fn line_matches(line: Seq<char>, query: Seq<char>) -> bool {
    contains_seq(lowercase(strip_ansi_seq(line)), lowercase(query))
}

/// The indices of the lines that match `query`, in increasing order.
pub open spec fn matching_lines(lines: Seq<Seq<char>>, query: Seq<char>) -> Seq<int>
    decreases lines.len(),
{
    if lines.len() == 0 {
        Seq::empty()
    } else {
        let rest = matching_lines(lines.drop_last(), query);
        if line_matches(lines.last(), query) {
            rest.push(lines.len() - 1)
        } else {
            rest
        }
    }
}

/// The state after running a search with the current query: the matches are
/// the matching lines; when there are any, the first is current and the view
/// scrolls to it. An empty query clears the matches.
pub open spec fn searched(s: PagerState) -> PagerState {
    if s.search_query.len() == 0 {
        PagerState { search_matches: Seq::empty(), search_current: 0, ..s }
    } else {
        let m = matching_lines(s.lines, s.search_query);
        if m.len() > 0 {
            PagerState { search_matches: m, search_current: 0, scroll_pos: m[0], ..s }
        } else {
            PagerState { search_matches: m, search_current: 0, ..s }
        }
    }
}

/// A key in search-input mode.
pub open spec fn search_key_step(s: PagerState, key: KeyEvent) -> PagerState {
    match key.code {
        KeyCode::Char(c) => if !is_control_char(c) {
            PagerState { search_query: s.search_query.push(c), ..s }
        } else {
            s
        },
        KeyCode::Backspace => PagerState {
            search_query: if s.search_query.len() > 0 {
                s.search_query.drop_last()
            } else {
                s.search_query
            },
            ..s
        },
        KeyCode::Enter => PagerState { search_mode: false, ..searched(s) },
        KeyCode::Esc => PagerState { search_mode: false, search_query: Seq::empty(), ..s },
        _ => s,
    }
}

/// A key in go-to-line mode. Enter jumps to the line number typed (1-based,
/// at most the last line); a number that is 0 or does not fit in `usize` is
/// ignored.
pub open spec fn goto_key_step(s: PagerState, key: KeyEvent) -> PagerState {
    match key.code {
        KeyCode::Char(c) => if is_digit_char(c) {
            PagerState { goto_buf: s.goto_buf.push(c), ..s }
        } else {
            s
        },
        KeyCode::Backspace => PagerState {
            goto_buf: if s.goto_buf.len() > 0 {
                s.goto_buf.drop_last()
            } else {
                s.goto_buf
            },
            ..s
        },
        KeyCode::Enter => {
            let ok = s.goto_buf.len() > 0 && digits_value(s.goto_buf) <= usize::MAX;
            let n = digits_value(s.goto_buf);
            let pos = if ok && n > 0 {
                min_int(n - 1, sat_sub(s.lines.len() as int, 1))
            } else {
                s.scroll_pos
            };
            PagerState { scroll_pos: pos, goto_mode: false, goto_buf: Seq::empty(), ..s }
        },
        KeyCode::Esc => PagerState { goto_mode: false, goto_buf: Seq::empty(), ..s },
        _ => s,
    }
}

/// A key in normal mode with `h` visible lines; the flag tells whether the
/// key quits the pager (`q` or Esc).
pub open spec fn normal_key_step(s: PagerState, key: KeyEvent, h: int) -> (PagerState, bool) {
    let len = s.lines.len() as int;
    let pos = s.scroll_pos;
    let c = key.code;
    let up = c == KeyCode::Up || c == KeyCode::Char('k');
    let down = c == KeyCode::Down || c == KeyCode::Char('j');
    let half = if h / 2 > 1 {
        h / 2
    } else {
        1
    };
    let nm = s.search_matches.len();
    if up && pos > 0 {
        (PagerState { scroll_pos: pos - 1, ..s }, false)
    } else if down && pos + h < len {
        (PagerState { scroll_pos: pos + 1, ..s }, false)
    } else if c == KeyCode::PageUp {
        (PagerState { scroll_pos: sat_sub(pos, h), ..s }, false)
    } else if c == KeyCode::PageDown {
        (PagerState { scroll_pos: min_int(pos + h, sat_sub(len, h)), ..s }, false)
    } else if c == KeyCode::Char('u') && key.control {
        (PagerState { scroll_pos: sat_sub(pos, half), ..s }, false)
    } else if c == KeyCode::Char('d') && key.control {
        (PagerState { scroll_pos: min_int(pos + half, sat_sub(len, h)), ..s }, false)
    } else if c == KeyCode::Home || c == KeyCode::Char('g') {
        (PagerState { scroll_pos: 0, ..s }, false)
    } else if c == KeyCode::End || c == KeyCode::Char('G') {
        (PagerState { scroll_pos: sat_sub(len, h), ..s }, false)
    } else if c == KeyCode::Char(':') {
        (PagerState { goto_mode: true, goto_buf: Seq::empty(), ..s }, false)
    } else if c == KeyCode::Char('/') {
        (PagerState { search_mode: true, search_query: Seq::empty(), ..s }, false)
    } else if c == KeyCode::Char('n') && nm > 0 {
        let cur = (s.search_current + 1) % (nm as int);
        (PagerState { search_current: cur, scroll_pos: s.search_matches[cur], ..s }, false)
    } else if c == KeyCode::Char('N') && nm > 0 {
        let cur = if s.search_current == 0 {
            nm - 1
        } else {
            s.search_current - 1
        };
        (PagerState { search_current: cur, scroll_pos: s.search_matches[cur], ..s }, false)
    } else if c == KeyCode::Char('q') || c == KeyCode::Esc {
        (s, true)
    } else {
        (s, false)
    }
}

/// A key in whatever mode the pager is in.
pub open spec fn key_step(s: PagerState, key: KeyEvent, h: int) -> (PagerState, bool) {
    if s.goto_mode {
        (goto_key_step(s, key), false)
    } else if s.search_mode {
        (search_key_step(s, key), false)
    } else {
        normal_key_step(s, key, h)
    }
}

/// The state after `batch` was inserted after the first `hc` lines; a view
/// below the header moves down with the lines it showed.
pub open spec fn inserted_after(s: PagerState, hc: int, batch: Seq<Seq<char>>) -> PagerState {
    PagerState {
        lines: s.lines.subrange(0, hc) + batch + s.lines.subrange(hc, s.lines.len() as int),
        scroll_pos: if s.scroll_pos > hc {
            s.scroll_pos + batch.len()
        } else {
            s.scroll_pos
        },
        ..s
    }
}

/// Indices as integers.
pub open spec fn ints(v: Seq<usize>) -> Seq<int> {
    Seq::new(v.len(), |i: int| v[i] as int)
}

/// All characters of `s` are decimal digits.
pub open spec fn all_digits(s: Seq<char>) -> bool {
    forall|i: int| 0 <= i < s.len() ==> is_digit_char(#[trigger] s[i])
}

/// A mouse-wheel step up: three lines up, stopping at the top.
pub open spec fn wheel_up(s: PagerState) -> PagerState {
    if s.scroll_pos > 0 {
        PagerState { scroll_pos: sat_sub(s.scroll_pos, SCROLL_LINES as int), ..s }
    } else {
        s
    }
}

/// A mouse-wheel step down with `h` visible lines: three lines down,
/// stopping where the last line is at the bottom.
pub open spec fn wheel_down(s: PagerState, h: int) -> PagerState {
    if s.scroll_pos + h < s.lines.len() {
        PagerState {
            scroll_pos: min_int(s.scroll_pos + SCROLL_LINES, sat_sub(s.lines.len() as int, h)),
            ..s
        }
    } else {
        s
    }
}

/// Where the view starts when the pager opens: at the bottom of the content.
pub open spec fn at_bottom(s: PagerState, h: int) -> PagerState {
    if s.lines.len() > h {
        PagerState { scroll_pos: s.lines.len() - h, ..s }
    } else {
        s
    }
}

/// The view position kept within the content before each frame is drawn.
pub open spec fn clamped(s: PagerState, h: int) -> PagerState {
    let len = s.lines.len() as int;
    if len > h && s.scroll_pos + h > len {
        PagerState { scroll_pos: len - h, ..s }
    } else if len <= h {
        PagerState { scroll_pos: 0, ..s }
    } else {
        s
    }
}

/// How a line on screen is highlighted.
#[derive(Clone, Copy, Debug, PartialEq, Eq, Structural)]
pub enum Highlight {
    /// The current search match (reverse video).
    Current,
    /// Another search match (dim background).
    Match,
    /// No highlight.
    Plain,
}

/// The highlight of line `idx`.
pub open spec fn highlight_of(s: PagerState, idx: int) -> Highlight {
    if s.search_matches.len() > 0 && s.search_current < s.search_matches.len()
        && idx == s.search_matches[s.search_current] {
        Highlight::Current
    } else if s.search_matches.contains(idx) {
        Highlight::Match
    } else {
        Highlight::Plain
    }
}

/// The text printed for line `idx` of the content at width `w`.
pub open spec fn frame_line_text(s: PagerState, idx: int, w: nat) -> Seq<char> {
    let d = truncate_ansi_seq(s.lines[idx], w);
    match highlight_of(s, idx) {
        Highlight::Current => "\x1b[7m"@ + d + "\x1b[0m\r\n"@,
        Highlight::Match => "\x1b[48;5;236m"@ + d + "\x1b[0m\r\n"@,
        Highlight::Plain => d + "\r\n"@,
    }
}

/// The position part of the status line: `L<first>-<end>/<total> (<pct>%)`.
pub open spec fn position_text(s: PagerState, end: nat, pct: nat) -> Seq<char> {
    "L"@ + dec_nat((s.scroll_pos + 1) as nat) + "-"@ + dec_nat(end) + "/"@ + dec_nat(s.lines.len())
        + " ("@ + dec_nat(pct) + "%)"@
}

/// The status line before it is cut to the terminal width; `end` is one past
/// the last line shown and `pct` how far through the content it is.
pub open spec fn status_text(s: PagerState, end: nat, pct: nat) -> Seq<char> {
    if s.goto_mode {
        "\x1b[7m :"@ + s.goto_buf + " \x1b[0m"@
    } else if s.search_mode {
        "\x1b[7m /"@ + s.search_query + " \x1b[0m"@
    } else if s.search_matches.len() > 0 {
        "\x1b[7m "@ + s.status_prefix + position_text(s, end, pct) + " | match "@ + dec_nat(
            (s.search_current + 1) as nat,
        ) + "/"@ + dec_nat(s.search_matches.len()) + " | n/N \x1b[0m"@
    } else {
        "\x1b[7m "@ + s.status_prefix + position_text(s, end, pct)
            + " | \u{2191}\u{2193} PgUp PgDn Ctrl+U/D g G / q \x1b[0m"@
    }
}

/// The status line as shown: its first `w` characters.
pub open spec fn status_line_text(s: PagerState, end: nat, pct: nat, w: nat) -> Seq<char> {
    let t = status_text(s, end, pct);
    if t.len() <= w {
        t
    } else {
        t.take(w as int)
    }
}

/// The value of a nonempty digit prefix never exceeds that of the whole.
pub proof fn lemma_digits_value_prefix(s: Seq<char>, i: int)
    requires
        all_digits(s),
        0 <= i <= s.len(),
    ensures
        0 <= digits_value(s.take(i)) <= digits_value(s),
    decreases s.len(),
{
    if s.len() > 0 {
        let t = s.drop_last();
        assert(is_digit_char(s[s.len() - 1]));
        assert(all_digits(t)) by {
            assert forall|k: int| 0 <= k < t.len() implies is_digit_char(#[trigger] t[k]) by {
                assert(t[k] == s[k]);
            }
        }
        if i < s.len() {
            lemma_digits_value_prefix(t, i);
            assert(t.take(i) =~= s.take(i));
            lemma_digits_value_prefix(t, t.len() as int);
            assert(t.take(t.len() as int) =~= t);
        } else {
            lemma_digits_value_prefix(t, t.len() as int);
            assert(t.take(t.len() as int) =~= t);
            assert(s.take(i) =~= s);
        }
    } else {
        assert(s.take(i) =~= s);
    }
}

impl PagerState {
    /// The state every pager keeps: the view and the matches point into the
    /// lines, the current match is one of them, and the go-to buffer holds
    /// digits only.
    pub open spec fn wf(self) -> bool {
        &&& 0 <= self.scroll_pos <= self.lines.len()
        &&& forall|i: int| 0 <= i < self.search_matches.len() ==> 0 <= #[trigger] self.search_matches[i] < self.lines.len()
        &&& (self.search_matches.len() == 0 && self.search_current == 0) || (0 <= self.search_current < self.search_matches.len())
        &&& all_digits(self.goto_buf)
    }
}

// ───────────────────────── the pager ─────────────────────────

impl View for Pager {
    type V = PagerState;

    closed spec fn view(&self) -> PagerState {
        PagerState {
            lines: strs(self.lines@),
            scroll_pos: self.scroll_pos as int,
            search_mode: self.search_mode,
            search_query: self.search_query@,
            search_matches: ints(self.search_matches@),
            search_current: self.search_current as int,
            goto_mode: self.goto_mode,
            goto_buf: self.goto_buf@,
            status_prefix: self.status_prefix@,
        }
    }
}

impl Pager {
    /// The pager's invariant (see [`PagerState::wf`]).
    pub open spec fn wf(&self) -> bool {
        self@.wf()
    }

    /// Whether a loader is registered.
    pub closed spec fn spec_has_loader(&self) -> bool {
        self.loader is Some
    }

    /// The number of header lines new batches are inserted after.
    pub closed spec fn spec_loader_header(&self) -> usize {
        self.loader_header
    }

    /// A pager over `lines`, at the top, with no search and no loader.
    pub fn new(lines: Vec<String>) -> (p: Self)
        ensures
            p.wf(),
            p@ == (PagerState {
                lines: strs(lines@),
                scroll_pos: 0,
                search_mode: false,
                search_query: Seq::empty(),
                search_matches: Seq::empty(),
                search_current: 0,
                goto_mode: false,
                goto_buf: Seq::empty(),
                status_prefix: Seq::empty(),
            }),
            !p.spec_has_loader(),
            p.spec_loader_header() == 0,
    {
        let p = Pager {
            lines,
            scroll_pos: 0,
            search_mode: false,
            search_query: String::new(),
            search_matches: Vec::new(),
            search_current: 0,
            goto_mode: false,
            goto_buf: String::new(),
            status_prefix: String::new(),
            loader: None,
            loader_header: 0,
        };
        assert(p@.search_matches =~= Seq::<int>::empty());
        p
    }

    /// The same pager with `prefix` shown at the start of the status line.
    pub fn with_status_prefix(self, prefix: &str) -> (p: Self)
        requires
            self.wf(),
        ensures
            p.wf(),
            p@ == (PagerState { status_prefix: prefix@, ..self@ }),
            p.spec_has_loader() == self.spec_has_loader(),
            p.spec_loader_header() == self.spec_loader_header(),
    {
        let mut p = self;
        p.status_prefix = String::from_str(prefix);
        p
    }

    /// Registers a loader of earlier lines; its batches go after the first
    /// `header_count` lines.
    pub fn set_loader(&mut self, header_count: usize, loader: Box<dyn Loader>)
        ensures
            final(self)@ == old(self)@,
            final(self).spec_has_loader(),
            final(self).spec_loader_header() == header_count,
    {
        self.loader = Some(loader);
        self.loader_header = header_count;
    }

    /// Asks the loader for earlier lines and inserts them after the header
    /// (see [`Pager::insert_loaded`]). Returns how many lines came.
    pub fn try_load_more(&mut self) -> (n: usize)
        requires
            old(self).wf(),
            old(self).spec_has_loader() ==> old(self).spec_loader_header() <= old(self)@.lines.len(),
        ensures
            final(self).wf(),
            final(self).spec_loader_header() == old(self).spec_loader_header(),
            !old(self).spec_has_loader() ==> n == 0 && final(self)@ == old(self)@
                && !final(self).spec_has_loader(),
            n == 0 ==> final(self)@ == old(self)@,
            n == 0 && old(self).spec_has_loader() ==> !final(self).spec_has_loader(),
            n > 0 ==> final(self).spec_has_loader() && exists|batch: Seq<Seq<char>>|
                batch.len() == n && final(self)@ == #[trigger] inserted_after(
                    old(self)@,
                    old(self).spec_loader_header() as int,
                    batch,
                ),
    {
        let batch = match self.loader.as_mut() {
            Some(l) => l.load_more(),
            None => return 0,
        };
        self.insert_loaded(batch)
    }

    /// Inserts a batch of earlier lines after the header; the view keeps
    /// showing the same lines when it was below the header. An empty batch
    /// means there are no more, and drops the loader. Returns how many lines
    /// came.
    pub fn insert_loaded(&mut self, batch: Vec<String>) -> (n: usize)
        requires
            old(self).wf(),
            batch@.len() > 0 ==> old(self).spec_loader_header() <= old(self)@.lines.len(),
        ensures
            final(self).wf(),
            n == batch@.len(),
            final(self).spec_loader_header() == old(self).spec_loader_header(),
            n == 0 ==> final(self)@ == old(self)@ && !final(self).spec_has_loader(),
            n > 0 ==> final(self).spec_has_loader() == old(self).spec_has_loader()
                && final(self)@ == inserted_after(old(self)@, old(self).spec_loader_header() as int, strs(batch@)),
    {
        let mut new_lines = batch;
        let hc = self.loader_header;
        if new_lines.len() == 0 {
            self.loader = None;
            return 0;
        }
        let n = new_lines.len();
        let ghost old_lines = self.lines@;
        let ghost fresh = new_lines@;
        let mut tail = self.lines.split_off(hc);
        self.lines.append(&mut new_lines);
        self.lines.append(&mut tail);
        assert(self.lines@.len() == old_lines.len() + n);
        assert(self.lines@.len() == self.lines.len());
        if self.scroll_pos > hc {
            self.scroll_pos = self.scroll_pos + n;
        }
        proof {
            let len = old_lines.len() as int;
            assert(self.lines@ =~= old_lines.subrange(0, hc as int) + fresh + old_lines.subrange(hc as int, len));
            let b = strs(fresh);
            assert(strs(self.lines@) =~= strs(old_lines).subrange(0, hc as int) + b
                + strs(old_lines).subrange(hc as int, len));
            assert(b.len() == n);
            assert(self@.lines.len() == old_lines.len() + n);
            assert(self@.search_matches == old(self)@.search_matches);
            assert(0 <= self@.scroll_pos <= self@.lines.len());
            assert(self@.goto_buf == old(self)@.goto_buf);
            assert(self@.search_current == old(self)@.search_current);
            assert(self@ == inserted_after(old(self)@, hc as int, b));
        }
        n
    }

    /// Runs the search for the current query over all lines (see
    /// [`searched`]).
    pub fn execute_search(&mut self)
        requires
            old(self).wf(),
        ensures
            final(self).wf(),
            final(self)@ == searched(old(self)@),
            final(self).spec_has_loader() == old(self).spec_has_loader(),
            final(self).spec_loader_header() == old(self).spec_loader_header(),
    {
        self.search_matches = Vec::new();
        self.search_current = 0;
        if self.search_query.as_str().unicode_len() > 0 {
            let lower = to_lowercase(self.search_query.as_str());
            let ghost ls = strs(self.lines@);
            let ghost q = self.search_query@;
            let mut matches: Vec<usize> = Vec::new();
            let mut i: usize = 0;
            while i < self.lines.len()
                invariant
                    i <= self.lines.len(),
                    ls == strs(self.lines@),
                    q == self.search_query@,
                    lower@ == lowercase(q),
                    ints(matches@) == matching_lines(
                        ls.take(i as int),
                        q,
                    ),
                decreases self.lines.len() - i,
            {
                let plain = strip_ansi(self.lines[i].as_str());
                let low = to_lowercase(plain.as_str());
                let hit = str_contains(low.as_str(), lower.as_str());
                proof {
                    assert(ls.take(i + 1).drop_last() =~= ls.take(i as int));
                    assert(ls.take(i + 1).last() == self.lines@[i as int]@);
                }
                if hit {
                    matches.push(i);
                }
                proof {
                    let m = ints(matches@);
                    assert(m =~= matching_lines(ls.take(i + 1), q));
                }
                i = i + 1;
            }
            proof {
                assert(ls.take(self.lines.len() as int) =~= ls);
                lemma_matching_lines_bounds(ls, q);
            }
            if matches.len() > 0 {
                self.scroll_pos = matches[0];
            }
            self.search_matches = matches;
            proof {
                let m = matching_lines(ls, q);
                assert(self@.search_matches =~= m);
                assert(self@ == searched(old(self)@));
            }
        } else {
            proof {
                assert(self@.search_matches =~= Seq::<int>::empty());
                assert(self@ == searched(old(self)@));
            }
        }
    }

    /// A key in search-input mode (see [`search_key_step`]).
    fn handle_search_key(&mut self, key: KeyEvent)
        requires
            old(self).wf(),
        ensures
            final(self).wf(),
            final(self)@ == search_key_step(old(self)@, key),
            final(self).spec_has_loader() == old(self).spec_has_loader(),
            final(self).spec_loader_header() == old(self).spec_loader_header(),
    {
        match key.code {
            KeyCode::Char(c) => {
                if !is_control(c) {
                    push_char(&mut self.search_query, c);
                }
            },
            KeyCode::Backspace => {
                pop_char(&mut self.search_query);
            },
            KeyCode::Enter => {
                self.execute_search();
                self.search_mode = false;
            },
            KeyCode::Esc => {
                self.search_mode = false;
                self.search_query = String::new();
            },
            _ => {},
        }
    }

    /// A key in go-to-line mode (see [`goto_key_step`]).
    fn handle_goto_key(&mut self, key: KeyEvent)
        requires
            old(self).wf(),
        ensures
            final(self).wf(),
            final(self)@ == goto_key_step(old(self)@, key),
            final(self).spec_has_loader() == old(self).spec_has_loader(),
            final(self).spec_loader_header() == old(self).spec_loader_header(),
    {
        match key.code {
            KeyCode::Char(c) => {
                let u = c as u32;
                if 48 <= u && u <= 57 {
                    push_char(&mut self.goto_buf, c);
                    proof {
                        assert(all_digits(self@.goto_buf)) by {
                            assert forall|i: int| 0 <= i < self@.goto_buf.len() implies is_digit_char(
                                #[trigger] self@.goto_buf[i],
                            ) by {
                                if i < old(self)@.goto_buf.len() {
                                    assert(self@.goto_buf[i] == old(self)@.goto_buf[i]);
                                }
                            }
                        }
                    }
                }
            },
            KeyCode::Backspace => {
                pop_char(&mut self.goto_buf);
                proof {
                    assert forall|i: int| 0 <= i < self@.goto_buf.len() implies is_digit_char(
                        #[trigger] self@.goto_buf[i],
                    ) by {
                        assert(self@.goto_buf[i] == old(self)@.goto_buf[i]);
                    }
                }
            },
            KeyCode::Enter => {
                proof {
                    assert(all_digits(self.goto_buf@));
                    lemma_digits_value_prefix(self.goto_buf@, self.goto_buf@.len() as int);
                    assert(self.goto_buf@.take(self.goto_buf@.len() as int) =~= self.goto_buf@);
                }
                match parse_line_number(self.goto_buf.as_str()) {
                    Some(line_num) => {
                        if line_num > 0 {
                            let target = line_num - 1;
                            let max_pos = if self.lines.len() > 0 {
                                self.lines.len() - 1
                            } else {
                                0
                            };
                            self.scroll_pos = if target < max_pos {
                                target
                            } else {
                                max_pos
                            };
                        }
                    },
                    None => {},
                }
                self.goto_mode = false;
                self.goto_buf = String::new();
            },
            KeyCode::Esc => {
                self.goto_mode = false;
                self.goto_buf = String::new();
            },
            _ => {},
        }
    }

    /// A key in normal mode with `visible_h` lines on screen (see
    /// [`normal_key_step`]); returns whether the key quits.
    fn handle_normal_key(&mut self, key: KeyEvent, visible_h: usize) -> (quit: bool)
        requires
            old(self).wf(),
        ensures
            final(self).wf(),
            (final(self)@, quit) == normal_key_step(old(self)@, key, visible_h as int),
            final(self).spec_has_loader() == old(self).spec_has_loader(),
            final(self).spec_loader_header() == old(self).spec_loader_header(),
    {
        let len = self.lines.len();
        let pos = self.scroll_pos;
        let h = visible_h;
        let half: usize = if h / 2 > 1 {
            h / 2
        } else {
            1
        };
        let bottom: usize = if len > h {
            len - h
        } else {
            0
        };
        let nm = self.search_matches.len();
        let code = key.code;
        let up = code == KeyCode::Up || code == KeyCode::Char('k');
        let down = code == KeyCode::Down || code == KeyCode::Char('j');
        if up && pos > 0 {
            self.scroll_pos = pos - 1;
        } else if down && h < len - pos {
            self.scroll_pos = pos + 1;
        } else if code == KeyCode::PageUp {
            self.scroll_pos = if pos > h {
                pos - h
            } else {
                0
            };
        } else if code == KeyCode::PageDown {
            self.scroll_pos = min_of_sum(pos, h, bottom);
        } else if code == KeyCode::Char('u') && key.control {
            self.scroll_pos = if pos > half {
                pos - half
            } else {
                0
            };
        } else if code == KeyCode::Char('d') && key.control {
            self.scroll_pos = min_of_sum(pos, half, bottom);
        } else if code == KeyCode::Home || code == KeyCode::Char('g') {
            self.scroll_pos = 0;
        } else if code == KeyCode::End || code == KeyCode::Char('G') {
            self.scroll_pos = bottom;
        } else if code == KeyCode::Char(':') {
            self.goto_mode = true;
            self.goto_buf = String::new();
        } else if code == KeyCode::Char('/') {
            self.search_mode = true;
            self.search_query = String::new();
        } else if code == KeyCode::Char('n') && nm > 0 {
            self.search_current = (self.search_current + 1) % nm;
            self.scroll_pos = self.search_matches[self.search_current];
        } else if code == KeyCode::Char('N') && nm > 0 {
            self.search_current = if self.search_current == 0 {
                nm - 1
            } else {
                self.search_current - 1
            };
            self.scroll_pos = self.search_matches[self.search_current];
        } else if code == KeyCode::Char('q') || code == KeyCode::Esc {
            return true;
        }
        proof {
            assert(self@.goto_buf =~= normal_key_step(old(self)@, key, visible_h as int).0.goto_buf);
            assert(self@.search_query =~= normal_key_step(old(self)@, key, visible_h as int).0.search_query);
        }
        false
    }

    /// A key in whatever mode the pager is in (see [`key_step`]); returns
    /// whether the key quits.
    pub fn handle_key(&mut self, key: KeyEvent, visible_h: usize) -> (quit: bool)
        requires
            old(self).wf(),
        ensures
            final(self).wf(),
            (final(self)@, quit) == key_step(old(self)@, key, visible_h as int),
            final(self).spec_has_loader() == old(self).spec_has_loader(),
            final(self).spec_loader_header() == old(self).spec_loader_header(),
    {
        if self.goto_mode {
            self.handle_goto_key(key);
            false
        } else if self.search_mode {
            self.handle_search_key(key);
            false
        } else {
            self.handle_normal_key(key, visible_h)
        }
    }

    /// One mouse-wheel step up (see [`wheel_up`]).
    pub fn scroll_wheel_up(&mut self)
        requires
            old(self).wf(),
        ensures
            final(self).wf(),
            final(self)@ == wheel_up(old(self)@),
            final(self).spec_has_loader() == old(self).spec_has_loader(),
            final(self).spec_loader_header() == old(self).spec_loader_header(),
    {
        if self.scroll_pos > 0 {
            self.scroll_pos = if self.scroll_pos > SCROLL_LINES {
                self.scroll_pos - SCROLL_LINES
            } else {
                0
            };
        }
    }

    /// One mouse-wheel step down with `visible_h` lines on screen (see
    /// [`wheel_down`]).
    pub fn scroll_wheel_down(&mut self, visible_h: usize)
        requires
            old(self).wf(),
        ensures
            final(self).wf(),
            final(self)@ == wheel_down(old(self)@, visible_h as int),
            final(self).spec_has_loader() == old(self).spec_has_loader(),
            final(self).spec_loader_header() == old(self).spec_loader_header(),
    {
        let len = self.lines.len();
        let pos = self.scroll_pos;
        if visible_h < len - pos {
            self.scroll_pos = min_of_sum(pos, SCROLL_LINES, len - visible_h);
        }
    }

    /// Moves the view to the bottom of the content, as the pager does when
    /// it opens (see [`at_bottom`]).
    pub fn scroll_to_bottom(&mut self, visible_h: usize)
        requires
            old(self).wf(),
        ensures
            final(self).wf(),
            final(self)@ == at_bottom(old(self)@, visible_h as int),
            final(self).spec_has_loader() == old(self).spec_has_loader(),
            final(self).spec_loader_header() == old(self).spec_loader_header(),
    {
        if self.lines.len() > visible_h {
            self.scroll_pos = self.lines.len() - visible_h;
        }
    }

    /// Keeps the view within the content before a frame is drawn (see
    /// [`clamped`]).
    pub fn clamp_scroll(&mut self, visible_h: usize)
        requires
            old(self).wf(),
        ensures
            final(self).wf(),
            final(self)@ == clamped(old(self)@, visible_h as int),
            final(self).spec_has_loader() == old(self).spec_has_loader(),
            final(self).spec_loader_header() == old(self).spec_loader_header(),
    {
        let len = self.lines.len();
        if len > visible_h && visible_h > len - self.scroll_pos {
            self.scroll_pos = len - visible_h;
        } else if len <= visible_h {
            self.scroll_pos = 0;
        }
    }

    /// Asks for earlier lines when the view is within [`LOAD_THRESHOLD`]
    /// lines of the top, as the pager does before each frame (see
    /// [`Pager::try_load_more`]): near the top, a loader is asked, and either
    /// lines come or, when it has no more, it is dropped. Returns how many
    /// lines came.
    pub fn load_if_near_top(&mut self) -> (n: usize)
        requires
            old(self).wf(),
            old(self).spec_has_loader() ==> old(self).spec_loader_header() <= old(self)@.lines.len(),
        ensures
            final(self).wf(),
            final(self).spec_loader_header() == old(self).spec_loader_header(),
            old(self)@.scroll_pos > LOAD_THRESHOLD ==> n == 0 && final(self)@ == old(self)@
                && final(self).spec_has_loader() == old(self).spec_has_loader(),
            old(self)@.scroll_pos <= LOAD_THRESHOLD && old(self).spec_has_loader() && n == 0
                ==> !final(self).spec_has_loader(),
            !old(self).spec_has_loader() ==> n == 0 && final(self)@ == old(self)@
                && !final(self).spec_has_loader(),
            n == 0 ==> final(self)@ == old(self)@,
            n > 0 ==> final(self).spec_has_loader() && exists|batch: Seq<Seq<char>>|
                batch.len() == n && final(self)@ == #[trigger] inserted_after(
                    old(self)@,
                    old(self).spec_loader_header() as int,
                    batch,
                ),
    {
        if self.scroll_pos <= LOAD_THRESHOLD {
            self.try_load_more()
        } else {
            0
        }
    }

    /// The number of lines loaded.
    pub fn line_count(&self) -> (r: usize)
        ensures
            r == self@.lines.len(),
    {
        self.lines.len()
    }

    /// The index of the first line shown.
    pub fn top(&self) -> (r: usize)
        ensures
            r == self@.scroll_pos,
    {
        self.scroll_pos
    }

    /// One past the last line shown with `visible_h` lines on screen.
    pub fn visible_end(&self, visible_h: usize) -> (end: usize)
        requires
            self.wf(),
        ensures
            end == min_int(self@.scroll_pos + visible_h, self@.lines.len() as int),
    {
        let len = self.lines.len();
        if visible_h < len - self.scroll_pos {
            self.scroll_pos + visible_h
        } else {
            len
        }
    }

    /// How line `idx` is highlighted (see [`highlight_of`]).
    pub fn highlight(&self, idx: usize) -> (r: Highlight)
        ensures
            r == highlight_of(self@, idx as int),
    {
        let nm = self.search_matches.len();
        if nm > 0 && self.search_current < nm && idx == self.search_matches[self.search_current] {
            return Highlight::Current;
        }
        proof {
            if nm > 0 && self.search_current < nm {
                assert(self@.search_matches[self.search_current as int]
                    == self.search_matches@[self.search_current as int] as int);
            }
        }
        if contains_index(&self.search_matches, idx) {
            Highlight::Match
        } else {
            Highlight::Plain
        }
    }

    /// The text printed for line `idx` at width `width` (see
    /// [`frame_line_text`]).
    pub fn frame_line(&self, idx: usize, width: usize) -> (r: String)
        requires
            idx < self@.lines.len(),
        ensures
            r@ == frame_line_text(self@, idx as int, width as nat),
    {
        let d = truncate_ansi(self.lines[idx].as_str(), width);
        let mut out = String::new();
        match self.highlight(idx) {
            Highlight::Current => {
                out.append("\x1b[7m");
                out.append(d.as_str());
                out.append("\x1b[0m\r\n");
            },
            Highlight::Match => {
                out.append("\x1b[48;5;236m");
                out.append(d.as_str());
                out.append("\x1b[0m\r\n");
            },
            Highlight::Plain => {
                out.append(d.as_str());
                out.append("\r\n");
                assert(out@ =~= d@ + "\r\n"@);
            },
        }
        proof {
            assert(self@.lines[idx as int] == self.lines@[idx as int]@);
        }
        out
    }

    #[verifier::rlimit(40)]
    fn push_position(&self, out: &mut String, end: usize, pct: usize)
        ensures
            final(out)@ == old(out)@ + position_text(self@, end as nat, pct as nat),
    {
        let ghost start = out@;
        out.append("L");
        push_dec_u128(out, self.scroll_pos as u128 + 1);
        out.append("-");
        push_dec_usize(out, end);
        out.append("/");
        push_dec_usize(out, self.lines.len());
        out.append(" (");
        push_dec_usize(out, pct);
        out.append("%)");
        proof {
            assert(out@ =~= start + position_text(self@, end as nat, pct as nat));
        }
    }

    /// The status line shown at the bottom of a frame, cut to `width`
    /// characters (see [`status_line_text`]).
    #[verifier::rlimit(40)]
    pub fn status_line(&self, end: usize, pct: usize, width: usize) -> (r: String)
        ensures
            r@ == status_line_text(self@, end as nat, pct as nat, width as nat),
    {
        let mut t = String::new();
        if self.goto_mode {
            t.append("\x1b[7m :");
            t.append(self.goto_buf.as_str());
            t.append(" \x1b[0m");
        } else if self.search_mode {
            t.append("\x1b[7m /");
            t.append(self.search_query.as_str());
            t.append(" \x1b[0m");
        } else if self.search_matches.len() > 0 {
            t.append("\x1b[7m ");
            t.append(self.status_prefix.as_str());
            self.push_position(&mut t, end, pct);
            t.append(" | match ");
            push_dec_u128(&mut t, self.search_current as u128 + 1);
            t.append("/");
            push_dec_usize(&mut t, self.search_matches.len());
            t.append(" | n/N \x1b[0m");
        } else {
            t.append("\x1b[7m ");
            t.append(self.status_prefix.as_str());
            self.push_position(&mut t, end, pct);
            t.append(" | ↑↓ PgUp PgDn Ctrl+U/D g G / q \x1b[0m");
        }
        proof {
            assert(t@ =~= status_text(self@, end as nat, pct as nat));
        }
        let cs = chars_of(t.as_str());
        let stop = if cs.len() < width {
            cs.len()
        } else {
            width
        };
        let mut out = String::new();
        push_chars_range(&mut out, &cs, 0, stop);
        proof {
            assert(out@ =~= status_line_text(self@, end as nat, pct as nat, width as nat));
        }
        out
    }
}

/// Whether `x` occurs in `v`.
fn contains_index(v: &Vec<usize>, x: usize) -> (r: bool)
    ensures
        r == ints(v@).contains(x as int),
{
    let mut k: usize = 0;
    while k < v.len()
        invariant
            k <= v.len(),
            forall|j: int| 0 <= j < k ==> v@[j] != x,
        decreases v.len() - k,
    {
        if v[k] == x {
            assert(ints(v@)[k as int] == x as int);
            return true;
        }
        k = k + 1;
    }
    proof {
        if ints(v@).contains(x as int) {
            let j = choose|j: int| 0 <= j < ints(v@).len() && ints(v@)[j] == x as int;
            assert(v@[j] == x);
        }
    }
    false
}

/// `min(a + b, cap)`, computed without overflow.
fn min_of_sum(a: usize, b: usize, cap: usize) -> (r: usize)
    ensures
        r == min_int(a + b, cap as int),
{
    if cap <= a {
        cap
    } else if cap - a <= b {
        cap
    } else {
        a + b
    }
}

/// `char::is_control`: the characters of Unicode category Cc.
fn is_control(c: char) -> (r: bool)
    ensures
        r == is_control_char(c),
{
    let u = c as u32;
    u <= 0x1f || (0x7f <= u && u <= 0x9f)
}

/// The number that the digits `buf` write, when there is at least one and it
/// fits in `usize` (`str::parse::<usize>` on a string of digits).
fn parse_line_number(buf: &str) -> (r: Option<usize>)
    requires
        all_digits(buf@),
    ensures
        r == (if buf@.len() > 0 && digits_value(buf@) <= usize::MAX {
            Some(digits_value(buf@) as usize)
        } else {
            None::<usize>
        }),
{
    let cs = chars_of(buf);
    if cs.len() == 0 {
        return None;
    }
    let mut v: usize = 0;
    let mut i: usize = 0;
    while i < cs.len()
        invariant
            i <= cs.len(),
            cs@ == buf@,
            all_digits(buf@),
            v as int == digits_value(cs@.take(i as int)),
        decreases cs.len() - i,
    {
        let c = cs[i];
        proof {
            assert(cs@.take(i + 1).drop_last() =~= cs@.take(i as int));
            assert(is_digit_char(cs@[i as int]));
        }
        let d: usize = (c as u32 - 48) as usize;
        match v.checked_mul(10) {
            Some(m) => match m.checked_add(d) {
                Some(n) => {
                    v = n;
                },
                None => {
                    proof {
                        lemma_digits_value_prefix(buf@, i + 1);
                    }
                    return None;
                },
            },
            None => {
                proof {
                    lemma_digits_value_prefix(buf@, i + 1);
                }
                return None;
            },
        }
        i = i + 1;
    }
    proof {
        assert(cs@.take(cs.len() as int) =~= cs@);
    }
    Some(v)
}

/// Every match is the index of a line, and the matches increase.
pub proof fn lemma_matching_lines_bounds(lines: Seq<Seq<char>>, query: Seq<char>)
    ensures
        forall|k: int|
            0 <= k < matching_lines(lines, query).len() ==> 0 <= #[trigger] matching_lines(lines, query)[k]
                < lines.len(),
        forall|a: int, b: int|
            0 <= a < b < matching_lines(lines, query).len() ==> #[trigger] matching_lines(lines, query)[a]
                < #[trigger] matching_lines(lines, query)[b],
    decreases lines.len(),
{
    if lines.len() > 0 {
        let rest = matching_lines(lines.drop_last(), query);
        let m = matching_lines(lines, query);
        lemma_matching_lines_bounds(lines.drop_last(), query);
        assert forall|k: int| 0 <= k < m.len() implies 0 <= #[trigger] m[k] < lines.len() by {
            if k < rest.len() {
                assert(m[k] == rest[k]);
            }
        }
        assert forall|a: int, b: int| 0 <= a < b < m.len() implies #[trigger] m[a] < #[trigger] m[b] by {
            assert(m[a] == rest[a]);
            if b < rest.len() {
                assert(m[b] == rest[b]);
            }
        }
    }
}

// ───────────────────────── laws ─────────────────────────

/// A search finds exactly the lines whose text, without control sequences
/// and ignoring case, contains the query, in order from the top; the view
/// moves to the first of them.
pub proof fn law_search_finds_exactly_the_matching_lines(s: PagerState)
    requires
        s.search_query.len() > 0,
    ensures
        forall|i: int|
            searched(s).search_matches.contains(i) <==> (0 <= i < s.lines.len() && line_matches(
                #[trigger] s.lines[i],
                s.search_query,
            )),
        forall|a: int, b: int|
            0 <= a < b < searched(s).search_matches.len() ==> #[trigger] searched(s).search_matches[a]
                < #[trigger] searched(s).search_matches[b],
        searched(s).search_matches.len() > 0 ==> searched(s).scroll_pos == searched(s).search_matches[0]
            && searched(s).search_current == 0,
{
    lemma_matching_lines_exact(s.lines, s.search_query);
    lemma_matching_lines_bounds(s.lines, s.search_query);
}

/// A line index is a match exactly when the line matches.
pub proof fn lemma_matching_lines_exact(lines: Seq<Seq<char>>, query: Seq<char>)
    ensures
        forall|i: int|
            matching_lines(lines, query).contains(i) <==> (0 <= i < lines.len() && line_matches(
                #[trigger] lines[i],
                query,
            )),
    decreases lines.len(),
{
    if lines.len() > 0 {
        let rest = matching_lines(lines.drop_last(), query);
        let m = matching_lines(lines, query);
        lemma_matching_lines_exact(lines.drop_last(), query);
        lemma_matching_lines_bounds(lines.drop_last(), query);
        assert forall|i: int|
            m.contains(i) <==> (0 <= i < lines.len() && line_matches(#[trigger] lines[i], query)) by {
            if 0 <= i < lines.len() - 1 {
                assert(lines[i] == lines.drop_last()[i]);
            }
            if m.contains(i) {
                let k = choose|k: int| 0 <= k < m.len() && m[k] == i;
                if k < rest.len() {
                    assert(rest[k] == i);
                    assert(rest.contains(i));
                }
            }
            if 0 <= i < lines.len() && line_matches(lines[i], query) {
                if i < lines.len() - 1 {
                    assert(rest.contains(i));
                    let k = choose|k: int| 0 <= k < rest.len() && rest[k] == i;
                    assert(m[k] == i);
                } else {
                    assert(m[m.len() - 1] == i);
                }
            }
        }
    }
}

/// Moving to the next match and back to the previous one returns to the
/// match that was current, with the view on its line.
pub proof fn law_next_then_previous_match(s: PagerState, h: int)
    requires
        s.wf(),
        !s.goto_mode,
        !s.search_mode,
        s.search_matches.len() > 0,
    ensures
        ({
            let n = KeyEvent { code: KeyCode::Char('n'), control: false };
            let p = KeyEvent { code: KeyCode::Char('N'), control: false };
            let m = key_step(s, n, h);
            let t = key_step(m.0, p, h);
            &&& m.0.search_current == (s.search_current + 1) % (s.search_matches.len() as int)
            &&& m.0.scroll_pos == s.search_matches[m.0.search_current]
            &&& !m.1 && !t.1
            &&& t.0 == PagerState { scroll_pos: s.search_matches[s.search_current], ..s }
        }),
{
    let nm = s.search_matches.len() as int;
    let cur = s.search_current;
    assert(0 <= (cur + 1) % nm < nm);
    if cur + 1 < nm {
        assert((cur + 1) % nm == cur + 1) by (nonlinear_arith)
            requires
                0 <= cur + 1 < nm,
        ;
    } else {
        assert((cur + 1) % nm == 0) by (nonlinear_arith)
            requires
                cur + 1 == nm,
                nm > 0,
        ;
    }
}

/// In normal mode each scrolling key moves the view by its own amount and
/// nothing else: up and down one line (not above the first line, and down
/// only while lines remain below the screen), page up by the visible height
/// (stopping at the first line), page down by the visible height (stopping
/// where the last line is at the bottom), Ctrl-U and Ctrl-D by half a screen
/// (at least one line) in the same way, Home and `g` to the first line, End
/// and `G` to where the last line is at the bottom. The lines, the search
/// and the modes stay as they are, and the pager goes on.
pub proof fn law_scroll_keys_move_by_their_amount(s: PagerState, key: KeyEvent, h: int)
    requires
        !s.goto_mode,
        !s.search_mode,
        h >= 0,
    ensures
        ({
            let pos = s.scroll_pos;
            let len = s.lines.len() as int;
            let bottom = if len > h { len - h } else { 0 };
            let half = if h >= 4 { h / 2 } else { 1 };
            let c = key.code;
            let r = key_step(s, key, h);
            &&& (c == KeyCode::Up || c == KeyCode::Char('k')) ==> r == (PagerState {
                scroll_pos: if pos > 0 { pos - 1 } else { pos },
                ..s
            }, false)
            &&& (c == KeyCode::Down || c == KeyCode::Char('j')) ==> r == (PagerState {
                scroll_pos: if pos + h < len { pos + 1 } else { pos },
                ..s
            }, false)
            &&& c == KeyCode::PageUp ==> r == (PagerState { scroll_pos: if pos > h { pos - h } else { 0 }, ..s }, false)
            &&& c == KeyCode::PageDown ==> r == (PagerState {
                scroll_pos: if pos + h < bottom { pos + h } else { bottom },
                ..s
            }, false)
            &&& (c == KeyCode::Char('u') && key.control) ==> r == (PagerState {
                scroll_pos: if pos > half { pos - half } else { 0 },
                ..s
            }, false)
            &&& (c == KeyCode::Char('d') && key.control) ==> r == (PagerState {
                scroll_pos: if pos + half < bottom { pos + half } else { bottom },
                ..s
            }, false)
            &&& (c == KeyCode::Home || c == KeyCode::Char('g')) ==> r == (PagerState { scroll_pos: 0, ..s }, false)
            &&& (c == KeyCode::End || c == KeyCode::Char('G')) ==> r == (PagerState { scroll_pos: bottom, ..s }, false)
        }),
{
}

/// The screen marks the search: the current match's line in reverse
/// video, every other match's line on a dim background, and any other line
/// as it is; each shown line is cut to the screen width.
pub proof fn law_search_matches_are_marked(s: PagerState, idx: int, w: nat)
    requires
        0 <= s.search_current < s.search_matches.len(),
    ensures
        idx == s.search_matches[s.search_current] ==> frame_line_text(s, idx, w) == "\x1b[7m"@
            + truncate_ansi_seq(s.lines[idx], w) + "\x1b[0m\r\n"@,
        idx != s.search_matches[s.search_current] && s.search_matches.contains(idx) ==> frame_line_text(s, idx, w)
            == "\x1b[48;5;236m"@ + truncate_ansi_seq(s.lines[idx], w) + "\x1b[0m\r\n"@,
        !s.search_matches.contains(idx) ==> frame_line_text(s, idx, w) == truncate_ansi_seq(s.lines[idx], w)
            + "\r\n"@,
{
}

/// Going to a line: typing its number and Enter shows that line first
/// (lines count from 1), or the last line when the number is past the end;
/// the digits typed are the number as written.
pub proof fn law_goto_shows_the_line_typed(s: PagerState, n: nat, h: int)
    requires
        s.goto_mode,
        n >= 1,
        n <= usize::MAX,
        s.goto_buf == crate::text::dec_nat(n),
    ensures
        ({
            let r = key_step(s, KeyEvent { code: KeyCode::Enter, control: false }, h);
            let len = s.lines.len() as int;
            &&& !r.1
            &&& r.0 == PagerState {
                scroll_pos: if n - 1 < len - 1 { n - 1 } else if len > 1 { len - 1 } else { 0 },
                goto_mode: false,
                goto_buf: Seq::empty(),
                ..s
            }
        }),
{
    law_numbers_read_back_as_written(n);
}

/// The keys that move the view in normal mode: arrows and `j`/`k`, page up
/// and down, Ctrl-U and Ctrl-D, Home/End and `g`/`G`.
pub open spec fn is_navigation_key(key: KeyEvent) -> bool {
    let c = key.code;
    ||| c == KeyCode::Up || c == KeyCode::Down || c == KeyCode::Char('k') || c == KeyCode::Char('j')
    ||| c == KeyCode::PageUp || c == KeyCode::PageDown
    ||| c == KeyCode::Home || c == KeyCode::End || c == KeyCode::Char('g') || c == KeyCode::Char('G')
    ||| key.control && (c == KeyCode::Char('u') || c == KeyCode::Char('d'))
}

/// A navigation key in normal mode never quits and never changes the lines,
/// and a view that starts no further down than where the last line is at the
/// bottom stays so.
pub proof fn law_navigation_stays_in_view(s: PagerState, key: KeyEvent, h: int)
    requires
        !s.goto_mode,
        !s.search_mode,
        h >= 0,
        is_navigation_key(key),
        0 <= s.scroll_pos <= sat_sub(s.lines.len() as int, h),
    ensures
        !key_step(s, key, h).1,
        key_step(s, key, h).0.lines == s.lines,
        0 <= key_step(s, key, h).0.scroll_pos <= sat_sub(s.lines.len() as int, h),
{
}

/// Every key, wheel step and frame adjustment keeps the pager's invariant:
/// the view and the matches stay within the content.
pub proof fn law_transitions_keep_invariant(s: PagerState, key: KeyEvent, h: int)
    requires
        s.wf(),
        h >= 0,
    ensures
        key_step(s, key, h).0.wf(),
        wheel_up(s).wf(),
        wheel_down(s, h).wf(),
        at_bottom(s, h).wf(),
        clamped(s, h).wf(),
{
    if !s.goto_mode && s.search_mode {
        if key.code == KeyCode::Enter && s.search_query.len() > 0 {
            lemma_matching_lines_bounds(s.lines, s.search_query);
        }
    }
    if !s.goto_mode && !s.search_mode {
        let nm = s.search_matches.len() as int;
        if nm > 0 {
            assert(0 <= (s.search_current + 1) % nm < nm);
        }
    }
    if s.goto_mode {
        let b = s.goto_buf;
        if b.len() > 0 {
            let t = b.drop_last();
            assert forall|i: int| 0 <= i < t.len() implies is_digit_char(#[trigger] t[i]) by {
                assert(t[i] == b[i]);
            }
        }
        match key.code {
            KeyCode::Char(c) => {
                if is_digit_char(c) {
                    let t = b.push(c);
                    assert forall|i: int| 0 <= i < t.len() implies is_digit_char(#[trigger] t[i]) by {
                        if i < b.len() {
                            assert(t[i] == b[i]);
                        }
                    }
                }
            },
            _ => {},
        }
    }
}

/// Loading earlier lines keeps the view on the line it showed, when the
/// view was below the header the lines go after.
pub proof fn law_load_keeps_view_on_its_line(s: PagerState, hc: int, batch: Seq<Seq<char>>)
    requires
        0 <= hc < s.scroll_pos < s.lines.len(),
    ensures
        inserted_after(s, hc, batch).lines[inserted_after(s, hc, batch).scroll_pos] == s.lines[s.scroll_pos],
{
    let t = inserted_after(s, hc, batch);
    let pre = s.lines.subrange(0, hc);
    assert(t.lines == pre + batch + s.lines.subrange(hc, s.lines.len() as int));
    assert(t.lines[s.scroll_pos + batch.len()] == s.lines.subrange(hc, s.lines.len() as int)[s.scroll_pos - hc]);
}

} // verus!
