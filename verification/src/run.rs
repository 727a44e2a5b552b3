//! The decisions of the commands that drive `opencode run` and watch a
//! session: the arguments each run gets, what is done with its output, the
//! prompt editor's keys, and which new messages the watch prints.

use vstd::prelude::*;

use crate::models::{Message, MessageWithParts};
use crate::pager::{is_control_char, KeyCode};
use crate::split::{blank, byte_len, is_blank, lines_of, split_lines, trim, trim_seq, utf8_len};
use crate::text::{
    chars_of, contains_seq, lemma_strs_push, lowercase, pop_char, push_char, push_chars_range, str_contains,
    str_eq, strs, to_lowercase,
};

verus! {

// ───────────────────────── arguments of a run ─────────────────────────

/// How a session's directory, read from the database, can be passed on.
#[derive(Clone, Copy, Debug, PartialEq, Eq, Structural)]
pub enum DirCheck {
    /// The session records no directory.
    Empty,
    /// The directory holds a NUL character or is longer than 4096 bytes; it
    /// is not passed on, with a warning.
    Invalid,
    /// The directory is passed with `--dir`.
    Usable,
}

/// The check of a session's directory.
pub open spec fn dir_check(dir: Seq<char>) -> DirCheck {
    if dir.len() == 0 {
        DirCheck::Empty
    } else if contains_seq(dir, "\0"@) || utf8_len(dir) > 4096 {
        DirCheck::Invalid
    } else {
        DirCheck::Usable
    }
}

/// Checks a session's directory before it is passed to `opencode`.
pub fn check_directory(dir: &str) -> (r: DirCheck)
    ensures
        r == dir_check(dir@),
{
    if dir.unicode_len() == 0 {
        DirCheck::Empty
    } else if str_contains(dir, "\0") || byte_len(dir) > 4096 {
        DirCheck::Invalid
    } else {
        DirCheck::Usable
    }
}

/// `-s <sid>`, then `--dir <dir>` when the session's directory is usable;
/// nothing for an empty session id.
pub open spec fn session_args(sid: Seq<char>, dir: Option<Seq<char>>) -> Seq<Seq<char>> {
    if sid.len() == 0 {
        Seq::empty()
    } else {
        seq!["-s"@, sid] + match dir {
            Some(d) => if dir_check(d) == DirCheck::Usable {
                seq!["--dir"@, d]
            } else {
                Seq::empty()
            },
            None => Seq::empty(),
        }
    }
}

/// The arguments of the run that hands the terminal to `opencode`: `run`,
/// the session, `--fork`, then `-c`.
pub open spec fn first_run_args(sid: Seq<char>, dir: Option<Seq<char>>, fork: bool, cont: bool) -> Seq<Seq<char>> {
    seq!["run"@] + session_args(sid, dir) + (if fork {
        seq!["--fork"@]
    } else {
        Seq::empty()
    }) + if cont {
        seq!["-c"@]
    } else {
        Seq::empty()
    }
}

/// The arguments of a run that is given a prompt: `run`, the session, or
/// `-c` when there is no session yet and the run continues; then `--fork`.
pub open spec fn prompt_run_args(
    sid: Seq<char>,
    dir: Option<Seq<char>>,
    fork: bool,
    cont: bool,
    first_run: bool,
) -> Seq<Seq<char>> {
    seq!["run"@] + (if sid.len() > 0 {
        session_args(sid, dir)
    } else if cont || !first_run {
        seq!["-c"@]
    } else {
        Seq::empty()
    }) + if fork {
        seq!["--fork"@]
    } else {
        Seq::empty()
    }
}

/// A run continues the session it is given, in that session's directory:
/// with a session id the arguments after `run` are `-s` and the id, then
/// `--dir` and the directory when it is non-empty, has no NUL and fits in
/// 4096 bytes (and nothing about the directory otherwise); `--fork` is
/// passed exactly when asked for, and the first run ends with `-c` exactly
/// when it continues.
pub proof fn law_run_targets_the_session(sid: Seq<char>, d: Seq<char>, fork: bool, cont: bool, first_run: bool)
    requires
        sid.len() > 0,
    ensures
        ({
            let usable = d.len() > 0 && !contains_seq(d, "\0"@) && utf8_len(d) <= 4096;
            let a = first_run_args(sid, Some(d), fork, cont);
            let p = prompt_run_args(sid, Some(d), fork, cont, first_run);
            let dir_args: Seq<Seq<char>> = if usable { seq!["--dir"@, d] } else { Seq::empty() };
            let fork_args: Seq<Seq<char>> = if fork { seq!["--fork"@] } else { Seq::empty() };
            let cont_args: Seq<Seq<char>> = if cont { seq!["-c"@] } else { Seq::empty() };
            &&& a == seq!["run"@, "-s"@, sid] + dir_args + fork_args + cont_args
            &&& p == seq!["run"@, "-s"@, sid] + dir_args + fork_args
        }),
{
    let usable = d.len() > 0 && !contains_seq(d, "\0"@) && utf8_len(d) <= 4096;
    assert(usable <==> dir_check(d) == DirCheck::Usable);
    let dir_args: Seq<Seq<char>> = if usable { seq!["--dir"@, d] } else { Seq::empty() };
    assert(session_args(sid, Some(d)) =~= seq!["-s"@, sid] + dir_args);
    assert(seq!["run"@] + (seq!["-s"@, sid] + dir_args) =~= seq!["run"@, "-s"@, sid] + dir_args);
}

fn push_arg(args: &mut Vec<String>, a: &str)
    ensures
        strs(final(args)@) == strs(old(args)@).push(a@),
{
    let s = String::from_str(a);
    proof {
        lemma_strs_push(args@, s);
    }
    args.push(s);
}

fn push_session_args(args: &mut Vec<String>, sid: &str, dir: Option<&str>)
    ensures
        strs(final(args)@) == strs(old(args)@) + session_args(
            sid@,
            match dir {
                Some(d) => Some(d@),
                None => None,
            },
        ),
{
    let ghost start = strs(args@);
    if sid.unicode_len() > 0 {
        push_arg(args, "-s");
        push_arg(args, sid);
        if let Some(d) = dir {
            if check_directory(d) == DirCheck::Usable {
                push_arg(args, "--dir");
                push_arg(args, d);
            }
        }
    }
    proof {
        assert(strs(args@) =~= start + session_args(
            sid@,
            match dir {
                Some(d) => Some(d@),
                None => None,
            },
        ));
    }
}

/// The arguments of the run that hands the terminal to `opencode` (see
/// [`first_run_args`]).
pub fn run_args(sid: &str, dir: Option<&str>, fork: bool, cont: bool) -> (r: Vec<String>)
    ensures
        strs(r@) == first_run_args(
            sid@,
            match dir {
                Some(d) => Some(d@),
                None => None,
            },
            fork,
            cont,
        ),
{
    let mut args: Vec<String> = Vec::new();
    push_arg(&mut args, "run");
    push_session_args(&mut args, sid, dir);
    if fork {
        push_arg(&mut args, "--fork");
    }
    if cont {
        push_arg(&mut args, "-c");
    }
    proof {
        assert(strs(args@) =~= first_run_args(
            sid@,
            match dir {
                Some(d) => Some(d@),
                None => None,
            },
            fork,
            cont,
        ));
    }
    args
}

/// The arguments of a run that is given a prompt (see [`prompt_run_args`]).
pub fn prompt_args(sid: &str, dir: Option<&str>, fork: bool, cont: bool, first_run: bool) -> (r: Vec<String>)
    ensures
        strs(r@) == prompt_run_args(
            sid@,
            match dir {
                Some(d) => Some(d@),
                None => None,
            },
            fork,
            cont,
            first_run,
        ),
{
    let mut args: Vec<String> = Vec::new();
    push_arg(&mut args, "run");
    if sid.unicode_len() > 0 {
        push_session_args(&mut args, sid, dir);
    } else if cont || !first_run {
        push_arg(&mut args, "-c");
    }
    if fork {
        push_arg(&mut args, "--fork");
    }
    proof {
        assert(strs(args@) =~= prompt_run_args(
            sid@,
            match dir {
                Some(d) => Some(d@),
                None => None,
            },
            fork,
            cont,
            first_run,
        ));
    }
    args
}

/// A prompt typed or edited by the user, unless it is only whitespace.
pub fn prompt_from(text: String) -> (r: Option<String>)
    ensures
        match r {
            Some(p) => !is_blank(text@) && p@ == text@,
            None => is_blank(text@),
        },
{
    if blank(text.as_str()) {
        None
    } else {
        Some(text)
    }
}

// ───────────────────────── the output of a run ─────────────────────────

/// How much of a run's output is rendered: at most about a million bytes,
/// cut at the last line break before that.
pub const RENDER_LIMIT: usize = 1_000_000;

/// The index of the last `\n` in `s`, if any.
pub open spec fn last_newline(s: Seq<char>) -> Option<int>
    decreases s.len(),
{
    if s.len() == 0 {
        None
    } else if s.last() == '\n' {
        Some(s.len() - 1)
    } else {
        last_newline(s.drop_last())
    }
}

/// The last line break is inside the text.
pub proof fn lemma_last_newline(s: Seq<char>)
    ensures
        last_newline(s) matches Some(k) ==> 0 <= k < s.len() && s[k] == '\n',
    decreases s.len(),
{
    if s.len() > 0 && s.last() != '\n' {
        lemma_last_newline(s.drop_last());
    }
}

/// Where the output is cut when it is longer than the limit: `m` is the
/// number of characters that make up the first [`RENDER_LIMIT`] bytes; the
/// cut is at the last line break among them, or after them when there is
/// none. The result is the number of characters kept.
pub open spec fn output_cut(s: Seq<char>, m: int) -> int {
    match last_newline(s.take(m)) {
        Some(k) => k,
        None => m,
    }
}

/// What part of a run's output is rendered, and the note appended after it.
pub struct OutputCut {
    /// The output to render.
    pub text: String,
    /// The size in KB of what was kept, when the output was cut.
    pub kept_kb: Option<usize>,
}

/// The number of characters that make up the first `n` bytes of `s`, when
/// `n` bytes end at a character boundary.
pub open spec fn chars_in_bytes(s: Seq<char>, n: int, m: int) -> bool {
    0 <= m <= s.len() && utf8_len(s.take(m)) == n
}

/// Cuts a run's output before it is rendered: output of at most
/// [`RENDER_LIMIT`] bytes is kept whole; longer output is cut at the last
/// line break within that many bytes (or at the limit when there is none),
/// and the size kept is reported in KB.
pub fn cut_output(cleaned: String) -> (r: OutputCut)
    requires
        utf8_len(cleaned@) > 1_000_000 ==> exists|m: int| chars_in_bytes(cleaned@, 1_000_000, m),
    ensures
        utf8_len(cleaned@) <= 1_000_000 ==> r.text@ == cleaned@ && r.kept_kb is None,
        utf8_len(cleaned@) > 1_000_000 ==> exists|m: int|
            chars_in_bytes(cleaned@, 1_000_000, m) && r.text@ == cleaned@.take(output_cut(cleaned@, m))
                && r.kept_kb == Some((utf8_len(cleaned@.take(output_cut(cleaned@, m))) / 1024) as usize),
{
    if byte_len(cleaned.as_str()) <= RENDER_LIMIT {
        return OutputCut { text: cleaned, kept_kb: None };
    }
    let cs = chars_of(cleaned.as_str());
    let ghost s = cleaned@;
    let mut bytes: usize = 0;
    let mut m: usize = 0;
    let mut last_nl: Option<usize> = None;
    let mut bytes_at_nl: usize = 0;
    proof {
        assert(s.take(0) =~= Seq::<char>::empty());
    }
    while bytes < RENDER_LIMIT
        invariant
            m <= cs@.len(),
            cs@ == s,
            utf8_len(s) > 1_000_000,
            bytes == utf8_len(s.take(m as int)),
            bytes <= RENDER_LIMIT,
            exists|k: int| chars_in_bytes(s, 1_000_000, k),
            match last_nl {
                Some(k) => last_newline(s.take(m as int)) == Some(k as int) && bytes_at_nl == utf8_len(
                    s.take(k as int),
                ),
                None => last_newline(s.take(m as int)) is None,
            },
        decreases RENDER_LIMIT - bytes,
    {
        proof {
            if m == cs.len() {
                assert(s.take(m as int) =~= s);
            }
        }
        let w = crate::split::char_utf8_width(cs[m]);
        proof {
            assert(s.take(m + 1).drop_last() =~= s.take(m as int));
            crate::split::lemma_utf8_len_prefix(s, m as int, m + 1);
            let k = choose|k: int| chars_in_bytes(s, 1_000_000, k);
            if k <= m {
                crate::split::lemma_utf8_len_prefix(s, k, m as int);
            } else {
                crate::split::lemma_utf8_len_prefix(s, m + 1, k);
            }
        }
        if cs[m] == '\n' {
            last_nl = Some(m);
            bytes_at_nl = bytes;
        }
        bytes = bytes + w;
        m = m + 1;
    }
    let ghost mm = m as int;
    proof {
        assert(chars_in_bytes(s, 1_000_000, mm));
        lemma_last_newline(s.take(mm));
    }
    let keep = match last_nl {
        Some(k) => k,
        None => m,
    };
    let kept_bytes = match last_nl {
        Some(k) => bytes_at_nl,
        None => bytes,
    };
    let mut text = String::new();
    push_chars_range(&mut text, &cs, 0, keep);
    proof {
        assert(cs@.subrange(0, keep as int) =~= s.take(output_cut(s, mm)));
    }
    OutputCut { text, kept_kb: Some(kept_bytes / 1024) }
}

/// Whether rendered output goes through the pager: when it has more lines
/// than fit on the screen.
pub fn needs_pager(rendered: &str, visible_h: usize) -> (r: bool)
    ensures
        r == (lines_of(rendered@).len() > visible_h),
{
    let lines = split_lines(rendered);
    assert(strs(lines@).len() == lines@.len());
    lines.len() > visible_h
}

/// What the user chose after a run.
#[derive(Clone, Copy, Debug, PartialEq, Eq, Structural)]
pub enum AfterRun {
    /// `u`: take back the last message and type a replacement.
    Undo,
    /// An empty line: type the next message.
    Next,
    /// Anything else: leave.
    Quit,
}

/// The choice a line typed after a run names, read trimmed and in lower
/// case.
pub open spec fn after_run_choice(line: Seq<char>) -> AfterRun {
    let a = lowercase(trim_seq(line));
    if a == "u"@ {
        AfterRun::Undo
    } else if a == ""@ {
        AfterRun::Next
    } else {
        AfterRun::Quit
    }
}

/// Reads the choice typed after a run (see [`after_run_choice`]).
pub fn parse_after_run(line: &str) -> (r: AfterRun)
    ensures
        r == after_run_choice(line@),
{
    let t = trim(line);
    let a = to_lowercase(t.as_str());
    if str_eq(a.as_str(), "u") {
        AfterRun::Undo
    } else if str_eq(a.as_str(), "") {
        AfterRun::Next
    } else {
        AfterRun::Quit
    }
}

/// The index of the last message of the user, if any: the one an undo
/// takes back.
pub fn last_user_message(msgs: &Vec<Message>) -> (r: Option<usize>)
    ensures
        match r {
            Some(i) => i < msgs@.len() && msgs@[i as int].data.role@ == "user"@ && forall|j: int|
                i < j < msgs@.len() ==> #[trigger] msgs@[j].data.role@ != "user"@,
            None => forall|j: int| 0 <= j < msgs@.len() ==> #[trigger] msgs@[j].data.role@ != "user"@,
        },
{
    let mut i = msgs.len();
    while i > 0
        invariant
            i <= msgs@.len(),
            forall|j: int| i <= j < msgs@.len() ==> #[trigger] msgs@[j].data.role@ != "user"@,
        decreases i,
    {
        if str_eq(msgs[i - 1].data.role.as_str(), "user") {
            return Some(i - 1);
        }
        i = i - 1;
    }
    None
}

// ───────────────────────── typing a prompt ─────────────────────────

/// A key typed at the prompt: `shift` and `control` tell whether Shift, or
/// Control, was the only modifier held.
#[derive(Clone, Copy, Debug, PartialEq, Eq, Structural)]
pub struct PromptKey {
    pub code: KeyCode,
    pub shift: bool,
    pub control: bool,
}

/// What a key at the prompt leads to.
#[derive(Clone, Copy, Debug, PartialEq, Eq, Structural)]
pub enum PromptStep {
    /// Keep reading keys; `redraw` tells whether the text changed.
    Continue { redraw: bool },
    /// Enter: the text is done.
    Submit,
    /// Control-C or Control-D: the input is cancelled.
    Cancel,
}

/// The text after a key and what the key leads to: Shift-Enter adds a line
/// break, Enter submits, Backspace deletes the last character, Control-C and
/// Control-D cancel, and other printable characters are added.
pub open spec fn prompt_step(text: Seq<char>, key: PromptKey) -> (Seq<char>, PromptStep) {
    match key.code {
        KeyCode::Enter => if key.shift {
            (text.push('\n'), PromptStep::Continue { redraw: true })
        } else {
            (text, PromptStep::Submit)
        },
        KeyCode::Backspace => if text.len() > 0 {
            (text.drop_last(), PromptStep::Continue { redraw: true })
        } else {
            (text, PromptStep::Continue { redraw: false })
        },
        KeyCode::Char(c) => if key.control && (c == 'c' || c == 'd') {
            (text, PromptStep::Cancel)
        } else if !is_control_char(c) {
            (text.push(c), PromptStep::Continue { redraw: true })
        } else {
            (text, PromptStep::Continue { redraw: false })
        },
        _ => (text, PromptStep::Continue { redraw: false }),
    }
}

/// Typing a prompt behaves as an editor line: a printable character is
/// added at the end and Backspace takes it off again; Enter submits the
/// text as it is, Shift+Enter adds a line break, and Ctrl+C or Ctrl+D
/// cancel without changing the text.
pub proof fn law_prompt_typing_is_undone_by_backspace(text: Seq<char>, c: char, shift: bool, control: bool)
    requires
        !is_control_char(c),
    ensures
        ({
            let typed = prompt_step(text, PromptKey { code: KeyCode::Char(c), shift, control: false });
            let back = prompt_step(typed.0, PromptKey { code: KeyCode::Backspace, shift, control });
            &&& typed.0 == text.push(c)
            &&& back.0 == text
        }),
        prompt_step(text, PromptKey { code: KeyCode::Enter, shift: false, control }) == (text, PromptStep::Submit),
        prompt_step(text, PromptKey { code: KeyCode::Enter, shift: true, control }).0 == text.push('\n'),
        prompt_step(text, PromptKey { code: KeyCode::Char('c'), shift, control: true }) == (text, PromptStep::Cancel),
        prompt_step(text, PromptKey { code: KeyCode::Char('d'), shift, control: true }) == (text, PromptStep::Cancel),
{
    assert(text.push(c).drop_last() =~= text);
}

/// Applies a key to the text being typed (see [`prompt_step`]).
pub fn prompt_key(text: &mut String, key: PromptKey) -> (r: PromptStep)
    ensures
        (final(text)@, r) == prompt_step(old(text)@, key),
{
    match key.code {
        KeyCode::Enter => {
            if key.shift {
                push_char(text, '\n');
                PromptStep::Continue { redraw: true }
            } else {
                PromptStep::Submit
            }
        },
        KeyCode::Backspace => {
            if text.as_str().unicode_len() > 0 {
                pop_char(text);
                PromptStep::Continue { redraw: true }
            } else {
                PromptStep::Continue { redraw: false }
            }
        },
        KeyCode::Char(c) => {
            let u = c as u32;
            if key.control && (c == 'c' || c == 'd') {
                PromptStep::Cancel
            } else if !(u <= 0x1f || (0x7f <= u && u <= 0x9f)) {
                push_char(text, c);
                PromptStep::Continue { redraw: true }
            } else {
                PromptStep::Continue { redraw: false }
            }
        },
        _ => PromptStep::Continue { redraw: false },
    }
}

/// The lines of a text each ended by `\r\n`.
pub open spec fn crlf_lines(ls: Seq<Seq<char>>) -> Seq<char>
    decreases ls.len(),
{
    if ls.len() == 0 {
        Seq::empty()
    } else {
        crlf_lines(ls.drop_last()) + ls.last() + "\r\n"@
    }
}

/// What is written to show the text typed so far in raw mode: each line
/// ended by `\r\n`, and one more when the text ends with a line break.
pub open spec fn redraw_text(buffer: Seq<char>) -> Seq<char> {
    crlf_lines(lines_of(buffer)) + if buffer.len() > 0 && buffer.last() == '\n' {
        "\r\n"@
    } else {
        Seq::empty()
    }
}

/// The text that shows what was typed so far (see [`redraw_text`]).
pub fn redraw_input_text(buffer: &str) -> (r: String)
    ensures
        r@ == redraw_text(buffer@),
{
    let lines = split_lines(buffer);
    let ghost ls = lines_of(buffer@);
    let mut out = String::new();
    let mut i: usize = 0;
    proof {
        assert(ls.take(0) =~= Seq::<Seq<char>>::empty());
    }
    while i < lines.len()
        invariant
            i <= lines@.len(),
            strs(lines@) == ls,
            out@ == crlf_lines(ls.take(i as int)),
        decreases lines@.len() - i,
    {
        out.append(lines[i].as_str());
        out.append("\r\n");
        proof {
            assert(ls[i as int] == lines@[i as int]@);
            assert(ls.take(i + 1).drop_last() =~= ls.take(i as int));
        }
        i = i + 1;
    }
    proof {
        assert(ls.take(ls.len() as int) =~= ls);
    }
    let cs = chars_of(buffer);
    if cs.len() > 0 && cs[cs.len() - 1] == '\n' {
        out.append("\r\n");
    }
    out
}

// ───────────────────────── watching a session ─────────────────────────

/// What the watch remembers between polls.
pub struct WatchState {
    /// The number of messages already printed.
    pub last_count: i64,
    /// The database's `data_version` at the last poll that saw a change.
    pub last_data_version: i64,
}

impl WatchState {
    /// Records the `data_version` of a poll; returns whether it changed,
    /// that is whether the messages need to be counted again.
    pub fn data_changed(&mut self, dv: i64) -> (changed: bool)
        ensures
            changed == (dv != old(self).last_data_version),
            final(self).last_data_version == dv,
            final(self).last_count == old(self).last_count,
    {
        if dv == self.last_data_version {
            false
        } else {
            self.last_data_version = dv;
            true
        }
    }

    /// Whether a session with `count` messages has new ones.
    pub fn has_new(&self, count: i64) -> (r: bool)
        ensures
            r == (count > self.last_count),
    {
        count > self.last_count
    }

    /// The indices of the messages to print: those from the first not yet
    /// printed on, written by the user or an assistant; none when the count
    /// of printed messages is negative or beyond the messages.
    pub fn to_print(&self, msgs: &Vec<MessageWithParts>) -> (r: Vec<usize>)
        ensures
            self.last_count < 0 || self.last_count > msgs@.len() ==> r@.len() == 0,
            forall|k: int| 0 <= k < r@.len() ==> self.last_count <= #[trigger] r@[k] < msgs@.len(),
            forall|k: int, l: int| 0 <= k < l < r@.len() ==> #[trigger] r@[k] < #[trigger] r@[l],
            0 <= self.last_count <= msgs@.len() ==> forall|j: int|
                self.last_count <= j < msgs@.len() ==> ((exists|k: int| 0 <= k < r@.len() && r@[k] == j) <==> (
                msgs@[j].message.data.role@ == "user"@ || msgs@[j].message.data.role@ == "assistant"@)),
    {
        let mut r: Vec<usize> = Vec::new();
        if self.last_count < 0 || self.last_count as u64 > msgs.len() as u64 {
            return r;
        }
        let mut i = self.last_count as usize;
        while i < msgs.len()
            invariant
                0 <= self.last_count <= i <= msgs@.len(),
                forall|k: int| 0 <= k < r@.len() ==> self.last_count <= #[trigger] r@[k] < i,
                forall|k: int, l: int| 0 <= k < l < r@.len() ==> #[trigger] r@[k] < #[trigger] r@[l],
                forall|j: int|
                    self.last_count <= j < i ==> ((exists|k: int| 0 <= k < r@.len() && r@[k] == j) <==> (
                    msgs@[j].message.data.role@ == "user"@ || msgs@[j].message.data.role@ == "assistant"@)),
            decreases msgs@.len() - i,
        {
            let role = msgs[i].message.data.role.as_str();
            let ghost before = r@;
            if str_eq(role, "user") || str_eq(role, "assistant") {
                r.push(i);
            }
            proof {
                assert forall|j: int| self.last_count <= j < i + 1 implies ((exists|k: int| 0 <= k < r@.len() && r@[k] == j)
                    <==> (msgs@[j].message.data.role@ == "user"@ || msgs@[j].message.data.role@ == "assistant"@)) by {
                    if j < i {
                        if exists|k: int| 0 <= k < r@.len() && r@[k] == j {
                            let k = choose|k: int| 0 <= k < r@.len() && r@[k] == j;
                            assert(k < before.len());
                            assert(before[k] == j);
                        }
                        if exists|k: int| 0 <= k < before.len() && before[k] == j {
                            let k = choose|k: int| 0 <= k < before.len() && before[k] == j;
                            assert(r@[k] == j);
                        }
                    } else {
                        if msgs@[j].message.data.role@ == "user"@ || msgs@[j].message.data.role@ == "assistant"@ {
                            assert(r@[r@.len() - 1] == j);
                        } else {
                            assert(r@ == before);
                        }
                    }
                }
            }
            i = i + 1;
        }
        r
    }
}

} // verus!
