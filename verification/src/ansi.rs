//! ANSI escape sequences in terminal text: stripping them, measuring the
//! visible width of what is left, and cutting a line to a number of visible
//! characters without breaking a sequence.

use vstd::prelude::*;

use crate::text::{chars_of, push_char, push_chars};

verus! {

/// A parameter character of a control sequence: a digit or `;`.
pub open spec fn is_csi_param(c: char) -> bool {
    ('0' <= c && c <= '9') || c == ';'
}

/// An ASCII letter, the final character of a control sequence.
pub open spec fn is_ascii_letter(c: char) -> bool {
    ('a' <= c && c <= 'z') || ('A' <= c && c <= 'Z')
}

/// The index just past the run of parameter characters that starts at `k`.
pub open spec fn param_run_end(s: Seq<char>, k: int) -> int
    decreases s.len() - k,
{
    if 0 <= k < s.len() && is_csi_param(s[k]) {
        param_run_end(s, k + 1)
    } else {
        k
    }
}

/// The run of parameter characters from `k` is well delimited.
pub proof fn lemma_param_run_end(s: Seq<char>, k: int)
    requires
        0 <= k,
    ensures
        k <= param_run_end(s, k),
        param_run_end(s, k) <= s.len() || param_run_end(s, k) == k,
        forall|m: int| k <= m < param_run_end(s, k) ==> is_csi_param(#[trigger] s[m]),
        param_run_end(s, k) < s.len() ==> !is_csi_param(s[param_run_end(s, k)]),
    decreases s.len() - k,
{
    if 0 <= k < s.len() && is_csi_param(s[k]) {
        lemma_param_run_end(s, k + 1);
    }
}

/// The end (exclusive) of the control sequence `ESC [ params letter` that
/// starts at `i`, if one does (the sequences the pattern
/// `\x1b\[[0-9;]*[a-zA-Z]` matches).
pub open spec fn csi_end(s: Seq<char>, i: int) -> Option<int> {
    if 0 <= i && i + 1 < s.len() && s[i] == '\x1b' && s[i + 1] == '[' {
        let e = param_run_end(s, i + 2);
        if e < s.len() && is_ascii_letter(s[e]) {
            Some(e + 1)
        } else {
            None
        }
    } else {
        None
    }
}

/// `s[i..]` with every control sequence removed, scanning left to right.
pub open spec fn strip_from(s: Seq<char>, i: int) -> Seq<char>
    decreases s.len() - i,
    when 0 <= i
{
    if i >= s.len() {
        Seq::empty()
    } else {
        match csi_end(s, i) {
            Some(e) => {
                proof {
                    lemma_param_run_end(s, i + 2);
                }
                strip_from(s, e)
            },
            None => seq![s[i]] + strip_from(s, i + 1),
        }
    }
}

/// `s` without its ANSI control sequences.
pub open spec fn strip_ansi_seq(s: Seq<char>) -> Seq<char> {
    strip_from(s, 0)
}

/// The end of the control sequence starting at `i`, if one does.
fn csi_end_exec(s: &Vec<char>, i: usize) -> (r: Option<usize>)
    requires
        i < s.len(),
    ensures
        r matches Some(e) ==> csi_end(s@, i as int) == Some(e as int),
        r is None ==> csi_end(s@, i as int) is None,
{
    if i + 1 < s.len() && s[i] == '\x1b' && s[i + 1] == '[' {
        let mut e = i + 2;
        proof {
            lemma_param_run_end(s@, i + 2);
        }
        while e < s.len() && (('0' <= s[e] && s[e] <= '9') || s[e] == ';')
            invariant
                i + 2 <= e <= s.len(),
                param_run_end(s@, i + 2) == param_run_end(s@, e as int),
            decreases s.len() - e,
        {
            e = e + 1;
        }
        if e < s.len() && (('a' <= s[e] && s[e] <= 'z') || ('A' <= s[e] && s[e] <= 'Z')) {
            Some(e + 1)
        } else {
            None
        }
    } else {
        None
    }
}

/// `text` with its ANSI control sequences removed.
pub fn strip_ansi(text: &str) -> (r: String)
    ensures
        r@ == strip_ansi_seq(text@),
{
    let s = chars_of(text);
    let mut out = String::new();
    let mut i: usize = 0;
    while i < s.len()
        invariant
            s@ == text@,
            i <= s.len(),
            strip_from(s@, 0) == out@ + strip_from(s@, i as int),
        decreases s.len() - i,
    {
        match csi_end_exec(&s, i) {
            Some(e) => {
                proof {
                    lemma_param_run_end(s@, i + 2);
                }
                i = e;
            },
            None => {
                push_char(&mut out, s[i]);
                i = i + 1;
            },
        }
    }
    out
}

/// The displayed width in terminal columns of `s`, as the `unicode-width`
/// crate measures it (`UnicodeWidthStr::width`).
pub uninterp spec fn unicode_width(s: Seq<char>) -> nat;

/// `UnicodeWidthStr::width` of `unicode-width`: the string's displayed width
/// in columns. Claimed: the result is the crate's measure of the string (a
/// function of the characters alone), and an empty string has width 0.
#[verifier::external_body]
fn str_width(s: &str) -> (r: usize)
    ensures
        r == unicode_width(s@),
        s@.len() == 0 ==> r == 0,
{
    unicode_width::UnicodeWidthStr::width(s)
}

/// The visible width of `text`: the `unicode-width` width of the text
/// without its control sequences.
pub fn visible_width(text: &str) -> (r: usize)
    ensures
        r == unicode_width(strip_ansi_seq(text@)),
{
    let plain = strip_ansi(text);
    str_width(plain.as_str())
}

/// The number of columns a character takes on screen: the `unicode-width`
/// width of the one-character string.
pub open spec fn char_columns(c: char) -> nat {
    unicode_width(seq![c])
}

/// The columns a character takes (see [`char_columns`]).
fn char_width(c: char) -> (w: usize)
    ensures
        w == char_columns(c),
{
    let mut one = String::new();
    push_char(&mut one, c);
    assert(one@ =~= seq![c]);
    str_width(one.as_str())
}

/// The state of [`truncate_ansi`] after reading `s`: what it has written,
/// whether it is inside an escape sequence, how many columns its visible
/// characters take, and whether the line has been cut (a character did not
/// fit, so no later visible character is written).
pub open spec fn truncate_state(s: Seq<char>, max_width: nat) -> (Seq<char>, bool, nat, bool)
    decreases s.len(),
{
    if s.len() == 0 {
        (Seq::empty(), false, 0, false)
    } else {
        let (out, escaped, visible, cut) = truncate_state(s.drop_last(), max_width);
        let c = s.last();
        if escaped {
            (out.push(c), c != 'm', visible, cut)
        } else if c == '\x1b' {
            (out.push(c), true, visible, cut)
        } else if cut || visible + char_columns(c) > max_width {
            (out, false, visible, true)
        } else {
            (out.push(c), false, visible + char_columns(c), false)
        }
    }
}

/// `line` cut to `max_width` visible columns: its visible characters up to
/// the first one that would go past the limit, each counted by its width
/// (see [`char_columns`]); an escape sequence (from `ESC` to the next `m`)
/// is always kept whole and not counted, and a sequence left open at the
/// end is closed with `m`.
pub open spec fn truncate_ansi_seq(line: Seq<char>, max_width: nat) -> Seq<char> {
    if max_width == 0 {
        Seq::empty()
    } else {
        let (out, escaped, _, _) = truncate_state(line, max_width);
        if escaped {
            out.push('m')
        } else {
            out
        }
    }
}

/// Cuts a line that may hold ANSI escapes to `max_width` visible columns.
pub fn truncate_ansi(line: &str, max_width: usize) -> (r: String)
    ensures
        r@ == truncate_ansi_seq(line@, max_width as nat),
{
    if max_width == 0 {
        return String::new();
    }
    let s = chars_of(line);
    let mut visible: usize = 0;
    let mut escaped = false;
    let mut cut = false;
    let mut result = String::new();
    let mut i: usize = 0;
    while i < s.len()
        invariant
            s@ == line@,
            i <= s.len(),
            truncate_state(s@.take(i as int), max_width as nat) == (result@, escaped, visible as nat, cut),
            visible <= max_width,
        decreases s.len() - i,
    {
        let c = s[i];
        proof {
            assert(s@.take(i + 1).drop_last() =~= s@.take(i as int));
            assert(s@.take(i + 1).last() == c);
        }
        if escaped {
            push_char(&mut result, c);
            if c == 'm' {
                escaped = false;
            }
        } else if c == '\x1b' {
            escaped = true;
            push_char(&mut result, c);
        } else if !cut {
            let w = char_width(c);
            if w > max_width - visible {
                cut = true;
            } else {
                visible = visible + w;
                push_char(&mut result, c);
            }
        }
        i = i + 1;
    }
    assert(s@.take(s@.len() as int) =~= s@);
    if escaped {
        push_char(&mut result, 'm');
    }
    result
}

/// Reading what [`truncate_state`] has written leads to the same output,
/// escape state and columns, and to a cut only where reading the line did.
proof fn lemma_truncate_state_rereads(s: Seq<char>, max_width: nat)
    ensures
        ({
            let (out, escaped, visible, cut) = truncate_state(s, max_width);
            let (out2, escaped2, visible2, cut2) = truncate_state(out, max_width);
            out2 == out && escaped2 == escaped && visible2 == visible && (cut2 ==> cut)
        }),
    decreases s.len(),
{
    if s.len() > 0 {
        let p = s.drop_last();
        lemma_truncate_state_rereads(p, max_width);
        let (out, escaped, visible, cut) = truncate_state(p, max_width);
        let c = s.last();
        assert(out.push(c).drop_last() =~= out);
    }
}

/// A line cut to a width is already within it: cutting it again to the same
/// width changes nothing.
pub proof fn law_truncate_is_idempotent(line: Seq<char>, max_width: nat)
    ensures
        truncate_ansi_seq(truncate_ansi_seq(line, max_width), max_width) == truncate_ansi_seq(line, max_width),
{
    if max_width > 0 {
        lemma_truncate_state_rereads(line, max_width);
        let (out, escaped, visible, cut) = truncate_state(line, max_width);
        if escaped {
            assert(out.push('m').drop_last() =~= out);
        }
    }
}

/// Scanning `s` from the start: whether it ends inside an escape sequence
/// (from `ESC` to the next `m`), and how many columns its characters outside
/// escape sequences take.
pub open spec fn columns_state(s: Seq<char>) -> (bool, nat)
    decreases s.len(),
{
    if s.len() == 0 {
        (false, 0)
    } else {
        let (escaped, cols) = columns_state(s.drop_last());
        let c = s.last();
        if escaped {
            (c != 'm', cols)
        } else if c == '\x1b' {
            (true, cols)
        } else {
            (false, cols + char_columns(c))
        }
    }
}

/// The columns that the characters of `s` outside escape sequences take.
pub open spec fn visible_columns(s: Seq<char>) -> nat {
    columns_state(s).1
}

/// What [`truncate_state`] writes scans as its escape state and columns.
proof fn lemma_truncate_state_columns(s: Seq<char>, max_width: nat)
    ensures
        ({
            let (out, escaped, visible, cut) = truncate_state(s, max_width);
            columns_state(out) == (escaped, visible) && visible <= max_width
        }),
    decreases s.len(),
{
    if s.len() > 0 {
        let p = s.drop_last();
        lemma_truncate_state_columns(p, max_width);
        let (out, escaped, visible, cut) = truncate_state(p, max_width);
        let c = s.last();
        assert(out.push(c).drop_last() =~= out);
    }
}

/// A line cut to a width takes at most that many columns on screen.
pub proof fn law_truncate_fits_width(line: Seq<char>, max_width: nat)
    ensures
        visible_columns(truncate_ansi_seq(line, max_width)) <= max_width,
{
    if max_width > 0 {
        lemma_truncate_state_columns(line, max_width);
        let (out, escaped, visible, cut) = truncate_state(line, max_width);
        if escaped {
            assert(out.push('m').drop_last() =~= out);
        }
    }
}

} // verus!
