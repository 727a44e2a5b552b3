//! Whitespace trimming, line splitting and UTF-8 lengths of character
//! sequences, as `str::trim`, `str::lines` and `str::len` define them.

use vstd::prelude::*;

use crate::text::{chars_of, push_chars_range, string_of_chars, strs};

verus! {

// ───────────────────────── whitespace ─────────────────────────

/// A character with the Unicode `White_Space` property (`char::is_whitespace`).
pub open spec fn is_ws(c: char) -> bool {
    let u = c as int;
    (0x09 <= u && u <= 0x0d) || u == 0x20 || u == 0x85 || u == 0xa0 || u == 0x1680 || (0x2000 <= u
        && u <= 0x200a) || u == 0x2028 || u == 0x2029 || u == 0x202f || u == 0x205f || u == 0x3000
}

/// `char::is_whitespace`.
pub fn is_whitespace(c: char) -> (r: bool)
    ensures
        r == is_ws(c),
{
    let u = c as u32;
    (0x09 <= u && u <= 0x0d) || u == 0x20 || u == 0x85 || u == 0xa0 || u == 0x1680 || (0x2000 <= u
        && u <= 0x200a) || u == 0x2028 || u == 0x2029 || u == 0x202f || u == 0x205f || u == 0x3000
}

/// The number of whitespace characters at the start of `s`.
pub open spec fn lead_ws(s: Seq<char>) -> nat
    decreases s.len(),
{
    if s.len() == 0 || !is_ws(s[0]) {
        0
    } else {
        1 + lead_ws(s.skip(1))
    }
}

/// The number of whitespace characters at the end of `s`.
pub open spec fn trail_ws(s: Seq<char>) -> nat
    decreases s.len(),
{
    if s.len() == 0 || !is_ws(s.last()) {
        0
    } else {
        1 + trail_ws(s.drop_last())
    }
}

/// `s` without leading and trailing whitespace (`str::trim`).
pub open spec fn trim_seq(s: Seq<char>) -> Seq<char> {
    if lead_ws(s) >= s.len() {
        Seq::empty()
    } else {
        s.subrange(lead_ws(s) as int, s.len() - trail_ws(s))
    }
}

/// Whether `s` holds only whitespace (`s.trim().is_empty()`).
pub open spec fn is_blank(s: Seq<char>) -> bool {
    trim_seq(s).len() == 0
}

proof fn lemma_lead_ws(s: Seq<char>)
    ensures
        lead_ws(s) <= s.len(),
        forall|k: int| 0 <= k < lead_ws(s) ==> is_ws(#[trigger] s[k]),
        lead_ws(s) < s.len() ==> !is_ws(s[lead_ws(s) as int]),
    decreases s.len(),
{
    if s.len() > 0 && is_ws(s[0]) {
        lemma_lead_ws(s.skip(1));
        assert forall|k: int| 0 <= k < lead_ws(s) implies is_ws(#[trigger] s[k]) by {
            if k > 0 {
                assert(s[k] == s.skip(1)[k - 1]);
            }
        }
        if lead_ws(s) < s.len() {
            assert(s[lead_ws(s) as int] == s.skip(1)[lead_ws(s.skip(1)) as int]);
        }
    }
}

proof fn lemma_trail_ws(s: Seq<char>)
    ensures
        trail_ws(s) <= s.len(),
        forall|k: int| s.len() - trail_ws(s) <= k < s.len() ==> is_ws(#[trigger] s[k]),
        trail_ws(s) < s.len() ==> !is_ws(s[s.len() - trail_ws(s) - 1]),
    decreases s.len(),
{
    if s.len() > 0 && is_ws(s.last()) {
        lemma_trail_ws(s.drop_last());
        assert forall|k: int| s.len() - trail_ws(s) <= k < s.len() implies is_ws(#[trigger] s[k]) by {
            if k < s.len() - 1 {
                assert(s[k] == s.drop_last()[k]);
            }
        }
        if trail_ws(s) < s.len() {
            assert(s[s.len() - trail_ws(s) - 1] == s.drop_last()[s.drop_last().len() - trail_ws(
                s.drop_last(),
            ) - 1]);
        }
    }
}

/// The number of leading whitespace characters is the index of the first
/// other character.
proof fn lemma_lead_ws_is_first(s: Seq<char>, i: int)
    requires
        0 <= i <= s.len(),
        forall|k: int| 0 <= k < i ==> is_ws(#[trigger] s[k]),
        i == s.len() || !is_ws(s[i]),
    ensures
        lead_ws(s) == i,
    decreases s.len(),
{
    if s.len() > 0 && is_ws(s[0]) {
        assert(i > 0);
        assert forall|k: int| 0 <= k < i - 1 implies is_ws(#[trigger] s.skip(1)[k]) by {
            assert(s.skip(1)[k] == s[k + 1]);
        }
        if i < s.len() {
            assert(s.skip(1)[i - 1] == s[i]);
        }
        lemma_lead_ws_is_first(s.skip(1), i - 1);
    }
}

/// The number of trailing whitespace characters is the distance from the end
/// of the last other character.
proof fn lemma_trail_ws_is_last(s: Seq<char>, j: int)
    requires
        0 <= j <= s.len(),
        forall|k: int| j <= k < s.len() ==> is_ws(#[trigger] s[k]),
        j == 0 || !is_ws(s[j - 1]),
    ensures
        trail_ws(s) == s.len() - j,
    decreases s.len(),
{
    if s.len() > 0 && is_ws(s.last()) {
        assert(j < s.len());
        let t = s.drop_last();
        assert forall|k: int| j <= k < t.len() implies is_ws(#[trigger] t[k]) by {
            assert(t[k] == s[k]);
        }
        if j > 0 {
            assert(t[j - 1] == s[j - 1]);
        }
        lemma_trail_ws_is_last(t, j);
    }
}

/// `str::trim`.
pub fn trim(s: &str) -> (r: String)
    ensures
        r@ == trim_seq(s@),
{
    let cs = chars_of(s);
    let n = cs.len();
    let mut i: usize = 0;
    while i < n && is_whitespace(cs[i])
        invariant
            i <= n,
            n == cs@.len(),
            cs@ == s@,
            forall|k: int| 0 <= k < i ==> is_ws(#[trigger] cs@[k]),
        decreases n - i,
    {
        i = i + 1;
    }
    proof {
        lemma_lead_ws_is_first(s@, i as int);
    }
    if i == n {
        return String::new();
    }
    let mut j: usize = n;
    while j > i && is_whitespace(cs[j - 1])
        invariant
            i < n,
            i <= j <= n,
            n == cs@.len(),
            cs@ == s@,
            !is_ws(cs@[i as int]),
            forall|k: int| j <= k < n ==> is_ws(#[trigger] cs@[k]),
        decreases j,
    {
        j = j - 1;
    }
    proof {
        lemma_trail_ws_is_last(s@, j as int);
    }
    let mut out = String::new();
    push_chars_range(&mut out, &cs, i, j);
    out
}

/// `s.trim().is_empty()`.
pub fn blank(s: &str) -> (r: bool)
    ensures
        r == is_blank(s@),
{
    let t = trim(s);
    t.as_str().unicode_len() == 0
}

/// Trimming cuts whitespace off both ends and nothing else: the text is
/// what was before it, the trimmed text and what was after it, the cut
/// parts are all whitespace, and a non-empty trimmed text starts and ends
/// with a character that is not whitespace.
pub proof fn law_trim_cuts_only_whitespace(s: Seq<char>)
    ensures
        ({
            let t = trim_seq(s);
            exists|i: int|
                0 <= i && i + t.len() <= s.len() && #[trigger] s.subrange(i, i + t.len()) == t
                    && (forall|k: int| 0 <= k < i ==> is_ws(#[trigger] s[k]))
                    && (forall|k: int| i + t.len() <= k < s.len() ==> is_ws(#[trigger] s[k]))
        }),
        trim_seq(s).len() > 0 ==> !is_ws(trim_seq(s)[0]) && !is_ws(trim_seq(s).last()),
{
    lemma_lead_ws(s);
    lemma_trail_ws(s);
    let t = trim_seq(s);
    let l = lead_ws(s) as int;
    if l >= s.len() {
        assert(t.len() == 0);
        assert(s.subrange(0int, 0int + t.len()) =~= t);
        assert forall|k: int| 0int + t.len() <= k < s.len() implies is_ws(#[trigger] s[k]) by {}
        assert(forall|k: int| 0 <= k < 0 ==> is_ws(#[trigger] s[k]));
    } else {
        let r = s.len() - trail_ws(s);
        assert(l < r) by {
            if r <= l {
                assert(is_ws(s[l]));
            }
        }
        assert(s.subrange(l, l + t.len()) == t);
        assert(l + t.len() == r);
        assert(forall|k: int| l + t.len() <= k < s.len() ==> is_ws(#[trigger] s[k]));
        assert(forall|k: int| 0 <= k < l ==> is_ws(#[trigger] s[k]));
        assert(t[0] == s[l]);
        assert(t.last() == s[r - 1]);
    }
}

// ───────────────────────── lines ─────────────────────────

/// The index of the first `\n` in `s`, or its length when there is none.
pub open spec fn line_end(s: Seq<char>) -> nat
    decreases s.len(),
{
    if s.len() == 0 || s[0] == '\n' {
        0
    } else {
        1 + line_end(s.skip(1))
    }
}

/// A line without the `\r` that ended it before its `\n`.
pub open spec fn strip_cr(line: Seq<char>) -> Seq<char> {
    if line.len() > 0 && line.last() == '\r' {
        line.drop_last()
    } else {
        line
    }
}

/// The lines of `s` as `str::lines` yields them: split at each `\n`, a `\r`
/// just before it dropped, and no empty line after a final `\n`.
pub open spec fn lines_of(s: Seq<char>) -> Seq<Seq<char>>
    decreases s.len(),
{
    if s.len() == 0 {
        Seq::empty()
    } else {
        let k = line_end(s);
        if k >= s.len() {
            seq![s]
        } else {
            seq![strip_cr(s.take(k as int))] + lines_of(s.skip(k + 1 as int))
        }
    }
}

/// `line_end` is the index of the first newline.
pub proof fn lemma_line_end(s: Seq<char>)
    ensures
        line_end(s) <= s.len(),
        forall|k: int| 0 <= k < line_end(s) ==> #[trigger] s[k] != '\n',
        line_end(s) < s.len() ==> s[line_end(s) as int] == '\n',
    decreases s.len(),
{
    if s.len() > 0 && s[0] != '\n' {
        lemma_line_end(s.skip(1));
        assert forall|k: int| 0 <= k < line_end(s) implies #[trigger] s[k] != '\n' by {
            if k > 0 {
                assert(s[k] == s.skip(1)[k - 1]);
            }
        }
        if line_end(s) < s.len() {
            assert(s[line_end(s) as int] == s.skip(1)[line_end(s.skip(1)) as int]);
        }
    }
}

proof fn lemma_line_end_is_first(s: Seq<char>, i: int)
    requires
        0 <= i <= s.len(),
        forall|k: int| 0 <= k < i ==> #[trigger] s[k] != '\n',
        i == s.len() || s[i] == '\n',
    ensures
        line_end(s) == i,
    decreases s.len(),
{
    if s.len() > 0 && s[0] != '\n' {
        assert(i > 0);
        assert forall|k: int| 0 <= k < i - 1 implies #[trigger] s.skip(1)[k] != '\n' by {
            assert(s.skip(1)[k] == s[k + 1]);
        }
        if i < s.len() {
            assert(s.skip(1)[i - 1] == s[i]);
        }
        lemma_line_end_is_first(s.skip(1), i - 1);
    }
}

/// Text is split into lines at each newline and nowhere else: a text with
/// no newline is one line (none when empty), and a line ended by a newline
/// is the first line, without a `\r` before the newline, followed by the
/// lines of the rest.
pub proof fn law_lines_split_at_each_newline(a: Seq<char>, b: Seq<char>)
    requires
        forall|k: int| 0 <= k < a.len() ==> #[trigger] a[k] != '\n',
    ensures
        lines_of(Seq::empty()) == Seq::<Seq<char>>::empty(),
        a.len() > 0 ==> lines_of(a) == seq![a],
        lines_of(a + seq!['\n'] + b) == seq![strip_cr(a)] + lines_of(b),
{
    lemma_line_end_is_first(a, a.len() as int);
    let s = a + seq!['\n'] + b;
    assert forall|k: int| 0 <= k < a.len() implies #[trigger] s[k] != '\n' by {
        assert(s[k] == a[k]);
    }
    lemma_line_end_is_first(s, a.len() as int);
    assert(s.take(a.len() as int) =~= a);
    assert(s.skip(a.len() + 1 as int) =~= b);
}

/// The lines of `s` (`str::lines`).
pub fn split_lines(s: &str) -> (r: Vec<String>)
    ensures
        strs(r@) == lines_of(s@),
{
    let cs = chars_of(s);
    let n = cs.len();
    let mut out: Vec<String> = Vec::new();
    let mut i: usize = 0;
    proof {
        assert(s@.skip(0) =~= s@);
        assert(strs(out@) + lines_of(s@) =~= lines_of(s@));
    }
    while i < n
        invariant
            i <= n,
            n == cs@.len(),
            cs@ == s@,
            strs(out@) + lines_of(s@.skip(i as int)) == lines_of(s@),
        decreases n - i,
    {
        let mut j = i;
        while j < n && cs[j] != '\n'
            invariant
                i <= j <= n,
                n == cs@.len(),
                forall|k: int| i <= k < j ==> #[trigger] cs@[k] != '\n',
            decreases n - j,
        {
            j = j + 1;
        }
        let ghost rest = s@.skip(i as int);
        proof {
            assert forall|k: int| 0 <= k < j - i implies #[trigger] rest[k] != '\n' by {
                assert(rest[k] == cs@[i + k]);
            }
            if j < n {
                assert(rest[j - i] == cs@[j as int]);
            }
            lemma_line_end_is_first(rest, j - i);
        }
        let mut stop = j;
        if j < n && j > i && cs[j - 1] == '\r' {
            stop = j - 1;
        }
        let mut line = String::new();
        push_chars_range(&mut line, &cs, i, stop);
        let ghost before = out@;
        out.push(line);
        proof {
            assert(strs(out@) =~= strs(before).push(line@));
            if j < n {
                assert(rest.take(j - i) =~= cs@.subrange(i as int, j as int));
                assert(line@ =~= strip_cr(rest.take(j - i)));
                assert(rest.skip(j - i + 1) =~= s@.skip(j + 1));
                assert(lines_of(rest) == seq![strip_cr(rest.take(j - i))] + lines_of(s@.skip(j + 1)));
                assert(strs(out@) + lines_of(s@.skip(j + 1)) =~= strs(before) + lines_of(rest));
            } else {
                assert(line@ =~= rest);
                assert(s@.skip(n as int) =~= Seq::<char>::empty());
                assert(strs(out@) + lines_of(s@.skip(n as int)) =~= strs(before) + lines_of(rest));
            }
        }
        if j < n {
            i = j + 1;
        } else {
            i = n;
        }
    }
    proof {
        assert(s@.skip(n as int) =~= Seq::<char>::empty());
        assert(strs(out@) + lines_of(s@.skip(n as int)) =~= strs(out@));
    }
    out
}

/// The first line of `s`, if it has any (`s.lines().next()`).
pub open spec fn first_line(s: Seq<char>) -> Option<Seq<char>> {
    if lines_of(s).len() > 0 {
        Some(lines_of(s)[0])
    } else {
        None
    }
}

// ───────────────────────── UTF-8 length ─────────────────────────

/// The number of bytes UTF-8 takes for `c`.
pub open spec fn utf8_width(c: char) -> nat {
    let u = c as int;
    if u < 0x80 {
        1
    } else if u < 0x800 {
        2
    } else if u < 0x10000 {
        3
    } else {
        4
    }
}

/// The length of `s` in UTF-8 bytes (`str::len`).
pub open spec fn utf8_len(s: Seq<char>) -> nat
    decreases s.len(),
{
    if s.len() == 0 {
        0
    } else {
        utf8_len(s.drop_last()) + utf8_width(s.last())
    }
}

/// The UTF-8 width of one character.
pub fn char_utf8_width(c: char) -> (r: usize)
    ensures
        r == utf8_width(c),
{
    let u = c as u32;
    if u < 0x80 {
        1
    } else if u < 0x800 {
        2
    } else if u < 0x10000 {
        3
    } else {
        4
    }
}

/// The UTF-8 lengths of a sequence's prefixes grow with the prefix.
pub proof fn lemma_utf8_len_prefix(s: Seq<char>, i: int, j: int)
    requires
        0 <= i <= j <= s.len(),
    ensures
        utf8_len(s.take(i)) <= utf8_len(s.take(j)),
        utf8_len(s.take(j)) <= utf8_len(s),
    decreases j - i,
{
    lemma_utf8_len_upto(s, j);
    if i < j {
        lemma_utf8_len_prefix(s, i, j - 1);
        assert(s.take(j).drop_last() =~= s.take(j - 1));
    }
}

proof fn lemma_utf8_len_upto(s: Seq<char>, j: int)
    requires
        0 <= j <= s.len(),
    ensures
        utf8_len(s.take(j)) <= utf8_len(s),
    decreases s.len() - j,
{
    if j < s.len() {
        lemma_utf8_len_upto(s, j + 1);
        assert(s.take(j + 1).drop_last() =~= s.take(j));
    } else {
        assert(s.take(j) =~= s);
    }
}

/// `str::len`, the length of `s` in UTF-8 bytes, or `usize::MAX` when it
/// would not fit (which no string in memory reaches).
pub fn byte_len(s: &str) -> (r: usize)
    ensures
        r == (if utf8_len(s@) <= usize::MAX {
            utf8_len(s@)
        } else {
            usize::MAX as nat
        }),
{
    let cs = chars_of(s);
    let mut total: usize = 0;
    let mut i: usize = 0;
    while i < cs.len()
        invariant
            i <= cs.len(),
            cs@ == s@,
            utf8_len(s@.take(i as int)) <= usize::MAX ==> total == utf8_len(s@.take(i as int)),
            utf8_len(s@.take(i as int)) > usize::MAX ==> total == usize::MAX,
        decreases cs.len() - i,
    {
        proof {
            assert(s@.take(i + 1).drop_last() =~= s@.take(i as int));
        }
        let w = char_utf8_width(cs[i]);
        if total > usize::MAX - w {
            total = usize::MAX;
        } else {
            total = total + w;
        }
        i = i + 1;
    }
    proof {
        assert(s@.take(cs.len() as int) =~= s@);
    }
    total
}

} // verus!
