//! Terminal styling of rendered text: the data highlights applied to plain
//! markdown text, the folding of `<details>` blocks, and syntax highlighting
//! of code blocks.
//!
//! Pattern matching is `regex`'s and highlighting is `syntect`'s; what the
//! library adds is which patterns, which replacements and when.

use vstd::prelude::*;

use crate::split::{lines_of, split_lines};
use crate::text::{dec_nat, lemma_strs_push, push_char, push_dec_usize, strs};

verus! {

// ───────────────────────── regular expressions ─────────────────────────

/// A finish marker line `> ⏹ ...`.
pub const FINISHED_PATTERN: &'static str = "(?m)^> ⏹ .+$";

/// A diff count `(+N/-M)`.
pub const DIFF_PATTERN: &'static str = r"\((\+)(\d+)/-(\d+)\)";

/// A cost `$N.NN`.
pub const COST_PATTERN: &'static str = r"\$[0-9]+\.[0-9]+";

/// A token count `N tokens`.
pub const TOKENS_PATTERN: &'static str = r"\b[0-9]+ tokens\b";

/// A `<details>` block with its `<summary>`.
pub const DETAILS_PATTERN: &'static str = r"(?s)<details>\n?<summary>(.*?)</summary>\s*(.*?)</details>";

/// A level-one heading line.
pub const H1_PATTERN: &'static str = "(?m)^# (.+)$";

/// A level-two heading line.
pub const H2_PATTERN: &'static str = "(?m)^## (.+)$";

/// A separator line of three or more dashes.
pub const SEPARATOR_PATTERN: &'static str = r"(?m)^-{3,}\s*$";

/// Inline code between backticks.
pub const BACKTICK_PATTERN: &'static str = "`([^`]+)`";

/// Bold text between double asterisks.
pub const BOLD_PATTERN: &'static str = r"\*\*([^*]+)\*\*";

/// A fenced code block with its language and body.
pub const CODE_BLOCK_PATTERN: &'static str = r"(?ms)^```(\w*)\n(.*?)^```\s*$";

/// The patterns this library hands to `regex`; each of them compiles.
pub open spec fn known_pattern(p: Seq<char>) -> bool {
    ||| p == FINISHED_PATTERN@
    ||| p == DIFF_PATTERN@
    ||| p == COST_PATTERN@
    ||| p == TOKENS_PATTERN@
    ||| p == DETAILS_PATTERN@
    ||| p == H1_PATTERN@
    ||| p == H2_PATTERN@
    ||| p == SEPARATOR_PATTERN@
    ||| p == BACKTICK_PATTERN@
    ||| p == BOLD_PATTERN@
    ||| p == CODE_BLOCK_PATTERN@
}

/// The text `regex` makes of `text` when it replaces every match of
/// `pattern`, leftmost first and without overlap, by `template` with its
/// `${n}` references expanded to the match's capture groups.
pub uninterp spec fn regex_replaced(pattern: Seq<char>, text: Seq<char>, template: Seq<char>) -> Seq<char>;

/// `regex::Regex::new(pattern)` then `replace_all(text, template)`. Claimed:
/// the pattern compiles (it is one of [`known_pattern`]) and the result is
/// `regex`'s replacement, a function of the three arguments alone.
#[verifier::external_body]
fn regex_replace_all(pattern: &str, text: &str, template: &str) -> (r: String)
    requires
        known_pattern(pattern@),
    ensures
        r@ == regex_replaced(pattern@, text@, template@),
{
    regex::Regex::new(pattern).unwrap().replace_all(text, template).into_owned()
}

// ───────────────────────── data highlights ─────────────────────────

/// Finish markers in bold yellow.
pub const FINISHED_STYLE: &'static str = "\x1b[1m\x1b[33m${0}\x1b[0m";

/// Added lines in green and deleted lines in red.
pub const DIFF_STYLE: &'static str = "(\x1b[32m+${2}\x1b[0m/\x1b[31m-${3}\x1b[0m)";

/// Costs in yellow.
pub const COST_STYLE: &'static str = "\x1b[33m${0}\x1b[0m";

/// Token counts in magenta.
pub const TOKENS_STYLE: &'static str = "\x1b[35m${0}\x1b[0m";

/// The data highlights of a plain text: finish markers, then diff counts,
/// then costs, then token counts.
pub open spec fn styled_data(text: Seq<char>) -> Seq<char> {
    let a = regex_replaced(FINISHED_PATTERN@, text, FINISHED_STYLE@);
    let b = regex_replaced(DIFF_PATTERN@, a, DIFF_STYLE@);
    let c = regex_replaced(COST_PATTERN@, b, COST_STYLE@);
    regex_replaced(TOKENS_PATTERN@, c, TOKENS_STYLE@)
}

/// Highlights the data in a plain text (see [`styled_data`]).
pub fn style_data_text(text: &str) -> (r: String)
    ensures
        r@ == styled_data(text@),
{
    let a = regex_replace_all(FINISHED_PATTERN, text, FINISHED_STYLE);
    let b = regex_replace_all(DIFF_PATTERN, a.as_str(), DIFF_STYLE);
    let c = regex_replace_all(COST_PATTERN, b.as_str(), COST_STYLE);
    regex_replace_all(TOKENS_PATTERN, c.as_str(), TOKENS_STYLE)
}

/// A `<details>` block becomes its summary in bold, a blank line, and its
/// body.
pub const DETAILS_STYLE: &'static str = "**▼ ${1}**\n\n${2}";

/// Folds every `<details>` block into markdown (see [`DETAILS_STYLE`]).
pub fn preprocess_markdown(text: &str) -> (r: String)
    ensures
        r@ == regex_replaced(DETAILS_PATTERN@, text@, DETAILS_STYLE@),
{
    regex_replace_all(DETAILS_PATTERN, text, DETAILS_STYLE)
}

// ───────────────────────── code highlighting ─────────────────────────

/// Code blocks longer than this many lines are shown without highlighting.
pub const HIGHLIGHT_MAX_LINES: usize = 100;

#[verifier::external_type_specification]
#[verifier::external_body]
pub struct ExSyntaxSet(syntect::parsing::SyntaxSet);

#[verifier::external_type_specification]
#[verifier::external_body]
pub struct ExThemeSet(syntect::highlighting::ThemeSet);

#[verifier::external_type_specification]
#[verifier::external_body]
pub struct ExHighlightLines<'a>(syntect::easy::HighlightLines<'a>);

/// The syntax definitions and colour themes `syntect` ships with.
pub struct Highlighting {
    syntaxes: syntect::parsing::SyntaxSet,
    themes: syntect::highlighting::ThemeSet,
}

/// `syntect::parsing::SyntaxSet::load_defaults_newlines()` and
/// `syntect::highlighting::ThemeSet::load_defaults()`. Nothing is claimed of
/// them; they are the only sets a [`Highlighting`] ever holds.
#[verifier::external_body]
fn load_highlighting() -> Highlighting {
    Highlighting {
        syntaxes: syntect::parsing::SyntaxSet::load_defaults_newlines(),
        themes: syntect::highlighting::ThemeSet::load_defaults(),
    }
}

/// A highlighter over the lines of one code block: the language it was made
/// for and the lines it has been fed so far.
pub struct LineHighlighter<'a> {
    inner: syntect::easy::HighlightLines<'a>,
    lang: Ghost<Seq<char>>,
    fed: Ghost<Seq<Seq<char>>>,
}

/// What `syntect` writes for `line` of a code block in language `lang` after
/// the lines `before`: the line highlighted with the theme
/// `base16-ocean.dark` in 24-bit terminal escapes, or nothing when
/// highlighting fails.
pub uninterp spec fn syntect_line(lang: Seq<char>, before: Seq<Seq<char>>, line: Seq<char>) -> Option<Seq<char>>;

/// `find_syntax_by_token(lang)` on the default syntaxes (the plain-text
/// syntax when none is found) and `syntect::easy::HighlightLines::new` with
/// the default theme `base16-ocean.dark`. Claimed: the highlighter is for
/// `lang` and has been fed no line.
#[verifier::external_body]
fn line_highlighter<'a>(res: &'a Highlighting, lang: &str) -> (h: LineHighlighter<'a>)
    ensures
        h.lang@ == lang@,
        h.fed@ == Seq::<Seq<char>>::empty(),
{
    let syntax = res.syntaxes.find_syntax_by_token(lang).unwrap_or_else(|| res.syntaxes.find_syntax_plain_text());
    let inner = syntect::easy::HighlightLines::new(syntax, &res.themes.themes["base16-ocean.dark"]);
    LineHighlighter { inner, lang: Ghost(lang@), fed: Ghost(Seq::empty()) }
}

/// `HighlightLines::highlight_line(line, syntaxes)` then
/// `syntect::util::as_24_bit_terminal_escaped(ranges, false)`, `None` when
/// highlighting fails. Claimed: the result depends on the language and the
/// lines fed before alone (the highlighter's state carries from one line to
/// the next), and the line is added to those fed.
#[verifier::external_body]
fn highlight_line(h: &mut LineHighlighter, res: &Highlighting, line: &str) -> (r: Option<String>)
    ensures
        final(h).lang == old(h).lang,
        final(h).fed@ == old(h).fed@.push(line@),
        r matches Some(s) ==> syntect_line(old(h).lang@, old(h).fed@, line@) == Some(s@),
        r is None ==> syntect_line(old(h).lang@, old(h).fed@, line@) is None,
{
    match h.inner.highlight_line(line, &res.syntaxes) {
        Ok(ranges) => Some(syntect::util::as_24_bit_terminal_escaped(&ranges, false)),
        Err(_) => None,
    }
}

/// The first `k` lines of a code block in language `lang`, each highlighted
/// (or as it is, when highlighting fails) and followed by a line break.
pub open spec fn highlighted_lines(lang: Seq<char>, ls: Seq<Seq<char>>, k: nat) -> Seq<char>
    decreases k,
{
    if k == 0 || k > ls.len() {
        Seq::empty()
    } else {
        highlighted_lines(lang, ls, (k - 1) as nat) + match syntect_line(lang, ls.take(k - 1), ls[k - 1]) {
            Some(t) => t,
            None => ls[k - 1],
        } + "\n"@
    }
}

/// What `syntect` writes for `code` in language `lang`: its lines in order,
/// each highlighted and followed by a line break.
pub open spec fn syntect_highlighted(code: Seq<char>, lang: Seq<char>) -> Seq<char> {
    highlighted_lines(lang, lines_of(code), lines_of(code).len())
}

/// Highlights `code` as language `lang` (see [`syntect_highlighted`]).
pub fn syntect_highlight(code: &str, lang: &str) -> (r: String)
    ensures
        r@ == syntect_highlighted(code@, lang@),
{
    let res = load_highlighting();
    highlight_with(&res, code, lang)
}

/// Highlights `code` as language `lang` with syntax and theme sets already
/// loaded (see [`syntect_highlighted`]).
fn highlight_with(res: &Highlighting, code: &str, lang: &str) -> (r: String)
    ensures
        r@ == syntect_highlighted(code@, lang@),
{
    let mut h = line_highlighter(res, lang);
    let lines = split_lines(code);
    let ghost ls = lines_of(code@);
    let mut out = String::new();
    let mut i: usize = 0;
    assert(ls.take(0) =~= Seq::<Seq<char>>::empty());
    while i < lines.len()
        invariant
            i <= lines@.len(),
            strs(lines@) == ls,
            h.lang@ == lang@,
            h.fed@ == ls.take(i as int),
            out@ == highlighted_lines(lang@, ls, i as nat),
        decreases lines@.len() - i,
    {
        let ghost before = h.fed@;
        match highlight_line(&mut h, res, lines[i].as_str()) {
            Some(t) => out.append(t.as_str()),
            None => out.append(lines[i].as_str()),
        }
        push_char(&mut out, '\n');
        proof {
            assert(ls[i as int] == lines@[i as int]@);
            assert(ls.take(i + 1) =~= ls.take(i as int).push(ls[i as int]));
            reveal_strlit("\n");
            assert(out@ =~= highlighted_lines(lang@, ls, (i + 1) as nat));
        }
        i = i + 1;
    }
    out
}

/// The text shown for a code block: highlighted, unless it has more than
/// [`HIGHLIGHT_MAX_LINES`] lines, in which case it is framed as it is with
/// a note of its line count.
pub open spec fn highlighted_snippet(code: Seq<char>, lang: Seq<char>) -> Seq<char> {
    let n = lines_of(code).len();
    if n > HIGHLIGHT_MAX_LINES {
        "\x1b[1m\x1b[38;5;245m┌─ "@ + lang + " ("@ + dec_nat(n) + " lines, highlighting skipped)\x1b[0m\n"@ + code
            + "\n\x1b[1m\x1b[38;5;245m└─\x1b[0m"@
    } else {
        syntect_highlighted(code, lang)
    }
}

/// A code block of at most a hundred lines is shown highlighted; a longer
/// one is shown as it is, framed, with its language and its line count.
pub proof fn law_only_short_code_blocks_are_highlighted(code: Seq<char>, lang: Seq<char>)
    ensures
        lines_of(code).len() <= 100 ==> highlighted_snippet(code, lang) == syntect_highlighted(code, lang),
        lines_of(code).len() > 100 ==> highlighted_snippet(code, lang) == "\x1b[1m\x1b[38;5;245m┌─ "@ + lang + " ("@
            + dec_nat(lines_of(code).len()) + " lines, highlighting skipped)\x1b[0m\n"@ + code
            + "\n\x1b[1m\x1b[38;5;245m└─\x1b[0m"@,
{
}

/// Highlights a code block (see [`highlighted_snippet`]).
pub fn highlight_snippet(code: &str, lang: &str) -> (r: String)
    ensures
        r@ == highlighted_snippet(code@, lang@),
{
    let n = split_lines(code).len();
    if n > HIGHLIGHT_MAX_LINES {
        let mut out = String::from_str("\x1b[1m\x1b[38;5;245m┌─ ");
        out.append(lang);
        out.append(" (");
        push_dec_usize(&mut out, n);
        out.append(" lines, highlighting skipped)\x1b[0m\n");
        out.append(code);
        out.append("\n\x1b[1m\x1b[38;5;245m└─\x1b[0m");
        out
    } else {
        syntect_highlight(code, lang)
    }
}

// ───────────────────────── markdown styled in place ─────────────────────────

/// The parts of `text` between the matches of `pattern`, as `regex`'s
/// `split` yields them: the part before the first match, the parts between
/// matches, and the part after the last.
pub uninterp spec fn regex_pieces(pattern: Seq<char>, text: Seq<char>) -> Seq<Seq<char>>;

/// The matches of `pattern` in `text`, leftmost first and without overlap,
/// as `regex`'s `find_iter` yields them.
pub uninterp spec fn regex_found(pattern: Seq<char>, text: Seq<char>) -> Seq<Seq<char>>;

/// Groups 1 and 2 of each match of `pattern` in `text` (empty when a group
/// takes no part), as `regex`'s `captures_iter` yields them.
pub uninterp spec fn regex_captured(pattern: Seq<char>, text: Seq<char>) -> Seq<(Seq<char>, Seq<char>)>;

/// `regex::Regex::new(pattern)` then `split(text)`, each part copied.
/// Claimed: the result is `regex`'s, a function of the arguments alone.
#[verifier::external_body]
fn regex_split(pattern: &str, text: &str) -> (r: Vec<String>)
    requires
        known_pattern(pattern@),
    ensures
        strs(r@) == regex_pieces(pattern@, text@),
{
    regex::Regex::new(pattern).unwrap().split(text).map(|p| p.to_string()).collect()
}

/// `regex::Regex::new(pattern)` then `find_iter(text)`, each match copied.
/// Claimed: the result is `regex`'s, a function of the arguments alone.
#[verifier::external_body]
fn regex_find_all(pattern: &str, text: &str) -> (r: Vec<String>)
    requires
        known_pattern(pattern@),
    ensures
        strs(r@) == regex_found(pattern@, text@),
{
    regex::Regex::new(pattern).unwrap().find_iter(text).map(|m| m.as_str().to_string()).collect()
}

/// `regex::Regex::new(pattern)` then `captures_iter(text)`, groups 1 and 2
/// of each match copied (empty when a group did not take part). Claimed:
/// the result is `regex`'s, a function of the arguments alone.
#[verifier::external_body]
fn regex_captures_all(pattern: &str, text: &str) -> (r: Vec<(String, String)>)
    requires
        known_pattern(pattern@),
    ensures
        pairs(r@) == regex_captured(pattern@, text@),
{
    regex::Regex::new(pattern).unwrap().captures_iter(text).map(|c| {
        (c.get(1).map_or("", |m| m.as_str()).to_string(), c.get(2).map_or("", |m| m.as_str()).to_string())
    }).collect()
}

/// The views of a list of string pairs.
pub open spec fn pairs(v: Seq<(String, String)>) -> Seq<(Seq<char>, Seq<char>)> {
    Seq::new(v.len(), |i: int| (v[i].0@, v[i].1@))
}

/// Headings of level one in bold.
pub const H1_STYLE: &'static str = "\x1b[1m${1}\x1b[0m";

/// Headings of level two in bold bright green.
pub const H2_STYLE: &'static str = "\x1b[92m\x1b[1m${1}\x1b[0m";

/// Separator lines dimmed.
pub const SEPARATOR_STYLE: &'static str = "\x1b[2m${0}\x1b[0m";

/// Inline code in cyan, without its backticks.
pub const BACKTICK_STYLE: &'static str = "\x1b[96m${1}\x1b[0m";

/// Bold text in bold, without its asterisks.
pub const BOLD_STYLE: &'static str = "\x1b[1m${1}\x1b[22m";

/// The line styles of markdown: level-one and level-two headings, separator
/// lines, then finish markers.
pub open spec fn styled_lines(text: Seq<char>) -> Seq<char> {
    let a = regex_replaced(H1_PATTERN@, text, H1_STYLE@);
    let b = regex_replaced(H2_PATTERN@, a, H2_STYLE@);
    let c = regex_replaced(SEPARATOR_PATTERN@, b, SEPARATOR_STYLE@);
    regex_replaced(FINISHED_PATTERN@, c, FINISHED_STYLE@)
}

/// The inline styles of markdown outside code blocks: inline code, bold,
/// then diff counts, costs and token counts.
pub open spec fn styled_inline(text: Seq<char>) -> Seq<char> {
    let a = regex_replaced(BACKTICK_PATTERN@, text, BACKTICK_STYLE@);
    let b = regex_replaced(BOLD_PATTERN@, a, BOLD_STYLE@);
    let c = regex_replaced(DIFF_PATTERN@, b, DIFF_STYLE@);
    let d = regex_replaced(COST_PATTERN@, c, COST_STYLE@);
    regex_replaced(TOKENS_PATTERN@, d, TOKENS_STYLE@)
}

fn style_inline(text: &str) -> (r: String)
    ensures
        r@ == styled_inline(text@),
{
    let a = regex_replace_all(BACKTICK_PATTERN, text, BACKTICK_STYLE);
    let b = regex_replace_all(BOLD_PATTERN, a.as_str(), BOLD_STYLE);
    let c = regex_replace_all(DIFF_PATTERN, b.as_str(), DIFF_STYLE);
    let d = regex_replace_all(COST_PATTERN, c.as_str(), COST_STYLE);
    regex_replace_all(TOKENS_PATTERN, d.as_str(), TOKENS_STYLE)
}

/// The first `k` pieces and blocks, alternating, each piece before the
/// block of the same index (nothing where a list runs short).
pub open spec fn interleaved(
    pieces: Seq<Seq<char>>,
    blocks: Seq<Seq<char>>,
    k: nat,
) -> Seq<char>
    decreases k,
{
    if k == 0 {
        Seq::empty()
    } else {
        interleaved(pieces, blocks, (k - 1) as nat) + (if k - 1 < pieces.len() {
            pieces[k - 1]
        } else {
            Seq::empty()
        }) + if k - 1 < blocks.len() {
            blocks[k - 1]
        } else {
            Seq::empty()
        }
    }
}

/// The larger of two lengths.
pub open spec fn longer(a: nat, b: nat) -> nat {
    if a >= b {
        a
    } else {
        b
    }
}

/// Alternates `pieces` and `blocks`, starting with a piece, to the end of
/// the longer.
pub open spec fn alternated(pieces: Seq<Seq<char>>, blocks: Seq<Seq<char>>) -> Seq<char> {
    interleaved(pieces, blocks, longer(pieces.len(), blocks.len()))
}

/// Appends `pieces` and `blocks` alternated (see [`alternated`]).
pub fn push_alternated(out: &mut String, pieces: &Vec<String>, blocks: &Vec<String>)
    ensures
        final(out)@ == old(out)@ + alternated(strs(pieces@), strs(blocks@)),
{
    let ghost start = out@;
    let n = if pieces.len() >= blocks.len() {
        pieces.len()
    } else {
        blocks.len()
    };
    let mut k: usize = 0;
    while k < n
        invariant
            k <= n,
            n == longer(pieces@.len(), blocks@.len()),
            out@ == start + interleaved(strs(pieces@), strs(blocks@), k as nat),
        decreases n - k,
    {
        if k < pieces.len() {
            out.append(pieces[k].as_str());
        }
        if k < blocks.len() {
            out.append(blocks[k].as_str());
        }
        proof {
            assert(out@ =~= start + interleaved(strs(pieces@), strs(blocks@), (k + 1) as nat));
        }
        k = k + 1;
    }
}

/// The line styles of markdown, then its inline styles: how text outside
/// code blocks is styled.
pub open spec fn styled_outside_code(text: Seq<char>) -> Seq<char> {
    styled_inline(styled_lines(text))
}

/// Each string passed through [`styled_outside_code`].
pub open spec fn all_styled_outside_code(v: Seq<Seq<char>>) -> Seq<Seq<char>> {
    Seq::new(v.len(), |i: int| styled_outside_code(v[i]))
}

/// Markdown styled for the terminal in place: the text outside fenced code
/// blocks gets the line styles of [`styled_lines`] and the inline styles of
/// [`styled_inline`]; the code blocks are kept as they are.
pub open spec fn terminal_styled(text: Seq<char>) -> Seq<char> {
    alternated(
        all_styled_outside_code(regex_pieces(CODE_BLOCK_PATTERN@, text)),
        regex_found(CODE_BLOCK_PATTERN@, text),
    )
}

fn style_lines(text: &str) -> (r: String)
    ensures
        r@ == styled_lines(text@),
{
    let a = regex_replace_all(H1_PATTERN, text, H1_STYLE);
    let b = regex_replace_all(H2_PATTERN, a.as_str(), H2_STYLE);
    let c = regex_replace_all(SEPARATOR_PATTERN, b.as_str(), SEPARATOR_STYLE);
    regex_replace_all(FINISHED_PATTERN, c.as_str(), FINISHED_STYLE)
}

/// Styles markdown for the terminal in place, leaving fenced code blocks
/// untouched (see [`terminal_styled`]).
pub fn apply_terminal_styles(text: &str) -> (r: String)
    ensures
        r@ == terminal_styled(text@),
{
    let pieces = regex_split(CODE_BLOCK_PATTERN, text);
    let blocks = regex_find_all(CODE_BLOCK_PATTERN, text);
    let mut styled: Vec<String> = Vec::new();
    let mut i: usize = 0;
    while i < pieces.len()
        invariant
            i <= pieces@.len(),
            strs(styled@) == all_styled_outside_code(strs(pieces@)).take(i as int),
        decreases pieces@.len() - i,
    {
        let lined = style_lines(pieces[i].as_str());
        let p = style_inline(lined.as_str());
        proof {
            lemma_strs_push(styled@, p);
        }
        styled.push(p);
        proof {
            assert(all_styled_outside_code(strs(pieces@)).take(i + 1) =~= all_styled_outside_code(
                strs(pieces@),
            ).take(i as int).push(p@));
        }
        i = i + 1;
    }
    assert(all_styled_outside_code(strs(pieces@)).take(i as int) =~= all_styled_outside_code(strs(pieces@)));
    let mut out = String::new();
    push_alternated(&mut out, &styled, &blocks);
    assert(out@ =~= terminal_styled(text@));
    out
}

/// Each code block highlighted by `syntect` with its language.
pub open spec fn all_highlighted(caps: Seq<(Seq<char>, Seq<char>)>) -> Seq<Seq<char>> {
    Seq::new(caps.len(), |i: int| syntect_highlighted(caps[i].1, caps[i].0))
}

/// Markdown with every fenced code block replaced by its highlighted code,
/// the text around the blocks kept as it is.
pub open spec fn code_highlighted(text: Seq<char>) -> Seq<char> {
    alternated(
        regex_pieces(CODE_BLOCK_PATTERN@, text),
        all_highlighted(regex_captured(CODE_BLOCK_PATTERN@, text)),
    )
}

/// Highlights the fenced code blocks of markdown (see
/// [`code_highlighted`]).
pub fn highlight_code_blocks(text: &str) -> (r: String)
    ensures
        r@ == code_highlighted(text@),
{
    let pieces = regex_split(CODE_BLOCK_PATTERN, text);
    let caps = regex_captures_all(CODE_BLOCK_PATTERN, text);
    let res = load_highlighting();
    let mut blocks: Vec<String> = Vec::new();
    let mut i: usize = 0;
    while i < caps.len()
        invariant
            i <= caps@.len(),
            strs(blocks@) == all_highlighted(pairs(caps@)).take(i as int),
        decreases caps@.len() - i,
    {
        let h = highlight_with(&res, caps[i].1.as_str(), caps[i].0.as_str());
        proof {
            lemma_strs_push(blocks@, h);
        }
        blocks.push(h);
        proof {
            assert(all_highlighted(pairs(caps@)).take(i + 1) =~= all_highlighted(pairs(caps@)).take(i as int).push(
                h@,
            ));
        }
        i = i + 1;
    }
    assert(all_highlighted(pairs(caps@)).take(i as int) =~= all_highlighted(pairs(caps@)));
    let mut out = String::new();
    push_alternated(&mut out, &pieces, &blocks);
    assert(out@ =~= code_highlighted(text@));
    out
}

} // verus!
