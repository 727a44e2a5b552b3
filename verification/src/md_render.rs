//! The markdown renderer for the terminal: a state machine over the events
//! of a parsed document that writes ANSI-styled text.
//!
//! Its state is [`MdState`]; [`md_event`] is one step and [`md_finish`] the
//! text written at the end. Events come in balanced `Start`/`End` pairs from
//! the parser; on an `End` without its `Start` the renderer still does not
//! fail: a missing saved output counts as empty and the quote depth stays
//! at zero.

use vstd::prelude::*;

use crate::md_events::{markdown_events, markdown_parse, MdEvent, MdTag, MdTagEnd};
use crate::md_table::{push_table, rows_view, table_text};
use crate::split::{blank, is_blank, lines_of, split_lines};
use crate::styling::{highlight_snippet, highlighted_snippet, preprocess_markdown, style_data_text, styled_data};
use crate::styling::{regex_replaced, DETAILS_PATTERN, DETAILS_STYLE};
use crate::text::{dec_nat, push_dec_u64, push_dec_usize, push_repeat, push_replaced, repeat_seq, replace_seq, strs};

verus! {

/// What the renderer holds between events.
pub struct MdState {
    /// The text written so far (or, inside a table cell or block quote, the
    /// text of that cell or quote).
    pub output: Seq<char>,
    /// The outputs set aside while a table cell or block quote is written.
    pub saved: Seq<Seq<char>>,
    pub heading_level: u32,
    /// The open lists, innermost last: whether each is ordered, and the
    /// number of its next item.
    pub lists: Seq<(bool, u64)>,
    /// The text of the code block being read.
    pub code_buf: Seq<char>,
    /// The language of the code block being read.
    pub code_lang: Seq<char>,
    /// The number of aligned columns of the table being read.
    pub tbl_aligns: nat,
    pub tbl_rows: Seq<Seq<Seq<char>>>,
    pub tbl_row: Seq<Seq<char>>,
    pub tbl_cell: Seq<char>,
    pub tbl_in_head: bool,
    /// The destinations of the links met so far, in order.
    pub links: Seq<Seq<char>>,
    pub quote_depth: nat,
}

/// The state before the first event.
pub open spec fn md_initial() -> MdState {
    MdState {
        output: Seq::empty(),
        saved: Seq::empty(),
        heading_level: 0,
        lists: Seq::empty(),
        code_buf: Seq::empty(),
        code_lang: Seq::empty(),
        tbl_aligns: 0,
        tbl_rows: Seq::empty(),
        tbl_row: Seq::empty(),
        tbl_cell: Seq::empty(),
        tbl_in_head: false,
        links: Seq::empty(),
        quote_depth: 0,
    }
}

/// The style a heading of level `l` opens with.
pub open spec fn heading_style(l: u32) -> Seq<char> {
    if l == 1 {
        "\x1b[1m"@
    } else if l == 2 {
        "\x1b[92m\x1b[1m"@
    } else {
        "\x1b[94m\x1b[1m"@
    }
}

/// The marker of a list item: its number in an ordered list, a bullet
/// otherwise, indented by two spaces for each enclosing list.
pub open spec fn item_marker(depth: nat, ordered: bool, n: u64) -> Seq<char> {
    repeat_seq("  "@, (depth - 1) as nat) + if ordered {
        dec_nat(n as nat) + ".\x1b[0m "@
    } else {
        "\x1b[37m•\x1b[0m "@
    }
}

/// The number after `n` (wrapping at the top of `u64`).
pub open spec fn next_item(n: u64) -> u64 {
    if n == u64::MAX {
        0
    } else {
        (n + 1) as u64
    }
}

/// The state after an element opens.
pub open spec fn md_start(s: MdState, tag: MdTag) -> MdState {
    match tag {
        MdTag::Heading(l) => MdState { heading_level: l, output: s.output + heading_style(l), ..s },
        MdTag::Paragraph => s,
        MdTag::Emphasis => MdState { output: s.output + "\x1b[3m"@, ..s },
        MdTag::Strong => MdState { output: s.output + "\x1b[1m"@, ..s },
        MdTag::Strikethrough => MdState { output: s.output + "\x1b[9m"@, ..s },
        MdTag::Link(url) => MdState { links: s.links.push(url@), output: s.output + "\x1b[4m\x1b[34m"@, ..s },
        MdTag::Image(url) => MdState { output: s.output + "\x1b[2m["@ + url@ + "]\x1b[0m"@, ..s },
        MdTag::List(first) => MdState {
            lists: s.lists.push(
                (
                    first is Some,
                    match first {
                        Some(n) => n,
                        None => 1,
                    },
                ),
            ),
            ..s
        },
        MdTag::Item => if s.lists.len() > 0 {
            let (ordered, n) = s.lists.last();
            let out = s.output + item_marker(s.lists.len(), ordered, n);
            if ordered {
                MdState { output: out, lists: s.lists.update(s.lists.len() - 1, (true, next_item(n))), ..s }
            } else {
                MdState { output: out, ..s }
            }
        } else {
            s
        },
        MdTag::CodeBlock(lang) => MdState { code_lang: lang@, code_buf: Seq::empty(), ..s },
        MdTag::Table(n) => MdState { tbl_aligns: n as nat, tbl_rows: Seq::empty(), tbl_in_head: false, ..s },
        MdTag::TableHead => MdState { tbl_in_head: true, ..s },
        MdTag::TableRow => MdState { tbl_row: Seq::empty(), ..s },
        MdTag::TableCell => MdState {
            tbl_cell: Seq::empty(),
            saved: s.saved.push(s.output),
            output: Seq::empty(),
            ..s
        },
        MdTag::BlockQuote => MdState {
            saved: s.saved.push(s.output),
            output: Seq::empty(),
            quote_depth: if s.quote_depth < usize::MAX {
                s.quote_depth + 1
            } else {
                s.quote_depth
            },
            ..s
        },
        MdTag::Other => s,
    }
}

/// The output set aside last, or nothing.
pub open spec fn restored(saved: Seq<Seq<char>>) -> Seq<char> {
    if saved.len() > 0 {
        saved.last()
    } else {
        Seq::empty()
    }
}

/// The saved outputs without the last.
pub open spec fn unsaved(saved: Seq<Seq<char>>) -> Seq<Seq<char>> {
    if saved.len() > 0 {
        saved.drop_last()
    } else {
        saved
    }
}

/// The lines of a block quote, each behind a dim bar.
pub open spec fn quoted_text(ls: Seq<Seq<char>>) -> Seq<char>
    decreases ls.len(),
{
    if ls.len() == 0 {
        Seq::empty()
    } else {
        quoted_text(ls.drop_last()) + "\x1b[2m│\x1b[0m "@ + ls.last() + "\n"@
    }
}

/// The state after an element closes.
pub open spec fn md_end(s: MdState, tag: MdTagEnd) -> MdState {
    match tag {
        MdTagEnd::Heading => MdState { output: s.output + "\x1b[0m\n"@, heading_level: 0, ..s },
        MdTagEnd::Paragraph => if s.lists.len() == 0 && s.quote_depth == 0 {
            MdState { output: s.output + "\n"@, ..s }
        } else {
            s
        },
        MdTagEnd::Emphasis => MdState { output: s.output + "\x1b[23m"@, ..s },
        MdTagEnd::Strong => MdState { output: s.output + "\x1b[22m"@, ..s },
        MdTagEnd::Strikethrough => MdState { output: s.output + "\x1b[29m"@, ..s },
        MdTagEnd::Link => MdState {
            output: s.output + "\x1b[0m\x1b[2m["@ + dec_nat(s.links.len()) + "]\x1b[0m"@,
            ..s
        },
        MdTagEnd::Image => s,
        MdTagEnd::List => {
            let lists = if s.lists.len() > 0 {
                s.lists.drop_last()
            } else {
                s.lists
            };
            MdState {
                lists,
                output: if lists.len() == 0 {
                    s.output + "\n"@
                } else {
                    s.output
                },
                ..s
            }
        },
        MdTagEnd::Item => MdState { output: s.output + "\n"@, ..s },
        MdTagEnd::CodeBlock => MdState {
            output: s.output + highlighted_snippet(s.code_buf, s.code_lang) + "\n"@,
            code_buf: Seq::empty(),
            code_lang: Seq::empty(),
            ..s
        },
        MdTagEnd::Table => MdState {
            output: s.output + table_text(s.tbl_aligns, s.tbl_rows),
            tbl_rows: Seq::empty(),
            ..s
        },
        MdTagEnd::TableHead => MdState { tbl_in_head: false, ..s },
        MdTagEnd::TableRow => MdState { tbl_rows: s.tbl_rows.push(s.tbl_row), tbl_row: Seq::empty(), ..s },
        MdTagEnd::TableCell => MdState {
            output: restored(s.saved),
            saved: unsaved(s.saved),
            tbl_row: s.tbl_row.push(s.output),
            ..s
        },
        MdTagEnd::BlockQuote => MdState {
            output: restored(s.saved) + quoted_text(lines_of(s.output)),
            saved: unsaved(s.saved),
            quote_depth: if s.quote_depth > 0 {
                (s.quote_depth - 1) as nat
            } else {
                0
            },
            ..s
        },
        MdTagEnd::Other => s,
    }
}

/// A horizontal rule: sixty dim box-drawing dashes.
pub open spec fn rule_line() -> Seq<char> {
    "\x1b[2m"@ + repeat_seq("─"@, 60) + "\x1b[0m\n"@
}

/// HTML with its angle brackets taken out.
pub open spec fn html_stripped(h: Seq<char>) -> Seq<char> {
    replace_seq(replace_seq(h, "<"@, ""@), ">"@, ""@)
}

/// The state after one event: text inside a code block (one that has text
/// or a language) is kept for highlighting, other text is written with its
/// data highlights; inline code is cyan; HTML is dimmed, blocks without
/// their angle brackets, and left out when blank.
pub open spec fn md_event(s: MdState, e: MdEvent) -> MdState {
    match e {
        MdEvent::Start(t) => md_start(s, t),
        MdEvent::End(t) => md_end(s, t),
        MdEvent::Text(t) => if s.code_buf.len() > 0 || s.code_lang.len() > 0 {
            MdState { code_buf: s.code_buf + t@, ..s }
        } else {
            MdState { output: s.output + styled_data(t@), ..s }
        },
        MdEvent::Code(t) => MdState { output: s.output + "\x1b[96m"@ + t@ + "\x1b[0m"@, ..s },
        MdEvent::Break => MdState { output: s.output + "\n"@, ..s },
        MdEvent::Rule => MdState { output: s.output + rule_line(), ..s },
        MdEvent::TaskListMarker(checked) => MdState {
            output: s.output + if checked {
                "\x1b[92m☑\x1b[0m "@
            } else {
                "\x1b[2m☐\x1b[0m "@
            },
            ..s
        },
        MdEvent::Html(h) => if !is_blank(html_stripped(h@)) {
            MdState { output: s.output + "\x1b[2m"@ + html_stripped(h@) + "\x1b[0m"@, ..s }
        } else {
            s
        },
        MdEvent::InlineHtml(h) => if !is_blank(h@) {
            MdState { output: s.output + "\x1b[2m"@ + h@ + "\x1b[0m"@, ..s }
        } else {
            s
        },
        MdEvent::Other => s,
    }
}

/// The state after a sequence of events.
pub open spec fn md_run(s: MdState, es: Seq<MdEvent>) -> MdState
    decreases es.len(),
{
    if es.len() == 0 {
        s
    } else {
        md_event(md_run(s, es.drop_last()), es.last())
    }
}

/// The link notes written at the end: one dim line per link, numbered from
/// one, with its destination.
pub open spec fn link_notes(links: Seq<Seq<char>>) -> Seq<char>
    decreases links.len(),
{
    if links.len() == 0 {
        Seq::empty()
    } else {
        link_notes(links.drop_last()) + "\x1b[2m ["@ + dec_nat(links.len()) + "]: "@ + links.last() + "\x1b[0m\n"@
    }
}

/// The text written when the events are done: the output and the link
/// notes.
pub open spec fn md_finish(s: MdState) -> Seq<char> {
    s.output + link_notes(s.links)
}

/// The terminal text of a sequence of markdown events.
pub open spec fn rendered_events(es: Seq<MdEvent>) -> Seq<char> {
    md_finish(md_run(md_initial(), es))
}

/// The renderer's state.
pub struct MdRenderer {
    output: String,
    saved: Vec<String>,
    heading_level: u32,
    lists: Vec<(bool, u64)>,
    code_buf: String,
    code_lang: String,
    tbl_aligns: usize,
    tbl_rows: Vec<Vec<String>>,
    tbl_row: Vec<String>,
    tbl_cell: String,
    tbl_in_head: bool,
    links: Vec<String>,
    quote_depth: usize,
}

impl View for MdRenderer {
    type V = MdState;

    closed spec fn view(&self) -> MdState {
        MdState {
            output: self.output@,
            saved: strs(self.saved@),
            heading_level: self.heading_level,
            lists: self.lists@,
            code_buf: self.code_buf@,
            code_lang: self.code_lang@,
            tbl_aligns: self.tbl_aligns as nat,
            tbl_rows: rows_view(self.tbl_rows@),
            tbl_row: strs(self.tbl_row@),
            tbl_cell: self.tbl_cell@,
            tbl_in_head: self.tbl_in_head,
            links: strs(self.links@),
            quote_depth: self.quote_depth as nat,
        }
    }
}

impl MdRenderer {
    /// A renderer before the first event.
    pub fn new() -> (r: Self)
        ensures
            r@ == md_initial(),
    {
        let r = MdRenderer {
            output: String::new(),
            saved: Vec::new(),
            heading_level: 0,
            lists: Vec::new(),
            code_buf: String::new(),
            code_lang: String::new(),
            tbl_aligns: 0,
            tbl_rows: Vec::new(),
            tbl_row: Vec::new(),
            tbl_cell: String::new(),
            tbl_in_head: false,
            links: Vec::new(),
            quote_depth: 0,
        };
        proof {
            assert(strs(r.saved@) =~= Seq::<Seq<char>>::empty());
            assert(rows_view(r.tbl_rows@) =~= Seq::<Seq<Seq<char>>>::empty());
            assert(strs(r.tbl_row@) =~= Seq::<Seq<char>>::empty());
            assert(strs(r.links@) =~= Seq::<Seq<char>>::empty());
        }
        r
    }

    fn out(&mut self, s: &str)
        ensures
            final(self)@ == (MdState { output: old(self)@.output + s@, ..old(self)@ }),
    {
        self.output.append(s);
    }

    /// Sets the output aside and starts an empty one.
    fn set_output_aside(&mut self)
        ensures
            final(self)@ == (MdState { saved: old(self)@.saved.push(old(self)@.output), output: Seq::empty(), ..old(self)@ }),
    {
        let mut prev = String::new();
        std::mem::swap(&mut prev, &mut self.output);
        proof {
            lemma_strs_push_one(self.saved@, prev);
        }
        self.saved.push(prev);
    }

    /// Takes the current output and brings back the one set aside last.
    fn restore_output(&mut self) -> (taken: String)
        ensures
            taken@ == old(self)@.output,
            final(self)@ == (MdState { output: restored(old(self)@.saved), saved: unsaved(old(self)@.saved), ..old(self)@ }),
    {
        let back = match self.saved.pop() {
            Some(b) => b,
            None => String::new(),
        };
        let mut taken = back;
        std::mem::swap(&mut taken, &mut self.output);
        proof {
            if old(self).saved@.len() > 0 {
                assert(strs(self.saved@) =~= strs(old(self).saved@).drop_last());
            } else {
                assert(strs(self.saved@) =~= strs(old(self).saved@));
            }
        }
        taken
    }

    fn start_item(&mut self)
        ensures
            final(self)@ == md_start(old(self)@, MdTag::Item),
    {
        let depth = self.lists.len();
        if depth == 0 {
            return;
        }
        let (ordered, n) = self.lists[depth - 1];
        push_repeat(&mut self.output, "  ", depth - 1);
        if ordered {
            push_dec_u64(&mut self.output, n);
            self.out(".\x1b[0m ");
            let next = if n == u64::MAX {
                0
            } else {
                n + 1
            };
            self.lists.set(depth - 1, (true, next));
        } else {
            self.out("\x1b[37m•\x1b[0m ");
        }
        proof {
            assert(self@.output =~= old(self)@.output + item_marker(depth as nat, ordered, n));
            assert(self@ =~= md_start(old(self)@, MdTag::Item));
        }
    }

    fn start(&mut self, tag: &MdTag)
        ensures
            final(self)@ == md_start(old(self)@, *tag),
    {
        match tag {
            MdTag::Heading(l) => {
                self.heading_level = *l;
                if *l == 1 {
                    self.out("\x1b[1m");
                } else if *l == 2 {
                    self.out("\x1b[92m\x1b[1m");
                } else {
                    self.out("\x1b[94m\x1b[1m");
                }
            },
            MdTag::Paragraph => {},
            MdTag::Emphasis => self.out("\x1b[3m"),
            MdTag::Strong => self.out("\x1b[1m"),
            MdTag::Strikethrough => self.out("\x1b[9m"),
            MdTag::Link(url) => {
                let u = url.clone();
                proof {
                    lemma_strs_push_one(self.links@, u);
                }
                self.links.push(u);
                self.out("\x1b[4m\x1b[34m");
            },
            MdTag::Image(url) => {
                self.out("\x1b[2m[");
                self.out(url.as_str());
                self.out("]\x1b[0m");
            },
            MdTag::List(first) => {
                let n = match first {
                    Some(n) => *n,
                    None => 1,
                };
                self.lists.push((first.is_some(), n));
            },
            MdTag::Item => self.start_item(),
            MdTag::CodeBlock(lang) => {
                self.code_lang = lang.clone();
                self.code_buf = String::new();
            },
            MdTag::Table(n) => {
                self.tbl_aligns = *n;
                self.tbl_rows = Vec::new();
                self.tbl_in_head = false;
                assert(rows_view(self.tbl_rows@) =~= Seq::<Seq<Seq<char>>>::empty());
            },
            MdTag::TableHead => {
                self.tbl_in_head = true;
            },
            MdTag::TableRow => {
                self.tbl_row = Vec::new();
                assert(strs(self.tbl_row@) =~= Seq::<Seq<char>>::empty());
            },
            MdTag::TableCell => {
                self.tbl_cell = String::new();
                self.set_output_aside();
            },
            MdTag::BlockQuote => {
                self.set_output_aside();
                if self.quote_depth < usize::MAX {
                    self.quote_depth = self.quote_depth + 1;
                }
            },
            MdTag::Other => {},
        }
        proof {
            assert(self@ =~= md_start(old(self)@, *tag));
        }
    }

    fn end_list(&mut self)
        ensures
            final(self)@ == md_end(old(self)@, MdTagEnd::List),
    {
        let _ = self.lists.pop();
        if self.lists.len() == 0 {
            self.out("\n");
        }
        proof {
            assert(self@ =~= md_end(old(self)@, MdTagEnd::List));
        }
    }

    fn end_table(&mut self)
        ensures
            final(self)@ == md_end(old(self)@, MdTagEnd::Table),
    {
        let mut rows: Vec<Vec<String>> = Vec::new();
        std::mem::swap(&mut rows, &mut self.tbl_rows);
        push_table(&mut self.output, self.tbl_aligns, &rows);
        proof {
            assert(rows_view(self.tbl_rows@) =~= Seq::<Seq<Seq<char>>>::empty());
            assert(self@ =~= md_end(old(self)@, MdTagEnd::Table));
        }
    }

    fn end_table_row(&mut self)
        ensures
            final(self)@ == md_end(old(self)@, MdTagEnd::TableRow),
    {
        let mut row: Vec<String> = Vec::new();
        std::mem::swap(&mut row, &mut self.tbl_row);
        let ghost before = self.tbl_rows@;
        self.tbl_rows.push(row);
        proof {
            assert(rows_view(self.tbl_rows@) =~= rows_view(before).push(strs(row@)));
            assert(strs(self.tbl_row@) =~= Seq::<Seq<char>>::empty());
            assert(self@ =~= md_end(old(self)@, MdTagEnd::TableRow));
        }
    }

    fn end_table_cell(&mut self)
        ensures
            final(self)@ == md_end(old(self)@, MdTagEnd::TableCell),
    {
        let cell = self.restore_output();
        proof {
            lemma_strs_push_one(self.tbl_row@, cell);
        }
        self.tbl_row.push(cell);
        proof {
            assert(self@ =~= md_end(old(self)@, MdTagEnd::TableCell));
        }
    }

    fn end_block_quote(&mut self)
        ensures
            final(self)@ == md_end(old(self)@, MdTagEnd::BlockQuote),
    {
        let content = self.restore_output();
        let lines = split_lines(content.as_str());
        let ghost ls = lines_of(content@);
        let ghost base = self.output@;
        let ghost mid = self@;
        let mut i: usize = 0;
        while i < lines.len()
            invariant
                i <= lines@.len(),
                strs(lines@) == ls,
                self.output@ == base + quoted_text(ls.take(i as int)),
                self@ == (MdState { output: self.output@, ..mid }),
            decreases lines@.len() - i,
        {
            self.out("\x1b[2m│\x1b[0m ");
            self.out(lines[i].as_str());
            self.out("\n");
            proof {
                let t = ls.take(i + 1);
                assert(t.drop_last() =~= ls.take(i as int));
                assert(t.last() == lines@[i as int]@);
            }
            i = i + 1;
        }
        assert(ls.take(i as int) =~= ls);
        if self.quote_depth > 0 {
            self.quote_depth = self.quote_depth - 1;
        }
        proof {
            assert(self@ =~= md_end(old(self)@, MdTagEnd::BlockQuote));
        }
    }

    fn end(&mut self, tag: MdTagEnd)
        ensures
            final(self)@ == md_end(old(self)@, tag),
    {
        match tag {
            MdTagEnd::Heading => {
                self.out("\x1b[0m\n");
                self.heading_level = 0;
            },
            MdTagEnd::Paragraph => {
                if self.lists.len() == 0 && self.quote_depth == 0 {
                    self.out("\n");
                }
            },
            MdTagEnd::Emphasis => self.out("\x1b[23m"),
            MdTagEnd::Strong => self.out("\x1b[22m"),
            MdTagEnd::Strikethrough => self.out("\x1b[29m"),
            MdTagEnd::Link => {
                let n = self.links.len();
                self.out("\x1b[0m\x1b[2m[");
                push_dec_usize(&mut self.output, n);
                self.out("]\x1b[0m");
            },
            MdTagEnd::Image => {},
            MdTagEnd::List => self.end_list(),
            MdTagEnd::Item => self.out("\n"),
            MdTagEnd::CodeBlock => {
                let h = highlight_snippet(self.code_buf.as_str(), self.code_lang.as_str());
                self.out(h.as_str());
                self.out("\n");
                self.code_buf = String::new();
                self.code_lang = String::new();
            },
            MdTagEnd::Table => self.end_table(),
            MdTagEnd::TableHead => {
                self.tbl_in_head = false;
            },
            MdTagEnd::TableRow => self.end_table_row(),
            MdTagEnd::TableCell => self.end_table_cell(),
            MdTagEnd::BlockQuote => self.end_block_quote(),
            MdTagEnd::Other => {},
        }
        proof {
            assert(self@ =~= md_end(old(self)@, tag));
        }
    }

    fn html(&mut self, h: &String)
        ensures
            final(self)@ == md_event(old(self)@, MdEvent::Html(*h)),
    {
        let mut a = String::new();
        push_replaced(&mut a, h.as_str(), "<", "");
        let mut b = String::new();
        push_replaced(&mut b, a.as_str(), ">", "");
        if !blank(b.as_str()) {
            self.out("\x1b[2m");
            self.out(b.as_str());
            self.out("\x1b[0m");
        }
        proof {
            assert(b@ == html_stripped(h@));
        }
    }

    fn text(&mut self, t: &String)
        ensures
            final(self)@ == md_event(old(self)@, MdEvent::Text(*t)),
    {
        if self.code_buf.as_str().unicode_len() > 0 || self.code_lang.as_str().unicode_len() > 0 {
            self.code_buf.append(t.as_str());
        } else {
            let styled = style_data_text(t.as_str());
            self.out(styled.as_str());
        }
        proof {
            assert(self@ =~= md_event(old(self)@, MdEvent::Text(*t)));
        }
    }

    /// Takes one event (see [`md_event`]).
    pub fn event(&mut self, e: &MdEvent)
        ensures
            final(self)@ == md_event(old(self)@, *e),
    {
        match e {
            MdEvent::Start(t) => self.start(t),
            MdEvent::End(t) => self.end(*t),
            MdEvent::Text(t) => self.text(t),
            MdEvent::Code(t) => {
                self.out("\x1b[96m");
                self.out(t.as_str());
                self.out("\x1b[0m");
                assert(self@ =~= md_event(old(self)@, *e));
            },
            MdEvent::Break => self.out("\n"),
            MdEvent::Rule => {
                let mut line = String::from_str("\x1b[2m");
                push_repeat(&mut line, "─", 60);
                line.append("\x1b[0m\n");
                assert(line@ =~= rule_line());
                self.out(line.as_str());
            },
            MdEvent::TaskListMarker(checked) => {
                if *checked {
                    self.out("\x1b[92m☑\x1b[0m ");
                } else {
                    self.out("\x1b[2m☐\x1b[0m ");
                }
                assert(self@ =~= md_event(old(self)@, *e));
            },
            MdEvent::Html(h) => self.html(h),
            MdEvent::InlineHtml(h) => {
                if !blank(h.as_str()) {
                    self.out("\x1b[2m");
                    self.out(h.as_str());
                    self.out("\x1b[0m");
                }
                assert(self@ =~= md_event(old(self)@, *e));
            },
            MdEvent::Other => {},
        }
        proof {
            assert(self@ =~= md_event(old(self)@, *e));
        }
    }

    /// The text written, with the link notes (see [`md_finish`]).
    pub fn finish(self) -> (r: String)
        ensures
            r@ == md_finish(self@),
    {
        let ghost st = self@;
        let mut out = self.output;
        let mut i: usize = 0;
        while i < self.links.len()
            invariant
                i <= self.links@.len(),
                st == self@,
                out@ == st.output + link_notes(strs(self.links@).take(i as int)),
            decreases self.links@.len() - i,
        {
            out.append("\x1b[2m [");
            push_dec_usize(&mut out, i + 1);
            out.append("]: ");
            out.append(self.links[i].as_str());
            out.append("\x1b[0m\n");
            proof {
                let t = strs(self.links@).take(i + 1);
                assert(t.drop_last() =~= strs(self.links@).take(i as int));
            }
            i = i + 1;
        }
        assert(strs(self.links@).take(i as int) =~= strs(self.links@));
        out
    }
}

proof fn lemma_strs_push_one(v: Seq<String>, x: String)
    ensures
        strs(v.push(x)) == strs(v).push(x@),
{
    assert(strs(v.push(x)) =~= strs(v).push(x@));
}

/// The terminal text of a sequence of markdown events (see
/// [`rendered_events`]).
pub fn render_events(es: &Vec<MdEvent>) -> (r: String)
    ensures
        r@ == rendered_events(es@),
{
    let mut renderer = MdRenderer::new();
    let mut i: usize = 0;
    while i < es.len()
        invariant
            i <= es@.len(),
            renderer@ == md_run(md_initial(), es@.take(i as int)),
        decreases es@.len() - i,
    {
        renderer.event(&es[i]);
        proof {
            let t = es@.take(i + 1);
            assert(t.drop_last() =~= es@.take(i as int));
        }
        i = i + 1;
    }
    assert(es@.take(i as int) =~= es@);
    renderer.finish()
}

/// Renders markdown for the terminal: `<details>` blocks are folded (see
/// [`preprocess_markdown`]), the text is parsed with `pulldown_cmark`, and
/// its events are rendered (see [`rendered_events`]).
pub fn render_markdown(text: &str) -> (r: String)
    ensures
        r@ == rendered_events(markdown_parse(regex_replaced(DETAILS_PATTERN@, text@, DETAILS_STYLE@))),
{
    let cleaned = preprocess_markdown(text);
    let events = markdown_events(cleaned.as_str());
    render_events(&events)
}

/// Inline elements are written where they come, and change nothing but the
/// output: an inline code span is its whole text in cyan; emphasis, strong
/// text and strikethrough are opened and closed by their own styles; a line
/// break is a new line.
pub proof fn law_inline_elements_are_written_in_place(s: MdState, t: String)
    ensures
        md_event(s, MdEvent::Code(t)) == (MdState { output: s.output + "\x1b[96m"@ + t@ + "\x1b[0m"@, ..s }),
        md_event(s, MdEvent::Start(MdTag::Emphasis)) == (MdState { output: s.output + "\x1b[3m"@, ..s }),
        md_event(s, MdEvent::End(MdTagEnd::Emphasis)) == (MdState { output: s.output + "\x1b[23m"@, ..s }),
        md_event(s, MdEvent::Start(MdTag::Strong)) == (MdState { output: s.output + "\x1b[1m"@, ..s }),
        md_event(s, MdEvent::End(MdTagEnd::Strong)) == (MdState { output: s.output + "\x1b[22m"@, ..s }),
        md_event(s, MdEvent::Start(MdTag::Strikethrough)) == (MdState { output: s.output + "\x1b[9m"@, ..s }),
        md_event(s, MdEvent::End(MdTagEnd::Strikethrough)) == (MdState { output: s.output + "\x1b[29m"@, ..s }),
        md_event(s, MdEvent::Break) == (MdState { output: s.output + "\n"@, ..s }),
{
}

/// Every inline code span of a document shows up in the rendering: after
/// the events `es`, a code span `t` is written, in cyan, right after what
/// `es` wrote, ahead of the link notes.
pub proof fn law_inline_code_is_rendered(es: Seq<MdEvent>, t: String)
    ensures
        rendered_events(es.push(MdEvent::Code(t))) == md_run(md_initial(), es).output + "\x1b[96m"@ + t@
            + "\x1b[0m"@ + link_notes(md_run(md_initial(), es).links),
{
    let e = es.push(MdEvent::Code(t));
    assert(e.drop_last() =~= es);
}

/// Text goes where it belongs: outside a code block it is written with its
/// data highlights; inside one it is kept, whole and in order, for the block
/// to be highlighted when it ends, and nothing is written yet.
pub proof fn law_text_is_written_or_kept_for_its_block(s: MdState, t: String)
    ensures
        s.code_buf.len() == 0 && s.code_lang.len() == 0 ==> md_event(s, MdEvent::Text(t)) == (MdState {
            output: s.output + styled_data(t@),
            ..s
        }),
        s.code_buf.len() > 0 || s.code_lang.len() > 0 ==> md_event(s, MdEvent::Text(t)) == (MdState {
            code_buf: s.code_buf + t@,
            ..s
        }),
{
}

/// A fenced code block is shown as its highlighted text followed by a line
/// break when it ends, and the renderer leaves the block: the text that
/// follows is written again.
pub proof fn law_code_block_is_shown_and_closed(s: MdState, lang: String)
    ensures
        md_event(s, MdEvent::Start(MdTag::CodeBlock(lang))).code_lang == lang@,
        md_event(s, MdEvent::Start(MdTag::CodeBlock(lang))).code_buf.len() == 0,
        md_event(s, MdEvent::Start(MdTag::CodeBlock(lang))).output == s.output,
        md_event(s, MdEvent::End(MdTagEnd::CodeBlock)).output == s.output + highlighted_snippet(
            s.code_buf,
            s.code_lang,
        ) + "\n"@,
        md_event(s, MdEvent::End(MdTagEnd::CodeBlock)).code_buf.len() == 0,
        md_event(s, MdEvent::End(MdTagEnd::CodeBlock)).code_lang.len() == 0,
{
}

/// A heading is written in its level's style (bold for the first level,
/// bold bright green for the second, bold bright blue below) and ends with a
/// reset and a line break.
pub proof fn law_headings_are_styled_by_level(s: MdState, l: u32)
    ensures
        md_event(s, MdEvent::Start(MdTag::Heading(l))).output == s.output + if l == 1 {
            "\x1b[1m"@
        } else if l == 2 {
            "\x1b[92m\x1b[1m"@
        } else {
            "\x1b[94m\x1b[1m"@
        },
        md_event(s, MdEvent::End(MdTagEnd::Heading)).output == s.output + "\x1b[0m\n"@,
        md_event(s, MdEvent::End(MdTagEnd::Heading)).heading_level == 0,
{
}

/// The items of a list are marked in turn: a bullet in an unordered list,
/// and in an ordered list the item's number, the next item getting the next
/// number; items of nested lists are indented two spaces per level.
pub proof fn law_list_items_are_marked_in_turn(s: MdState)
    requires
        s.lists.len() > 0,
    ensures
        ({
            let (ordered, n) = s.lists.last();
            let r = md_event(s, MdEvent::Start(MdTag::Item));
            let indent = repeat_seq("  "@, (s.lists.len() - 1) as nat);
            &&& !ordered ==> r.output == s.output + indent + "\x1b[37m•\x1b[0m "@ && r.lists == s.lists
            &&& ordered ==> r.output == s.output + indent + dec_nat(n as nat) + ".\x1b[0m "@
            &&& ordered && n < u64::MAX ==> r.lists.last() == (true, (n + 1) as u64)
            &&& r.lists.len() == s.lists.len()
        }),
{
}

/// The destinations of the links opened by `es`, in order.
pub open spec fn link_targets(es: Seq<MdEvent>) -> Seq<Seq<char>>
    decreases es.len(),
{
    if es.len() == 0 {
        Seq::empty()
    } else {
        let rest = link_targets(es.drop_last());
        match es.last() {
            MdEvent::Start(MdTag::Link(url)) => rest.push(url@),
            _ => rest,
        }
    }
}

/// Every link of a document gets a note at the end, in the order the links
/// come: the notes the renderer writes list exactly the destinations of the
/// links opened, numbered from one.
pub proof fn law_every_link_is_noted(es: Seq<MdEvent>)
    ensures
        md_run(md_initial(), es).links == link_targets(es),
        rendered_events(es) == md_run(md_initial(), es).output + link_notes(link_targets(es)),
    decreases es.len(),
{
    if es.len() > 0 {
        law_every_link_is_noted(es.drop_last());
    }
}

} // verus!
