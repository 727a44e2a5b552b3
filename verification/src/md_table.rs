//! Box-drawn tables for the terminal: the rows of a markdown table padded to
//! a common number of columns, each column as wide as its widest visible
//! cell (at least three), between rules of box-drawing characters.

use vstd::prelude::*;

use crate::ansi::{strip_ansi_seq, visible_width};
use crate::ansi::unicode_width;
use crate::keyed::clone_strings;
use crate::text::{join_seq, push_repeat, repeat_seq, strs};

verus! {

/// The width a cell takes on the terminal.
pub open spec fn cell_width(cell: Seq<char>) -> nat {
    unicode_width(strip_ansi_seq(cell))
}

/// The largest number of cells in a row.
pub open spec fn max_row_len(rows: Seq<Seq<Seq<char>>>) -> nat
    decreases rows.len(),
{
    if rows.len() == 0 {
        0
    } else {
        let m = max_row_len(rows.drop_last());
        if rows.last().len() > m {
            rows.last().len()
        } else {
            m
        }
    }
}

/// The number of columns of a table with `aligns` aligned columns.
pub open spec fn column_count(aligns: nat, rows: Seq<Seq<Seq<char>>>) -> nat {
    if aligns >= max_row_len(rows) {
        aligns
    } else {
        max_row_len(rows)
    }
}

/// A row with empty cells added up to `n` cells.
pub open spec fn padded_row(row: Seq<Seq<char>>, n: nat) -> Seq<Seq<char>> {
    if row.len() >= n {
        row
    } else {
        row + Seq::new((n - row.len()) as nat, |i: int| Seq::<char>::empty())
    }
}

/// Every row padded to `n` cells.
pub open spec fn padded_rows(rows: Seq<Seq<Seq<char>>>, n: nat) -> Seq<Seq<Seq<char>>> {
    Seq::new(rows.len(), |r: int| padded_row(rows[r], n))
}

/// The width of column `i`: its widest cell, and at least three.
pub open spec fn column_width(rows: Seq<Seq<Seq<char>>>, i: int) -> nat
    decreases rows.len(),
{
    if rows.len() == 0 {
        3
    } else {
        let w = column_width(rows.drop_last(), i);
        let c = cell_width(rows.last()[i]);
        if c > w {
            c
        } else {
            w
        }
    }
}

/// Each column is as wide as its widest cell, and at least three wide:
/// every cell fits its column, and a column wider than three has a cell
/// exactly that wide; the table has as many columns as its longest row and
/// at least as many as were aligned.
pub proof fn law_columns_fit_their_widest_cell(rows: Seq<Seq<Seq<char>>>, i: int, aligns: nat)
    ensures
        column_width(rows, i) >= 3,
        forall|r: int| 0 <= r < rows.len() ==> cell_width(#[trigger] rows[r][i]) <= column_width(rows, i),
        column_width(rows, i) > 3 ==> exists|r: int|
            0 <= r < rows.len() && cell_width(#[trigger] rows[r][i]) == column_width(rows, i),
        forall|r: int| 0 <= r < rows.len() ==> #[trigger] rows[r].len() <= column_count(aligns, rows),
        aligns <= column_count(aligns, rows),
    decreases rows.len(),
{
    if rows.len() > 0 {
        let p = rows.drop_last();
        law_columns_fit_their_widest_cell(p, i, aligns);
        assert forall|r: int| 0 <= r < rows.len() implies cell_width(#[trigger] rows[r][i]) <= column_width(
            rows,
            i,
        ) by {
            if r < rows.len() - 1 {
                assert(rows[r] == p[r]);
            }
        }
        assert forall|r: int| 0 <= r < rows.len() implies #[trigger] rows[r].len() <= column_count(aligns, rows) by {
            if r < rows.len() - 1 {
                assert(rows[r] == p[r]);
                assert(p[r].len() <= column_count(aligns, p));
            }
        }
        if column_width(rows, i) > 3 {
            if cell_width(rows.last()[i]) > column_width(p, i) {
                assert(cell_width(rows[rows.len() - 1][i]) == column_width(rows, i));
            } else {
                let r = choose|r: int| 0 <= r < p.len() && cell_width(#[trigger] p[r][i]) == column_width(p, i);
                assert(rows[r] == p[r]);
            }
        }
    }
}

/// The width of each of `n` columns.
pub open spec fn column_widths(rows: Seq<Seq<Seq<char>>>, n: nat) -> Seq<nat> {
    Seq::new(n, |i: int| column_width(rows, i))
}

/// A run of box-drawing dashes over a column of width `w` and its margins.
pub open spec fn dash_run(w: nat) -> Seq<char> {
    repeat_seq("─"@, w) + "──"@
}

/// A horizontal rule of the table: `left`, the dash runs joined by `mid`,
/// and `right`.
pub open spec fn rule_text(left: Seq<char>, mid: Seq<char>, right: Seq<char>, ws: Seq<nat>) -> Seq<char> {
    left + join_seq(Seq::new(ws.len(), |i: int| dash_run(ws[i])), mid) + right
}

/// One cell padded with spaces to its column's width, between margins.
pub open spec fn cell_text(cell: Seq<char>, w: nat) -> Seq<char> {
    " "@ + cell + repeat_seq(" "@, if cell_width(cell) < w {
        (w - cell_width(cell)) as nat
    } else {
        0
    }) + " │"@
}

/// The first `k` cells of a row.
pub open spec fn cells_text(row: Seq<Seq<char>>, ws: Seq<nat>, k: nat) -> Seq<char>
    decreases k,
{
    if k == 0 {
        Seq::empty()
    } else {
        cells_text(row, ws, (k - 1) as nat) + cell_text(row[k - 1], ws[k - 1])
    }
}

/// One row of the table.
pub open spec fn row_text(row: Seq<Seq<char>>, ws: Seq<nat>) -> Seq<char> {
    "│"@ + cells_text(row, ws, row.len()) + "\n"@
}

/// Rows of the table, in order.
pub open spec fn rows_text(rows: Seq<Seq<Seq<char>>>, ws: Seq<nat>) -> Seq<char>
    decreases rows.len(),
{
    if rows.len() == 0 {
        Seq::empty()
    } else {
        rows_text(rows.drop_last(), ws) + row_text(rows.last(), ws)
    }
}

/// A table as drawn on the terminal: nothing for a table without rows or
/// columns; otherwise the top rule, the first row, the rule under it and an
/// empty line, the other rows, the bottom rule and an empty line.
pub open spec fn table_text(aligns: nat, rows: Seq<Seq<Seq<char>>>) -> Seq<char> {
    let n = column_count(aligns, rows);
    if rows.len() == 0 || n == 0 {
        Seq::empty()
    } else {
        let pr = padded_rows(rows, n);
        let ws = column_widths(pr, n);
        rule_text("┌"@, "┬"@, "┐"@, ws) + "\n"@ + row_text(pr[0], ws) + rule_text("├"@, "┼"@, "┤\n"@, ws)
            + "\n"@ + rows_text(pr.skip(1), ws) + rule_text("└"@, "┴"@, "┘\n"@, ws) + "\n"@
    }
}

/// The views of a table's rows.
pub open spec fn rows_view(rows: Seq<Vec<String>>) -> Seq<Seq<Seq<char>>> {
    Seq::new(rows.len(), |r: int| strs(rows[r]@))
}

/// The views of a list of widths.
pub open spec fn nats(ws: Seq<usize>) -> Seq<nat> {
    Seq::new(ws.len(), |i: int| ws[i] as nat)
}

fn max_len(rows: &Vec<Vec<String>>) -> (m: usize)
    ensures
        m as nat == max_row_len(rows_view(rows@)),
{
    let mut m: usize = 0;
    let mut r: usize = 0;
    while r < rows.len()
        invariant
            r <= rows@.len(),
            m as nat == max_row_len(rows_view(rows@).take(r as int)),
        decreases rows@.len() - r,
    {
        proof {
            assert(rows_view(rows@).take(r + 1).drop_last() =~= rows_view(rows@).take(r as int));
        }
        if rows[r].len() > m {
            m = rows[r].len();
        }
        r = r + 1;
    }
    assert(rows_view(rows@).take(r as int) =~= rows_view(rows@));
    m
}

fn pad_rows(rows: &Vec<Vec<String>>, n: usize) -> (p: Vec<Vec<String>>)
    ensures
        rows_view(p@) == padded_rows(rows_view(rows@), n as nat),
{
    let mut p: Vec<Vec<String>> = Vec::new();
    let mut r: usize = 0;
    while r < rows.len()
        invariant
            r <= rows@.len(),
            p@.len() == r,
            forall|k: int| 0 <= k < r ==> strs(#[trigger] p@[k]@) == padded_row(strs(rows@[k]@), n as nat),
        decreases rows@.len() - r,
    {
        let mut row = clone_strings(&rows[r]);
        let ghost orig = strs(rows@[r as int]@);
        while row.len() < n
            invariant
                orig.len() <= strs(row@).len() <= (if orig.len() >= n {
                    orig.len()
                } else {
                    n as nat
                }),
                strs(row@) == orig + Seq::new((strs(row@).len() - orig.len()) as nat, |i: int| Seq::<char>::empty()),
            decreases n - row@.len(),
        {
            let ghost before = strs(row@);
            row.push(String::new());
            proof {
                assert(strs(row@) =~= before.push(Seq::<char>::empty()));
                assert(strs(row@) =~= orig + Seq::new((strs(row@).len() - orig.len()) as nat, |i: int| Seq::<char>::empty()));
            }
        }
        proof {
            if orig.len() >= n {
                assert(strs(row@) =~= orig);
            } else {
                assert(strs(row@) =~= padded_row(orig, n as nat));
            }
        }
        p.push(row);
        r = r + 1;
    }
    assert(rows_view(p@) =~= padded_rows(rows_view(rows@), n as nat));
    p
}

fn column_widths_of(rows: &Vec<Vec<String>>, n: usize) -> (ws: Vec<usize>)
    requires
        forall|r: int| 0 <= r < rows@.len() ==> #[trigger] rows@[r]@.len() == n,
    ensures
        nats(ws@) == column_widths(rows_view(rows@), n as nat),
{
    let mut ws: Vec<usize> = Vec::new();
    let mut i: usize = 0;
    while i < n
        invariant
            i <= n,
            ws@.len() == i,
            forall|r: int| 0 <= r < rows@.len() ==> #[trigger] rows@[r]@.len() == n,
            forall|k: int| 0 <= k < i ==> #[trigger] ws@[k] as nat == column_width(rows_view(rows@), k),
        decreases n - i,
    {
        let mut w: usize = 3;
        let mut r: usize = 0;
        while r < rows.len()
            invariant
                r <= rows@.len(),
                i < n,
                forall|q: int| 0 <= q < rows@.len() ==> #[trigger] rows@[q]@.len() == n,
                w as nat == column_width(rows_view(rows@).take(r as int), i as int),
            decreases rows@.len() - r,
        {
            let c = visible_width(rows[r][i].as_str());
            proof {
                let t = rows_view(rows@).take(r + 1);
                assert(t.drop_last() =~= rows_view(rows@).take(r as int));
                assert(t.last() == strs(rows@[r as int]@));
                assert(t.last()[i as int] == rows@[r as int]@[i as int]@);
            }
            if c > w {
                w = c;
            }
            r = r + 1;
        }
        assert(rows_view(rows@).take(r as int) =~= rows_view(rows@));
        ws.push(w);
        i = i + 1;
    }
    assert(nats(ws@) =~= column_widths(rows_view(rows@), n as nat));
    ws
}

fn push_rule(out: &mut String, left: &str, mid: &str, right: &str, ws: &Vec<usize>)
    ensures
        final(out)@ == old(out)@ + rule_text(left@, mid@, right@, nats(ws@)),
{
    let ghost start = out@;
    let ghost runs = Seq::new(ws@.len(), |i: int| dash_run(ws@[i] as nat));
    out.append(left);
    let mut i: usize = 0;
    while i < ws.len()
        invariant
            i <= ws@.len(),
            runs == Seq::new(ws@.len(), |k: int| dash_run(ws@[k] as nat)),
            out@ == start + left@ + join_seq(runs.take(i as int), mid@),
        decreases ws@.len() - i,
    {
        if i > 0 {
            out.append(mid);
        }
        push_repeat(out, "─", ws[i]);
        out.append("──");
        proof {
            let t = runs.take(i + 1);
            assert(t.drop_last() =~= runs.take(i as int));
            assert(t.last() == dash_run(ws@[i as int] as nat));
            if i == 0 {
                assert(t =~= seq![dash_run(ws@[0] as nat)]);
            }
        }
        i = i + 1;
    }
    out.append(right);
    proof {
        assert(runs.take(i as int) =~= runs);
        assert(Seq::new(nats(ws@).len(), |k: int| dash_run(nats(ws@)[k])) =~= runs);
    }
}

fn push_row(out: &mut String, row: &Vec<String>, ws: &Vec<usize>)
    requires
        row@.len() == ws@.len(),
    ensures
        final(out)@ == old(out)@ + row_text(strs(row@), nats(ws@)),
{
    let ghost start = out@;
    out.append("│");
    let mut i: usize = 0;
    while i < row.len()
        invariant
            i <= row@.len(),
            row@.len() == ws@.len(),
            out@ == start + "│"@ + cells_text(strs(row@), nats(ws@), i as nat),
        decreases row@.len() - i,
    {
        let ghost before = out@;
        let w = ws[i];
        out.append(" ");
        let vis = visible_width(row[i].as_str());
        out.append(row[i].as_str());
        if vis < w {
            push_repeat(out, " ", w - vis);
        } else {
            push_repeat(out, " ", 0);
        }
        out.append(" │");
        proof {
            assert(out@ =~= before + cell_text(strs(row@)[i as int], nats(ws@)[i as int]));
        }
        i = i + 1;
    }
    out.append("\n");
}

fn push_rows(out: &mut String, rows: &Vec<Vec<String>>, from: usize, ws: &Vec<usize>)
    requires
        from <= rows@.len(),
        forall|r: int| 0 <= r < rows@.len() ==> #[trigger] rows@[r]@.len() == ws@.len(),
    ensures
        final(out)@ == old(out)@ + rows_text(rows_view(rows@).skip(from as int), nats(ws@)),
{
    let ghost start = out@;
    let ghost all = rows_view(rows@).skip(from as int);
    let mut r: usize = from;
    while r < rows.len()
        invariant
            from <= r <= rows@.len(),
            all == rows_view(rows@).skip(from as int),
            forall|q: int| 0 <= q < rows@.len() ==> #[trigger] rows@[q]@.len() == ws@.len(),
            out@ == start + rows_text(all.take(r - from), nats(ws@)),
        decreases rows@.len() - r,
    {
        push_row(out, &rows[r], ws);
        proof {
            let t = all.take(r + 1 - from);
            assert(t.drop_last() =~= all.take(r - from));
            assert(t.last() == strs(rows@[r as int]@));
        }
        r = r + 1;
    }
    assert(all.take(r - from) =~= all);
}

/// Draws a table (see [`table_text`]).
pub fn push_table(out: &mut String, aligns: usize, rows: &Vec<Vec<String>>)
    ensures
        final(out)@ == old(out)@ + table_text(aligns as nat, rows_view(rows@)),
{
    let ghost start = out@;
    let m = max_len(rows);
    let n = if aligns >= m {
        aligns
    } else {
        m
    };
    if rows.len() == 0 || n == 0 {
        assert(out@ =~= start + table_text(aligns as nat, rows_view(rows@)));
        return;
    }
    let padded = pad_rows(rows, n);
    proof {
        assert(rows_view(padded@).len() == padded@.len());
        assert(padded_rows(rows_view(rows@), n as nat).len() == rows@.len());
        assert forall|r: int| 0 <= r < padded@.len() implies #[trigger] padded@[r]@.len() == n by {
            assert(rows_view(padded@)[r] == padded_row(rows_view(rows@)[r], n as nat));
            assert(strs(padded@[r]@).len() == padded@[r]@.len());
            assert(rows_view(rows@)[r].len() <= max_row_len(rows_view(rows@))) by {
                lemma_row_len_le_max(rows_view(rows@), r);
            }
        }
    }
    let ws = column_widths_of(&padded, n);
    let ghost pr = rows_view(padded@);
    let ghost wv = nats(ws@);
    push_rule(out, "┌", "┬", "┐", &ws);
    out.append("\n");
    push_row(out, &padded[0], &ws);
    push_rule(out, "├", "┼", "┤\n", &ws);
    out.append("\n");
    push_rows(out, &padded, 1, &ws);
    push_rule(out, "└", "┴", "┘\n", &ws);
    out.append("\n");
    proof {
        assert(pr[0] == strs(padded@[0]@));
        assert(out@ =~= start + table_text(aligns as nat, rows_view(rows@)));
    }
}

proof fn lemma_row_len_le_max(rows: Seq<Seq<Seq<char>>>, r: int)
    requires
        0 <= r < rows.len(),
    ensures
        rows[r].len() <= max_row_len(rows),
    decreases rows.len(),
{
    if r < rows.len() - 1 {
        lemma_row_len_le_max(rows.drop_last(), r);
        assert(rows.drop_last()[r] == rows[r]);
    }
}

} // verus!
