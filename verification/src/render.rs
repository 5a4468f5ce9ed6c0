//! Layout & renderer: per-column widths, border lines, padded row lines and
//! the row/column summary.
//!
//! The rendering of a table is: top border, row 0, separator, row 1,
//! separator, ..., last row, bottom border, then a summary line with the row
//! and column counts. Every cell is left-aligned and right-padded to its
//! column's width.

use vstd::prelude::*;

verus! {

use vstd::string::StrSliceExecFns;
use vstd::string::StringExecFns;
use crate::text::{char_run, dec_digits, lemma_char_run_len, append_run, to_decimal};
use crate::width::{
    str_cols, col_cells_max, header_cols, widths_fit, table_widths, lemma_cell_le_col_max,
    column_sizes, check_widths_fit, display_width,
};
use crate::parse::rectangular;

/// Why a table cannot be rendered.
#[derive(Debug, Clone, Copy, PartialEq, Eq)]
pub enum RenderError {
    /// The table has no rows at all.
    EmptyTable,
    /// A column's width does not fit in `usize`.
    TooWide,
}

/// The horizontal segments of a border line: a run of `ws[i]` horizontal
/// glyphs per column, with the `mid` corner glyph between adjacent columns.
pub open spec fn border_segs(ws: Seq<usize>, mid: char) -> Seq<char>
    decreases ws.len(),
{
    if ws.len() == 0 {
        Seq::empty()
    } else if ws.len() == 1 {
        char_run('─', ws[0] as nat)
    } else {
        char_run('─', ws[0] as nat) + seq![mid] + border_segs(ws.drop_first(), mid)
    }
}

/// A whole border line: start corner, segments, end corner, newline.
pub open spec fn border_line(ws: Seq<usize>, start: char, mid: char, end: char) -> Seq<char> {
    seq![start] + border_segs(ws, mid) + seq![end] + seq!['\n']
}

/// The top border of a table.
pub open spec fn top_line(ws: Seq<usize>) -> Seq<char> {
    border_line(ws, '┌', '┬', '┐')
}

/// The separator line drawn between two adjacent rows.
pub open spec fn sep_line(ws: Seq<usize>) -> Seq<char> {
    border_line(ws, '├', '┼', '┤')
}

/// The bottom border of a table.
pub open spec fn bottom_line(ws: Seq<usize>) -> Seq<char> {
    border_line(ws, '└', '┴', '┘')
}

/// The spaces that right-pad a cell to its column's width.
pub open spec fn pad_cols(w: usize, cell: Seq<char>) -> nat {
    if str_cols(cell) <= w {
        (w - str_cols(cell)) as nat
    } else {
        0
    }
}

/// The cell segments of a row line: a vertical bar, the cell text and its
/// padding, for each column in turn.
pub open spec fn row_segs(row: Seq<Seq<char>>, ws: Seq<usize>) -> Seq<char>
    decreases ws.len(),
{
    if ws.len() == 0 {
        Seq::empty()
    } else {
        seq!['│'] + row[0] + char_run(' ', pad_cols(ws[0], row[0])) + row_segs(
            row.drop_first(),
            ws.drop_first(),
        )
    }
}

/// A whole row line: the cell segments, a closing vertical bar, a newline.
pub open spec fn row_line(row: Seq<Seq<char>>, ws: Seq<usize>) -> Seq<char> {
    row_segs(row, ws) + seq!['│'] + seq!['\n']
}

/// The lines between the two borders: the rows, with one separator line
/// between each adjacent pair.
pub open spec fn body_lines(t: Seq<Seq<Seq<char>>>, ws: Seq<usize>) -> Seq<Seq<char>>
    decreases t.len(),
{
    if t.len() == 0 {
        Seq::empty()
    } else if t.len() == 1 {
        seq![row_line(t[0], ws)]
    } else {
        seq![row_line(t[0], ws), sep_line(ws)] + body_lines(t.drop_first(), ws)
    }
}

/// All lines of a rendered table, in order.
pub open spec fn render_lines(t: Seq<Seq<Seq<char>>>, ws: Seq<usize>) -> Seq<Seq<char>> {
    seq![top_line(ws)] + body_lines(t, ws) + seq![bottom_line(ws)]
}

/// The concatenation of a sequence of lines.
pub open spec fn concat_lines(ls: Seq<Seq<char>>) -> Seq<char>
    decreases ls.len(),
{
    if ls.len() == 0 {
        Seq::empty()
    } else {
        ls[0] + concat_lines(ls.drop_first())
    }
}

/// The summary printed after the table: its row and column counts.
pub open spec fn summary_line(rows: nat, cols: nat) -> Seq<char> {
    "Rows: "@ + dec_digits(rows) + ", Cols: "@ + dec_digits(cols) + "\n"@
}

/// The full rendering of a table: all lines with the table's own column
/// widths, then the summary.
pub open spec fn render_spec(t: Seq<Seq<Seq<char>>>) -> Seq<char> {
    concat_lines(render_lines(t, table_widths(t))) + summary_line(t.len(), header_cols(t))
}

/// Concatenation of lines distributes over appending line sequences.
proof fn lemma_concat_lines_app(a: Seq<Seq<char>>, b: Seq<Seq<char>>)
    ensures
        concat_lines(a + b) == concat_lines(a) + concat_lines(b),
    decreases a.len(),
{
    if a.len() == 0 {
        assert(a + b =~= b);
        assert(Seq::<char>::empty() + concat_lines(b) =~= concat_lines(b));
        assert(concat_lines(a) =~= Seq::<char>::empty());
    } else {
        assert((a + b).drop_first() =~= a.drop_first() + b);
        lemma_concat_lines_app(a.drop_first(), b);
        assert((a + b)[0] == a[0]);
        assert(a[0] + (concat_lines(a.drop_first()) + concat_lines(b)) =~= (a[0] + concat_lines(
            a.drop_first(),
        )) + concat_lines(b));
    }
}

/// Rendering is a pure function of the table's cells: two tables with the
/// same cells render to identical output, so rendering the same table twice
/// gives byte-identical text.
pub proof fn lemma_render_deterministic(t1: Seq<Seq<Seq<char>>>, t2: Seq<Seq<Seq<char>>>)
    requires
        t1 =~~= t2,
    ensures
        render_spec(t1) == render_spec(t2),
{
    assert(t1 == t2);
}

/// The length of the horizontal segments of a border line, in glyphs: the
/// per-column runs plus one corner between adjacent columns.
pub open spec fn segs_len(ws: Seq<usize>) -> nat
    decreases ws.len(),
{
    if ws.len() == 0 {
        0
    } else if ws.len() == 1 {
        ws[0] as nat
    } else {
        (ws[0] + 1 + segs_len(ws.drop_first())) as nat
    }
}

/// A border line's segments hold exactly `ws[i]` horizontal glyphs for each
/// column, whatever the corner glyph between them is.
pub proof fn lemma_border_segs_len(ws: Seq<usize>, mid: char)
    ensures
        border_segs(ws, mid).len() == segs_len(ws),
    decreases ws.len(),
{
    if ws.len() == 1 {
        lemma_char_run_len('─', ws[0] as nat);
    } else if ws.len() > 1 {
        lemma_char_run_len('─', ws[0] as nat);
        lemma_border_segs_len(ws.drop_first(), mid);
    }
}

/// Border symmetry and column alignment: the top, separator and bottom
/// borders of a table all have the same glyph count, each column's border
/// run holds exactly `ws[i]` horizontal glyphs, and in every row line whose
/// cells fit their columns the cell text plus its padding occupies exactly
/// the same `ws[i]` display columns.
pub proof fn lemma_border_symmetry(row: Seq<Seq<char>>, ws: Seq<usize>)
    requires
        row.len() == ws.len(),
        forall|i: int| 0 <= i < ws.len() ==> str_cols(#[trigger] row[i]) <= ws[i],
    ensures
        top_line(ws).len() == bottom_line(ws).len(),
        top_line(ws).len() == sep_line(ws).len(),
        forall|i: int| 0 <= i < ws.len() ==> char_run('─', ws[i] as nat).len() == ws[i],
        forall|i: int|
            0 <= i < ws.len() ==> str_cols(#[trigger] row[i]) + pad_cols(ws[i], row[i]) == ws[i],
{
    lemma_border_segs_len(ws, '┬');
    lemma_border_segs_len(ws, '┼');
    lemma_border_segs_len(ws, '┴');
    assert forall|i: int| 0 <= i < ws.len() implies char_run('─', ws[i] as nat).len()
        == ws[i] by {
        lemma_char_run_len('─', ws[i] as nat);
    }
}

/// The line structure of a rendered table: for `k` rows there are `2k + 1`
/// lines; the first is the top border and the last the bottom border, row
/// `j` stands at line `2j + 1`, and between every adjacent pair of rows
/// stands exactly one separator line, at lines `2j + 2` — so a table with
/// `k` rows is rendered with exactly `k - 1` separator lines.
pub proof fn lemma_render_line_structure(t: Seq<Seq<Seq<char>>>, ws: Seq<usize>)
    requires
        t.len() > 0,
    ensures
        render_lines(t, ws).len() == 2 * t.len() + 1,
        render_lines(t, ws)[0] == top_line(ws),
        render_lines(t, ws)[2 * t.len() as int] == bottom_line(ws),
        forall|i: int|
            1 <= i < 2 * t.len() && i % 2 == 1 ==> #[trigger] render_lines(t, ws)[i] == row_line(
                t[(i - 1) / 2],
                ws,
            ),
        forall|i: int|
            1 <= i < 2 * t.len() && i % 2 == 0 ==> #[trigger] render_lines(t, ws)[i] == sep_line(
                ws,
            ),
{
    lemma_body_lines_structure(t, ws);
    assert forall|i: int| 1 <= i < 2 * t.len() implies #[trigger] render_lines(t, ws)[i]
        == body_lines(t, ws)[i - 1] by {
        assert(render_lines(t, ws)[i] == (seq![top_line(ws)] + body_lines(t, ws) + seq![
            bottom_line(ws),
        ])[i]);
    }
}

/// The body of a rendered table alternates row lines and separator lines,
/// beginning and ending with a row line.
proof fn lemma_body_lines_structure(t: Seq<Seq<Seq<char>>>, ws: Seq<usize>)
    requires
        t.len() > 0,
    ensures
        body_lines(t, ws).len() == 2 * t.len() - 1,
        forall|i: int|
            0 <= i < 2 * t.len() - 1 && i % 2 == 0 ==> #[trigger] body_lines(t, ws)[i] == row_line(
                t[i / 2],
                ws,
            ),
        forall|i: int|
            0 <= i < 2 * t.len() - 1 && i % 2 == 1 ==> #[trigger] body_lines(t, ws)[i] == sep_line(
                ws,
            ),
    decreases t.len(),
{
    if t.len() > 1 {
        lemma_body_lines_structure(t.drop_first(), ws);
        let rest = body_lines(t.drop_first(), ws);
        assert forall|i: int| 0 <= i < 2 * t.len() - 1 && i % 2 == 0 implies #[trigger] body_lines(
            t,
            ws,
        )[i] == row_line(t[i / 2], ws) by {
            if i >= 2 {
                assert(body_lines(t, ws)[i] == rest[i - 2]);
                assert((i - 2) % 2 == 0 && (i - 2) / 2 == i / 2 - 1);
                assert(t.drop_first()[i / 2 - 1] == t[i / 2]);
            }
        }
        assert forall|i: int| 0 <= i < 2 * t.len() - 1 && i % 2 == 1 implies #[trigger] body_lines(
            t,
            ws,
        )[i] == sep_line(ws) by {
            if i >= 2 {
                assert(body_lines(t, ws)[i] == rest[i - 2]);
                assert((i - 2) % 2 == 1);
            }
        }
    }
}

/// One border line, with the given corner glyphs.
pub fn render_line(column_sizes: &Vec<usize>, start: &str, mid: &str, end: &str) -> (r: String)
    requires
        start@.len() == 1,
        mid@.len() == 1,
        end@.len() == 1,
    ensures
        r@ == border_line(column_sizes@, start@[0], mid@[0], end@[0]),
{
    let ghost ws = column_sizes@;
    let ghost m = mid@[0];
    let mut out = String::new();
    out.append(start);
    proof {
        assert(start@ =~= seq![start@[0]]);
        assert(ws.skip(0) =~= ws);
        assert(out@ =~= seq![start@[0]]);
    }
    let k: usize = column_sizes.len();
    let mut i: usize = 0;
    while i < k
        invariant
            i <= k,
            k == ws.len(),
            ws == column_sizes@,
            mid@.len() == 1,
            m == mid@[0],
            out@ + border_segs(ws.skip(i as int), m) == seq![start@[0]] + border_segs(ws, m),
        decreases k - i,
    {
        let ghost before = out@;
        proof {
            reveal_strlit("─");
        }
        append_run(&mut out, "─", column_sizes[i]);
        proof {
            assert("─"@[0] == '─');
            assert(ws.skip(i as int)[0] == ws[i as int]);
            assert(ws.skip(i as int).drop_first() =~= ws.skip(i + 1));
        }
        if i + 1 < k {
            out.append(mid);
            proof {
                assert(mid@ =~= seq![m]);
                assert(ws.skip(i as int).len() > 1);
                assert(border_segs(ws.skip(i as int), m) == char_run('─', ws[i as int] as nat)
                    + seq![m] + border_segs(ws.skip(i + 1), m));
                assert(out@ + border_segs(ws.skip(i + 1), m) =~= before + border_segs(
                    ws.skip(i as int),
                    m,
                ));
            }
        } else {
            proof {
                assert(ws.skip(i as int).len() == 1);
                assert(border_segs(ws.skip(i as int), m) == char_run('─', ws[i as int] as nat));
                assert(ws.skip(i + 1) =~= Seq::<usize>::empty());
                assert(border_segs(ws.skip(i + 1), m) =~= Seq::<char>::empty());
                assert(out@ + border_segs(ws.skip(i + 1), m) =~= before + border_segs(
                    ws.skip(i as int),
                    m,
                ));
            }
        }
        i = i + 1;
    }
    out.append(end);
    out.append("\n");
    proof {
        assert(end@ =~= seq![end@[0]]);
        reveal_strlit("\n");
        assert("\n"@ =~= seq!['\n']);
        assert(ws.skip(k as int) =~= Seq::<usize>::empty());
        assert(border_segs(ws.skip(k as int), m) =~= Seq::<char>::empty());
        assert(out@ =~= border_line(ws, start@[0], m, end@[0]));
    }
    out
}

/// One row line: each cell left-aligned and right-padded to its column width.
pub fn render_row(table: &Vec<Vec<String>>, row: usize, column_sizes: &Vec<usize>) -> (r: String)
    requires
        row < table@.len(),
        table.deep_view()[row as int].len() == column_sizes@.len(),
        forall|c: int|
            0 <= c < column_sizes@.len() ==> str_cols(#[trigger] table.deep_view()[row as int][c])
                <= column_sizes@[c],
    ensures
        r@ == row_line(table.deep_view()[row as int], column_sizes@),
{
    let ghost rv = table.deep_view()[row as int];
    let ghost ws = column_sizes@;
    let cells: &Vec<String> = &table[row];
    proof {
        assert(rv == cells.deep_view());
        assert(rv.skip(0) =~= rv);
        assert(ws.skip(0) =~= ws);
    }
    let k: usize = column_sizes.len();
    let mut out = String::new();
    proof {
        assert(out@ + row_segs(rv, ws) =~= row_segs(rv, ws));
    }
    let mut i: usize = 0;
    while i < k
        invariant
            i <= k,
            k == ws.len(),
            ws == column_sizes@,
            rv == table.deep_view()[row as int],
            row < table@.len(),
            rv.len() == k,
            rv == cells.deep_view(),
            forall|c: int| 0 <= c < k ==> str_cols(#[trigger] rv[c]) <= ws[c],
            out@ + row_segs(rv.skip(i as int), ws.skip(i as int)) == row_segs(rv, ws),
        decreases k - i,
    {
        let ghost before = out@;
        proof {
            reveal_strlit("│");
            reveal_strlit(" ");
        }
        out.append("│");
        let cell: &String = &cells[i];
        proof {
            assert(cells.deep_view()[i as int] == cell@);
        }
        out.append(cell.as_str());
        let cw: usize = match display_width(cell.as_str()) {
            Some(w) => w,
            None => {
                proof {
                    assert(str_cols(rv[i as int]) <= ws[i as int]);
                    assert(false);
                }
                0
            },
        };
        proof {
            assert(str_cols(rv[i as int]) <= ws[i as int]);
        }
        append_run(&mut out, " ", column_sizes[i] - cw);
        proof {
            reveal_strlit("│");
            reveal_strlit(" ");
            assert("│"@ =~= seq!['│']);
            assert(" "@[0] == ' ');
            assert(rv.skip(i as int)[0] == rv[i as int]);
            assert(ws.skip(i as int)[0] == ws[i as int]);
            assert(rv.skip(i as int).drop_first() =~= rv.skip(i + 1));
            assert(ws.skip(i as int).drop_first() =~= ws.skip(i + 1));
            assert((ws[i as int] - cw) as nat == pad_cols(ws[i as int], rv[i as int]));
            assert(row_segs(rv.skip(i as int), ws.skip(i as int)) == seq!['│'] + rv[i as int]
                + char_run(' ', pad_cols(ws[i as int], rv[i as int])) + row_segs(
                rv.skip(i + 1),
                ws.skip(i + 1),
            ));
            assert(out@ + row_segs(rv.skip(i + 1), ws.skip(i + 1)) =~= before + row_segs(
                rv.skip(i as int),
                ws.skip(i as int),
            ));
        }
        i = i + 1;
    }
    out.append("│");
    out.append("\n");
    proof {
        reveal_strlit("│");
        reveal_strlit("\n");
        assert(rv.skip(k as int) =~= Seq::<Seq<char>>::empty());
        assert(ws.skip(k as int) =~= Seq::<usize>::empty());
        assert(row_segs(rv.skip(k as int), ws.skip(k as int)) =~= Seq::<char>::empty());
        assert(out@ =~= row_line(rv, ws));
    }
    out
}

/// Render a table: borders, rows with separators, and the summary line.
///
/// An empty table (no rows at all) is refused with `EmptyTable`; a table
/// with a column too wide for `usize` is refused with `TooWide`; every other
/// rectangular table renders.
pub fn render_table(table: &Vec<Vec<String>>) -> (r: Result<String, RenderError>)
    requires
        rectangular(table.deep_view()),
    ensures
        table.deep_view().len() == 0 ==> r == Err::<String, RenderError>(RenderError::EmptyTable),
        table.deep_view().len() > 0 && !widths_fit(table.deep_view()) ==> r == Err::<
            String,
            RenderError,
        >(RenderError::TooWide),
        table.deep_view().len() > 0 && widths_fit(table.deep_view()) ==> (r matches Ok(s) && s@
            == render_spec(table.deep_view())),
{
    let ghost t = table.deep_view();
    if table.len() == 0 {
        return Err(RenderError::EmptyTable);
    }
    if !check_widths_fit(table) {
        return Err(RenderError::TooWide);
    }
    let sizes = column_sizes(table);
    let ghost ws = table_widths(t);
    let k: usize = table.len();
    proof {
        reveal_strlit("┌");
        reveal_strlit("┬");
        reveal_strlit("┐");
    }
    let mut out = render_line(&sizes, "┌", "┬", "┐");
    proof {
        assert(out@ == top_line(ws));
        lemma_concat_lines_app(seq![top_line(ws)] + body_lines(t, ws), seq![bottom_line(ws)]);
        lemma_concat_lines_app(seq![top_line(ws)], body_lines(t, ws));
        assert(concat_lines(seq![top_line(ws)]) =~= top_line(ws) + concat_lines(
            Seq::<Seq<char>>::empty(),
        )) by {
            assert(seq![top_line(ws)].drop_first() =~= Seq::<Seq<char>>::empty());
        }
        assert(concat_lines(seq![bottom_line(ws)]) =~= bottom_line(ws) + concat_lines(
            Seq::<Seq<char>>::empty(),
        )) by {
            assert(seq![bottom_line(ws)].drop_first() =~= Seq::<Seq<char>>::empty());
        }
        assert(t.skip(0) =~= t);
        assert(out@ + concat_lines(body_lines(t.skip(0), ws)) + bottom_line(ws) =~= concat_lines(
            render_lines(t, ws),
        ));
    }
    let mut i: usize = 0;
    while i < k
        invariant
            i <= k,
            k == table@.len(),
            t == table.deep_view(),
            rectangular(t),
            widths_fit(t),
            t.len() == k,
            sizes@ == table_widths(t),
            ws == table_widths(t),
            out@ + concat_lines(body_lines(t.skip(i as int), ws)) + bottom_line(ws)
                == concat_lines(render_lines(t, ws)),
        decreases k - i,
    {
        proof {
            assert(t[i as int].len() == header_cols(t));
            assert(ws.len() == header_cols(t));
            assert forall|c: int| 0 <= c < ws.len() implies str_cols(#[trigger] t[i as int][c])
                <= ws[c] by {
                lemma_cell_le_col_max(t, c, i as int);
                assert(col_cells_max(t, c) + 2 <= usize::MAX);
                assert(ws[c] == (col_cells_max(t, c) + 2) as usize);
            }
        }
        let line = render_row(table, i, &sizes);
        let ghost before = out@;
        out.append(line.as_str());
        proof {
            assert(t.skip(i as int)[0] == t[i as int]);
            assert(t.skip(i as int).drop_first() =~= t.skip(i + 1));
        }
        if i + 1 < k {
            proof {
                reveal_strlit("├");
                reveal_strlit("┼");
                reveal_strlit("┤");
            }
            let sep = render_line(&sizes, "├", "┼", "┤");
            out.append(sep.as_str());
            proof {
                assert(sep@ == sep_line(ws));
                assert(t.skip(i as int).len() > 1);
                assert(body_lines(t.skip(i as int), ws) == seq![
                    row_line(t[i as int], ws),
                    sep_line(ws),
                ] + body_lines(t.skip(i + 1), ws));
                lemma_concat_lines_app(
                    seq![row_line(t[i as int], ws), sep_line(ws)],
                    body_lines(t.skip(i + 1), ws),
                );
                assert(concat_lines(seq![row_line(t[i as int], ws), sep_line(ws)]) =~= row_line(
                    t[i as int],
                    ws,
                ) + sep_line(ws)) by {
                    let pair = seq![row_line(t[i as int], ws), sep_line(ws)];
                    assert(pair.drop_first() =~= seq![sep_line(ws)]);
                    assert(seq![sep_line(ws)].drop_first() =~= Seq::<Seq<char>>::empty());
                    assert(sep_line(ws) + concat_lines(Seq::<Seq<char>>::empty()) =~= sep_line(ws));
                    assert(concat_lines(seq![sep_line(ws)]) == seq![sep_line(ws)][0]
                        + concat_lines(seq![sep_line(ws)].drop_first()));
                    assert(concat_lines(pair) == pair[0] + concat_lines(pair.drop_first()));
                }
                assert(out@ + concat_lines(body_lines(t.skip(i + 1), ws)) + bottom_line(ws)
                    =~= before + concat_lines(body_lines(t.skip(i as int), ws)) + bottom_line(ws));
            }
        } else {
            proof {
                assert(t.skip(i as int).len() == 1);
                assert(body_lines(t.skip(i as int), ws) == seq![row_line(t[i as int], ws)]);
                assert(concat_lines(seq![row_line(t[i as int], ws)]) =~= row_line(t[i as int], ws))
                    by {
                    let single = seq![row_line(t[i as int], ws)];
                    assert(single.drop_first() =~= Seq::<Seq<char>>::empty());
                    assert(row_line(t[i as int], ws) + concat_lines(Seq::<Seq<char>>::empty())
                        =~= row_line(t[i as int], ws));
                    assert(concat_lines(single) == single[0] + concat_lines(single.drop_first()));
                }
                assert(t.skip(i + 1) =~= Seq::<Seq<Seq<char>>>::empty());
                assert(out@ + concat_lines(body_lines(t.skip(i + 1), ws)) + bottom_line(ws)
                    =~= before + concat_lines(body_lines(t.skip(i as int), ws)) + bottom_line(ws));
            }
        }
        i = i + 1;
    }
    proof {
        reveal_strlit("└");
        reveal_strlit("┴");
        reveal_strlit("┘");
    }
    let bottom = render_line(&sizes, "└", "┴", "┘");
    out.append(bottom.as_str());
    proof {
        assert(bottom@ == bottom_line(ws));
        assert(t.skip(k as int) =~= Seq::<Seq<Seq<char>>>::empty());
        assert(concat_lines(body_lines(t.skip(k as int), ws)) =~= Seq::<char>::empty());
        assert(out@ =~= concat_lines(render_lines(t, ws)));
    }
    out.append("Rows: ");
    let rows_dec = to_decimal(k);
    out.append(rows_dec.as_str());
    out.append(", Cols: ");
    let n: usize = table[0].len();
    proof {
        assert(t[0] == table@[0].deep_view());
        assert(n == header_cols(t));
    }
    let cols_dec = to_decimal(n);
    out.append(cols_dec.as_str());
    out.append("\n");
    proof {
        assert(out@ =~= render_spec(t));
    }
    Ok(out)
}

} // verus!
