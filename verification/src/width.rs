//! Display widths of cells and columns.
//!
//! A cell's display width is the number of terminal columns its glyphs
//! occupy: most glyphs take one column, East-Asian wide glyphs take two,
//! combining and other zero-width glyphs take none, and control characters
//! are counted as zero. The width of a column is the largest cell width in
//! it plus one column of padding on each side.

use vstd::prelude::*;

verus! {

use vstd::string::StrSliceExecFns;

/// Terminal columns of one character, as the East-Asian-width tables of the
/// unicode_width crate give them: `None` for a control character.
pub uninterp spec fn glyph_width(c: char) -> Option<usize>;

/// Columns one character takes in a rendered cell: control characters take none.
pub open spec fn char_cols(c: char) -> nat {
    match glyph_width(c) {
        Some(w) => w as nat,
        None => 0,
    }
}

/// Display width of a string of characters: the sum of its characters' columns.
pub open spec fn str_cols(s: Seq<char>) -> nat
    decreases s.len(),
{
    if s.len() == 0 {
        0
    } else {
        str_cols(s.drop_last()) + char_cols(s.last())
    }
}

/// Relies on unicode_width::UnicodeWidthChar::width: the result depends on
/// the character alone, and the crate's tables give every codepoint from
/// 0x20 up to (excluding) 0x7f the width 1.
#[verifier::external_body]
fn char_width(c: char) -> (r: Option<usize>)
    ensures
        r == glyph_width(c),
        0x20 <= (c as u32) && (c as u32) < 0x7f ==> r == Some(1usize),
{
    unicode_width::UnicodeWidthChar::width(c)
}

/// The width of any prefix of a string is at most the width of the string.
proof fn lemma_str_cols_take_le(s: Seq<char>, k: int)
    requires
        0 <= k <= s.len(),
    ensures
        str_cols(s.take(k)) <= str_cols(s),
    decreases s.len(),
{
    if k == s.len() {
        assert(s.take(k) =~= s);
    } else {
        assert(s.drop_last().take(k) =~= s.take(k));
        lemma_str_cols_take_le(s.drop_last(), k);
    }
}

/// Display width of a string, or `None` when the sum of the character widths
/// does not fit in `usize`.
pub fn display_width(s: &str) -> (r: Option<usize>)
    ensures
        match r {
            Some(w) => w == str_cols(s@),
            None => str_cols(s@) > usize::MAX,
        },
{
    let n = s.unicode_len();
    let mut total: usize = 0;
    let mut i: usize = 0;
    while i < n
        invariant
            i <= n,
            n == s@.len(),
            total == str_cols(s@.take(i as int)),
        decreases n - i,
    {
        let c = s.get_char(i);
        let w: usize = match char_width(c) {
            Some(w) => w,
            None => 0,
        };
        proof {
            assert(s@.take(i + 1).drop_last() =~= s@.take(i as int));
            assert(s@.take(i + 1).last() == s@[i as int]);
        }
        if w <= usize::MAX - total {
            total = total + w;
        } else {
            proof {
                lemma_str_cols_take_le(s@, i + 1);
            }
            return None;
        }
        i = i + 1;
    }
    proof {
        assert(s@.take(n as int) =~= s@);
    }
    Some(total)
}

/// The largest display width among the cells of column `col`, over the rows
/// that have such a cell; zero when no row reaches the column.
pub open spec fn col_cells_max(t: Seq<Seq<Seq<char>>>, col: int) -> nat
    decreases t.len(),
{
    if t.len() == 0 {
        0
    } else {
        let prev = col_cells_max(t.drop_last(), col);
        let here = if 0 <= col < t.last().len() {
            str_cols(t.last()[col])
        } else {
            0
        };
        if here > prev {
            here
        } else {
            prev
        }
    }
}

/// Every cell of a column is at most as wide as the column's maximum.
pub proof fn lemma_cell_le_col_max(t: Seq<Seq<Seq<char>>>, col: int, i: int)
    requires
        0 <= i < t.len(),
        0 <= col < t[i].len(),
    ensures
        str_cols(t[i][col]) <= col_cells_max(t, col),
    decreases t.len(),
{
    if i == t.len() - 1 {
        assert(t.last() == t[i]);
    } else {
        assert(t.drop_last()[i] == t[i]);
        lemma_cell_le_col_max(t.drop_last(), col, i);
    }
}

/// The number of two-column glyphs in a string.
pub open spec fn wide_count(s: Seq<char>) -> nat
    decreases s.len(),
{
    if s.len() == 0 {
        0
    } else {
        wide_count(s.drop_last()) + (if char_cols(s.last()) == 2 {
            1nat
        } else {
            0nat
        })
    }
}

/// Width correctness for single-column glyphs: a cell whose characters each
/// take one column (as every printable ASCII character does) is exactly as
/// wide as its character count.
pub proof fn lemma_narrow_cell_cols(s: Seq<char>)
    requires
        forall|k: int| 0 <= k < s.len() ==> char_cols(#[trigger] s[k]) == 1,
    ensures
        str_cols(s) == s.len(),
    decreases s.len(),
{
    if s.len() > 0 {
        lemma_narrow_cell_cols(s.drop_last());
    }
}

/// Width correctness with wide glyphs: a cell whose characters take one or
/// two columns each is as wide as its character count plus the number of its
/// two-column glyphs, so each wide glyph counts twice.
pub proof fn lemma_wide_cell_cols(s: Seq<char>)
    requires
        forall|k: int|
            0 <= k < s.len() ==> char_cols(#[trigger] s[k]) == 1 || char_cols(s[k]) == 2,
    ensures
        str_cols(s) == s.len() + wide_count(s),
    decreases s.len(),
{
    if s.len() > 0 {
        lemma_wide_cell_cols(s.drop_last());
    }
}

/// A bound on every cell of a column bounds the column's maximum.
pub proof fn lemma_col_max_le(t: Seq<Seq<Seq<char>>>, col: int, cap: nat)
    requires
        forall|r: int|
            0 <= r < t.len() && 0 <= col < #[trigger] t[r].len() ==> str_cols(t[r][col]) <= cap,
    ensures
        col_cells_max(t, col) <= cap,
    decreases t.len(),
{
    if t.len() > 0 {
        assert(t.last() == t[t.len() - 1]);
        assert(forall|r: int|
            0 <= r < t.len() - 1 && 0 <= col < #[trigger] t.drop_last()[r].len() ==> t.drop_last()[r]
                == t[r]);
        lemma_col_max_le(t.drop_last(), col, cap);
    }
}

/// Width correctness for a column of single-column glyphs: when every cell
/// of the column is made of one-column characters and the longest cell has
/// `cap` characters, the column's maximum cell width is exactly `cap`, so
/// the computed column width is `cap + 2`.
pub proof fn lemma_narrow_column_width(t: Seq<Seq<Seq<char>>>, col: int, cap: nat)
    requires
        forall|r: int| 0 <= r < t.len() ==> 0 <= col < (#[trigger] t[r]).len(),
        forall|r: int, k: int|
            0 <= r < t.len() && 0 <= k < t[r][col].len() ==> char_cols(#[trigger] t[r][col][k])
                == 1,
        forall|r: int| 0 <= r < t.len() ==> #[trigger] t[r][col].len() <= cap,
        exists|r: int| 0 <= r < t.len() && #[trigger] t[r][col].len() == cap,
    ensures
        col_cells_max(t, col) == cap,
{
    assert forall|r: int| 0 <= r < t.len() && 0 <= col < #[trigger] t[r].len() implies str_cols(
        t[r][col],
    ) <= cap by {
        lemma_narrow_cell_cols(t[r][col]);
    }
    lemma_col_max_le(t, col, cap);
    let w = choose|r: int| 0 <= r < t.len() && #[trigger] t[r][col].len() == cap;
    assert(0 <= col < t[w].len());
    lemma_narrow_cell_cols(t[w][col]);
    lemma_cell_le_col_max(t, col, w);
}

/// Width correctness for a column holding wide glyphs: when every character
/// of every cell in the column takes one or two columns, and the widest cell
/// measures `cap` (its character count plus its two-column glyph count),
/// the column's maximum cell width is exactly `cap`, so the computed column
/// width is `cap + 2`.
pub proof fn lemma_wide_column_width(t: Seq<Seq<Seq<char>>>, col: int, cap: nat)
    requires
        forall|r: int| 0 <= r < t.len() ==> 0 <= col < (#[trigger] t[r]).len(),
        forall|r: int, k: int|
            0 <= r < t.len() && 0 <= k < t[r][col].len() ==> char_cols(#[trigger] t[r][col][k])
                == 1 || char_cols(t[r][col][k]) == 2,
        forall|r: int|
            0 <= r < t.len() ==> t[r][col].len() + #[trigger] wide_count(t[r][col]) <= cap,
        exists|r: int|
            0 <= r < t.len() && t[r][col].len() + #[trigger] wide_count(t[r][col]) == cap,
    ensures
        col_cells_max(t, col) == cap,
{
    assert forall|r: int| 0 <= r < t.len() && 0 <= col < #[trigger] t[r].len() implies str_cols(
        t[r][col],
    ) <= cap by {
        lemma_wide_cell_cols(t[r][col]);
    }
    lemma_col_max_le(t, col, cap);
    let w = choose|r: int|
        0 <= r < t.len() && t[r][col].len() + #[trigger] wide_count(t[r][col]) == cap;
    assert(0 <= col < t[w].len());
    lemma_wide_cell_cols(t[w][col]);
    lemma_cell_le_col_max(t, col, w);
}

/// The largest display width among the cells of column `col`, or `None` when
/// some cell's width does not fit in `usize`.
fn col_max(table: &Vec<Vec<String>>, col: usize) -> (r: Option<usize>)
    ensures
        match r {
            Some(m) => m == col_cells_max(table.deep_view(), col as int),
            None => col_cells_max(table.deep_view(), col as int) > usize::MAX,
        },
{
    let ghost t = table.deep_view();
    let mut m: usize = 0;
    let mut i: usize = 0;
    while i < table.len()
        invariant
            i <= table.len(),
            t == table.deep_view(),
            m == col_cells_max(t.take(i as int), col as int),
        decreases table.len() - i,
    {
        let row: &Vec<String> = &table[i];
        proof {
            assert(t[i as int] == row.deep_view());
        }
        if col < row.len() {
            let cell: &String = &row[col];
            proof {
                assert(row.deep_view()[col as int] == cell@);
            }
            match display_width(cell.as_str()) {
                Some(w) => {
                    if w > m {
                        m = w;
                    }
                },
                None => {
                    proof {
                        lemma_cell_le_col_max(t, col as int, i as int);
                    }
                    return None;
                },
            }
        }
        proof {
            assert(t.take(i + 1).drop_last() =~= t.take(i as int));
            assert(t.take(i + 1).last() == t[i as int]);
        }
        i = i + 1;
    }
    proof {
        assert(t.take(table.len() as int) =~= t);
    }
    Some(m)
}

/// Width of column `col`: the largest cell display width in the column plus
/// one column of padding on each side.
pub fn column_size(table: &Vec<Vec<String>>, col: usize) -> (r: usize)
    requires
        col_cells_max(table.deep_view(), col as int) + 2 <= usize::MAX,
    ensures
        r == col_cells_max(table.deep_view(), col as int) + 2,
{
    match col_max(table, col) {
        Some(m) => m + 2,
        None => {
            proof {
                assert(false);
            }
            0
        },
    }
}

/// Whether the width of column `col` fits in `usize`.
fn column_fits(table: &Vec<Vec<String>>, col: usize) -> (b: bool)
    ensures
        b == (col_cells_max(table.deep_view(), col as int) + 2 <= usize::MAX),
{
    match col_max(table, col) {
        Some(m) => m <= usize::MAX - 2,
        None => false,
    }
}

/// The column count the header row fixes for the whole table.
pub open spec fn header_cols(t: Seq<Seq<Seq<char>>>) -> nat {
    if t.len() > 0 {
        t[0].len()
    } else {
        0
    }
}

/// Whether every column width of the table fits in `usize`.
pub open spec fn widths_fit(t: Seq<Seq<Seq<char>>>) -> bool {
    forall|c: int| 0 <= c < header_cols(t) ==> col_cells_max(t, c) + 2 <= usize::MAX
}

/// The widths of all columns of a table, one per header column.
pub open spec fn table_widths(t: Seq<Seq<Seq<char>>>) -> Seq<usize> {
    Seq::new(header_cols(t), |c: int| (col_cells_max(t, c) + 2) as usize)
}

/// Widths of all columns, one per header column.
pub fn column_sizes(table: &Vec<Vec<String>>) -> (sizes: Vec<usize>)
    requires
        table@.len() > 0,
        widths_fit(table.deep_view()),
    ensures
        sizes@ == table_widths(table.deep_view()),
{
    let ghost t = table.deep_view();
    let n = table[0].len();
    proof {
        assert(t[0] == table@[0].deep_view());
        assert(n == header_cols(t));
    }
    let mut sizes: Vec<usize> = Vec::new();
    let mut c: usize = 0;
    while c < n
        invariant
            c <= n,
            t == table.deep_view(),
            n == header_cols(t),
            widths_fit(t),
            sizes@.len() == c,
            forall|j: int| 0 <= j < c ==> sizes@[j] == table_widths(t)[j],
        decreases n - c,
    {
        proof {
            assert(col_cells_max(t, c as int) + 2 <= usize::MAX);
        }
        let w = column_size(table, c);
        sizes.push(w);
        c = c + 1;
    }
    proof {
        assert(sizes@ =~= table_widths(t));
    }
    sizes
}

/// Check that the whole table's column widths fit in `usize`.
pub fn check_widths_fit(table: &Vec<Vec<String>>) -> (b: bool)
    ensures
        b == widths_fit(table.deep_view()),
{
    let ghost t = table.deep_view();
    if table.len() == 0 {
        return true;
    }
    let n = table[0].len();
    proof {
        assert(t[0] == table@[0].deep_view());
        assert(n == header_cols(t));
    }
    let mut c: usize = 0;
    while c < n
        invariant
            c <= n,
            t == table.deep_view(),
            n == header_cols(t),
            forall|j: int| 0 <= j < c ==> col_cells_max(t, j) + 2 <= usize::MAX,
        decreases n - c,
    {
        if !column_fits(table, c) {
            return false;
        }
        c = c + 1;
    }
    true
}

} // verus!
