//! Laying out a long directory listing in padded columns.

use vstd::prelude::*;
use vstd::string::*;
use vstd::slice::slice_subrange;
use crate::display::{display_len, find_longest, longest_is_the_widest, longest_visible, pad_fits, padded, r_pad_array, visible_len, PAD_LIMIT};
use crate::text::{push_char, views};

verus! {

/// The state of splitting `cs` at newlines after reading it: the lines that
/// ended, and the line under way.
pub open spec fn newline_scan(cs: Seq<char>) -> (Seq<Seq<char>>, Seq<char>)
    decreases cs.len(),
{
    if cs.len() == 0 {
        (seq![], seq![])
    } else {
        let (done, cur) = newline_scan(cs.drop_last());
        if cs.last() == '\n' {
            (done.push(cur), seq![])
        } else {
            (done, cur.push(cs.last()))
        }
    }
}

/// `cs` split at each newline (`str::split("\n")`): one more piece than
/// there are newlines.
pub open spec fn split_on_newline(cs: Seq<char>) -> Seq<Seq<char>> {
    newline_scan(cs).0.push(newline_scan(cs).1)
}

/// The number of lines of `cs` (`str::lines().count()`): one per newline,
/// and one more for text after the last newline.
pub open spec fn line_count(cs: Seq<char>) -> nat {
    newline_scan(cs).0.len() + if newline_scan(cs).1.len() > 0 { 1nat } else { 0nat }
}

/// Splits `s` at each newline.
pub fn split_lines(s: &str) -> (r: Vec<String>)
    ensures
        views(r@) == split_on_newline(s@),
{
    broadcast use vstd::string::group_string_axioms;

    let mut done: Vec<String> = Vec::new();
    let mut cur = String::new();
    for c in it: s.chars()
        invariant
            it.seq() == s@,
            newline_scan(it.seq().take(it.index() as int)) == (views(done@), cur@),
    {
        assert(it.seq().take(it.index() + 1).drop_last() =~= it.seq().take(it.index() as int));
        if c == '\n' {
            let ghost before = views(done@);
            let line = cur;
            cur = String::new();
            done.push(line);
            assert(views(done@) =~= before.push(line@));
        } else {
            push_char(&mut cur, c);
        }
    }
    assert(s@.take(s@.len() as int) =~= s@);
    let ghost before = views(done@);
    let last = cur;
    done.push(last);
    assert(views(done@) =~= before.push(last@));
    done
}

/// The number of lines of `s` (see `line_count`).
pub fn count_lines(s: &str) -> (n: usize)
    ensures
        n == line_count(s@),
{
    broadcast use vstd::string::group_string_axioms;

    let total = s.unicode_len();
    let mut ended: usize = 0;
    let mut open: usize = 0;
    let ghost mut done: Seq<Seq<char>> = seq![];
    let ghost mut cur: Seq<char> = seq![];
    for c in it: s.chars()
        invariant
            it.seq() == s@,
            total == s@.len(),
            newline_scan(it.seq().take(it.index() as int)) == (done, cur),
            ended == done.len(),
            open == cur.len(),
            ended + open <= it.index(),
    {
        assert(it.seq().take(it.index() + 1).drop_last() =~= it.seq().take(it.index() as int));
        if c == '\n' {
            proof {
                done = done.push(cur);
                cur = seq![];
            }
            ended = ended + 1;
            open = 0;
        } else {
            proof {
                cur = cur.push(c);
            }
            open = open + 1;
        }
    }
    assert(s@.take(s@.len() as int) =~= s@);
    if open > 0 {
        ended + 1
    } else {
        ended
    }
}

/// The number of columns for `n` lines: one per ten lines, five at most.
pub open spec fn layout_cols(n: int) -> int {
    if n / 10 < 5 {
        n / 10
    } else {
        5
    }
}

/// The number of rows for `n` lines.
pub open spec fn layout_rows(n: int) -> int {
    n / layout_cols(n) + 1
}

/// `items` followed by empty cells up to `total` cells.
pub open spec fn fill_cells(items: Seq<Seq<char>>, total: int) -> Seq<Seq<char>> {
    if items.len() >= total {
        items
    } else {
        items + Seq::new((total - items.len()) as nat, |i: int| Seq::<char>::empty())
    }
}

/// The cells of column `c`: `rows` cells from `c * rows` on.
pub open spec fn column(cells: Seq<Seq<char>>, rows: int, c: int) -> Seq<Seq<char>> {
    cells.subrange(c * rows, c * rows + rows)
}

/// The width of column `c`: its widest cell and three spaces.
pub open spec fn column_width(cells: Seq<Seq<char>>, rows: int, c: int) -> nat {
    longest_visible(column(cells, rows, c)) + 3
}

/// Row `i` of the first `cols` columns, each cell padded to its column's width.
pub open spec fn layout_line(cells: Seq<Seq<char>>, rows: int, cols: int, i: int) -> Seq<char>
    decreases cols,
{
    if cols <= 0 {
        seq![]
    } else {
        layout_line(cells, rows, cols - 1, i) + padded(
            cells[(cols - 1) * rows + i],
            column_width(cells, rows, cols - 1),
        )
    }
}

/// Every column's width is a machine number, and every cell can be padded to
/// it (see `pad_fits`).
pub open spec fn layout_fits(cells: Seq<Seq<char>>, rows: int, cols: int) -> bool {
    forall|c: int|
        0 <= c < cols ==> {
            &&& #[trigger] column_width(cells, rows, c) <= usize::MAX
            &&& forall|i: int|
                0 <= i < rows ==> pad_fits(#[trigger] cells[c * rows + i], column_width(cells, rows, c))
        }
}

/// The lines of the column layout of a listing: its lines (`split_on_newline`)
/// filled up with empty cells, placed column by column, `layout_rows` to a
/// column, each padded to its column's width; `None` where the cells cannot
/// all be padded, or the number of cells is not a machine number.
pub open spec fn listing_layout(out: Seq<char>) -> Option<Seq<Seq<char>>> {
    let n = line_count(out) as int;
    let cols = layout_cols(n);
    let rows = layout_rows(n);
    if rows * cols > usize::MAX {
        None
    } else {
        let cells = fill_cells(split_on_newline(out), rows * cols);
        if layout_fits(cells, rows, cols) {
            Some(Seq::new(rows as nat, |i: int| layout_line(cells, rows, cols, i)))
        } else {
            None
        }
    }
}

proof fn lemma_cell_in_range(c: int, i: int, rows: int, cols: int)
    requires
        0 <= c < cols,
        0 <= i < rows,
    ensures
        0 <= c * rows,
        c * rows + i < c * rows + rows,
        c * rows + rows <= rows * cols,
{
    assert(0 <= c * rows) by (nonlinear_arith)
        requires
            0 <= c,
            0 <= i < rows,
    ;
    assert(c * rows + rows <= rows * cols) by (nonlinear_arith)
        requires
            0 <= c < cols,
            0 <= rows,
    ;
}

/// The cells of the column layout of `out`: its lines filled up with empty
/// cells to `layout_rows * layout_cols`.
pub open spec fn layout_cells(out: Seq<char>) -> Seq<Seq<char>> {
    let n = line_count(out) as int;
    fill_cells(split_on_newline(out), layout_rows(n) * layout_cols(n))
}

/// Each column is as wide as its widest cell and three spaces, so a long
/// listing is laid out whenever no cell is more than 88 narrower than the
/// widest cell of all (and the sizes are machine numbers).
pub proof fn layout_defined_when_widths_are_close(out: Seq<char>)
    requires
        line_count(out) > 10,
        layout_rows(line_count(out) as int) * layout_cols(line_count(out) as int) <= usize::MAX,
        longest_visible(layout_cells(out)) + 3 <= usize::MAX,
        forall|i: int|
            0 <= i < layout_cells(out).len() ==> longest_visible(layout_cells(out)) <= visible_len(
                #[trigger] layout_cells(out)[i],
            ) + 88,
    ensures
        listing_layout(out) is Some,
{
    let n = line_count(out) as int;
    let cols = layout_cols(n);
    let rows = layout_rows(n);
    let cells = layout_cells(out);
    assert(cols >= 1);
    assert(rows >= 1) by (nonlinear_arith)
        requires
            rows == n / cols + 1,
            cols >= 1,
            n > 10,
    ;
    assert(cells.len() >= rows * cols);
    longest_is_the_widest(cells);
    assert forall|c: int| 0 <= c < cols implies {
        &&& #[trigger] column_width(cells, rows, c) <= usize::MAX
        &&& forall|i: int| 0 <= i < rows ==> pad_fits(#[trigger] cells[c * rows + i], column_width(cells, rows, c))
    } by {
        lemma_cell_in_range(c, 0, rows, cols);
        let col = column(cells, rows, c);
        longest_is_the_widest(col);
        let m = choose|m: int| 0 <= m < col.len() && visible_len(#[trigger] col[m]) == longest_visible(col);
        assert(col[m] == cells[c * rows + m]);
        assert(longest_visible(col) <= longest_visible(cells));
        assert forall|i: int| 0 <= i < rows implies pad_fits(#[trigger] cells[c * rows + i], column_width(cells, rows, c)) by {
            lemma_cell_in_range(c, i, rows, cols);
            assert(col[i] == cells[c * rows + i]);
            assert(visible_len(col[i]) <= longest_visible(col));
            assert(longest_visible(cells) <= visible_len(cells[c * rows + i]) + 88);
        }
    }
}

/// Lays out a listing of more than ten lines in columns (see
/// `listing_layout`); `None` where that layout is not defined.
#[verifier::loop_isolation(false)]
#[verifier::spinoff_prover]
#[verifier::rlimit(50)]
pub fn column_layout(out: &str) -> (r: Option<Vec<String>>)
    requires
        line_count(out@) > 10,
    ensures
        listing_layout(out@) is None ==> r is None,
        listing_layout(out@) matches Some(lines) ==> r matches Some(v) && views(v@) == lines,
{
    let n = count_lines(out);
    let mut items = split_lines(out);
    let cols: usize = if n / 10 < 5 {
        n / 10
    } else {
        5
    };
    assert(cols >= 1);
    if cols == 1 {
        assert(n < 20);
    } else {
        assert(n / cols < n) by (nonlinear_arith)
            requires
                cols >= 2,
                n > 10,
        ;
    }
    let rows: usize = n / cols + 1;
    let ghost ni = n as int;
    assert(layout_cols(ni) == cols);
    assert(layout_rows(ni) == rows);
    let total: usize = match rows.checked_mul(cols) {
        Some(t) => t,
        None => {
            return None;
        },
    };
    let ghost cells = fill_cells(split_on_newline(out@), total as int);
    while items.len() < total
        invariant
            items@.len() <= total || views(items@) == split_on_newline(out@),
            fill_cells(views(items@), total as int) == cells,
        decreases total - items@.len(),
    {
        let ghost before = views(items@);
        items.push(String::new());
        assert(views(items@) =~= before.push(Seq::<char>::empty()));
        assert(fill_cells(views(items@), total as int) =~= fill_cells(before, total as int));
    }
    assert(views(items@) == cells);
    let mut columns: Vec<Vec<String>> = Vec::new();
    let mut col: usize = 0;
    while col < cols
        invariant
            views(items@) == cells,
            col <= cols,
            columns@.len() == col,
            forall|c: int|
                0 <= c < col ==> {
                    &&& #[trigger] column_width(cells, rows as int, c) <= usize::MAX
                    &&& forall|k: int|
                        0 <= k < rows ==> pad_fits(
                            #[trigger] cells[c * rows + k],
                            column_width(cells, rows as int, c),
                        )
                },
            forall|c: int| 0 <= c < col ==> #[trigger] columns@[c]@.len() == rows,
            forall|c: int, k: int|
                0 <= c < col && 0 <= k < rows ==> #[trigger] columns@[c]@[k]@ == padded(
                    cells[c * rows + k],
                    column_width(cells, rows as int, c),
                ),
        decreases cols - col,
    {
        proof {
            lemma_cell_in_range(col as int, 0, rows as int, cols as int);
        }
        let first = col * rows;
        let cells_of = slice_subrange(items.as_slice(), first, first + rows);
        let ghost this_column = column(cells, rows as int, col as int);
        assert(cells_of@.map_values(|s: String| s@) =~= this_column);
        let pad = find_longest(cells_of);
        if pad > usize::MAX - 3 {
            assert(column_width(cells, rows as int, col as int) > usize::MAX);
            assert(!layout_fits(cells, rows as int, cols as int));
            return None;
        }
        let width = pad + 3;
        assert(width == column_width(cells, rows as int, col as int));
        let mut i: usize = 0;
        while i < rows
            invariant
                i <= rows,
                forall|j: int| 0 <= j < i ==> pad_fits(#[trigger] cells_of@[j]@, width as nat),
            decreases rows - i,
        {
            let w = display_len(cells_of[i].as_str());
            if !(w <= width && width - w <= PAD_LIMIT) {
                proof {
                    lemma_cell_in_range(col as int, i as int, rows as int, cols as int);
                    assert(this_column[i as int] == cells_of@[i as int]@);
                    assert(!pad_fits(cells[col * rows + i], column_width(cells, rows as int, col as int)));
                    assert(!layout_fits(cells, rows as int, cols as int));
                }
                return None;
            }
            i += 1;
        }
        let padded_column = r_pad_array(cells_of, width);
        proof {
            assert forall|k: int| 0 <= k < rows implies cells[col * rows + k] == cells_of@[k]@ by {
                lemma_cell_in_range(col as int, k, rows as int, cols as int);
                assert(this_column[k] == cells_of@[k]@);
            }
        }
        let ghost before = columns@;
        columns.push(padded_column);
        proof {
            assert forall|c: int, k: int| 0 <= c <= col && 0 <= k < rows implies #[trigger] columns@[c]@[k]@ == padded(
                cells[c * rows + k],
                column_width(cells, rows as int, c),
            ) by {
                if c < col {
                    assert(columns@[c] == before[c]);
                }
            }
            assert forall|c: int| 0 <= c <= col implies #[trigger] columns@[c]@.len() == rows by {
                if c < col {
                    assert(columns@[c] == before[c]);
                }
            }
            assert forall|k: int| 0 <= k < rows implies pad_fits(
                #[trigger] cells[col * rows + k],
                column_width(cells, rows as int, col as int),
            ) by {
                assert(pad_fits(cells_of@[k]@, width as nat));
            }
        }
        col += 1;
    }
    assert(layout_fits(cells, rows as int, cols as int));
    let mut lines: Vec<String> = Vec::new();
    let mut i: usize = 0;
    while i < rows
        invariant
            columns@.len() == cols,
            i <= rows,
            lines@.len() == i,
            forall|k: int| 0 <= k < i ==> #[trigger] lines@[k]@ == layout_line(cells, rows as int, cols as int, k),
        decreases rows - i,
    {
        let mut line = String::new();
        let mut c: usize = 0;
        while c < cols
            invariant
                c <= cols,
                line@ == layout_line(cells, rows as int, c as int, i as int),
            decreases cols - c,
        {
            line.append(columns[c][i].as_str());
            c += 1;
        }
        lines.push(line);
        i += 1;
    }
    assert(views(lines@) =~= Seq::new(rows as nat, |k: int| layout_line(cells, rows as int, cols as int, k)));
    Some(lines)
}

/// How `ls` hands on its listing.
#[derive(Debug)]
pub enum ListingOutput {
    /// Into the next command of the pipe, as it is.
    Piped(String),
    /// Printed as it is.
    Plain(String),
    /// Printed line by line, laid out in columns.
    Columns(Vec<String>),
}

/// How `ls` hands on its listing `out`: as it is into the next command of a
/// pipe; printed as it is where it has at most ten lines; else laid out in
/// columns (see `listing_layout`), `None` where that layout is not defined.
pub fn listing_output(out: String, piped: bool) -> (r: Option<ListingOutput>)
    ensures
        piped ==> (r matches Some(ListingOutput::Piped(t)) && t@ == out@),
        !piped && line_count(out@) <= 10 ==> (r matches Some(ListingOutput::Plain(t)) && t@ == out@),
        !piped && line_count(out@) > 10 && listing_layout(out@) is None ==> r is None,
        !piped && line_count(out@) > 10 ==> (listing_layout(out@) matches Some(lines) ==> (r matches Some(
            ListingOutput::Columns(v),
        ) && views(v@) == lines)),
{
    if piped {
        return Some(ListingOutput::Piped(out));
    }
    if count_lines(out.as_str()) <= 10 {
        return Some(ListingOutput::Plain(out));
    }
    match column_layout(out.as_str()) {
        Some(lines) => Some(ListingOutput::Columns(lines)),
        None => None,
    }
}

} // verus!
