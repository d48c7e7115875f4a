//! The renderer: executable code whose output is proved equal, character by
//! character, to the model in [`crate::model`].

use vstd::prelude::*;
use vstd::string::StrSliceExecFns;
use vstd::string::StringExecFns;

use crate::model::all_rows_fit;
use crate::model::body_blocks;
use crate::model::cell_text;
use crate::model::column_content_width;
use crate::model::column_widths;
use crate::model::fill;
use crate::model::lemma_body_blocks_take_step;
use crate::model::lemma_column_content_width_take_step;
use crate::model::lemma_row_cells_take_step;
use crate::model::lemma_separator_cells_take_step;
use crate::model::padded_cell;
use crate::model::rendered;
use crate::model::row_block;
use crate::model::row_cells;
use crate::model::row_fits;
use crate::model::separator_cells;
use crate::model::separator_line;
use crate::model::table_widths;
use crate::model::widths_of;

verus! {

/// Relies on `String::push`: appends the given character to the end of the
/// string.
#[verifier::external_body]
fn push_char(s: &mut String, c: char)
    ensures
        final(s)@ == old(s)@.push(c),
{
    s.push(c);
}

/// Renders tabular string data as a fixed-width box-drawing table. The first
/// row of the input is the header; the rest are body rows.
pub struct TableRenderer;

impl TableRenderer {
    /// One border line: `corner_left`, one run of `─` per column width joined
    /// by `join_inner`, `corner_right`, newline.
    fn render_separator(
        column_widths_v: &[usize],
        join_inner: char,
        corner_left: char,
        corner_right: char,
    ) -> (r: String)
        ensures
            r@ == separator_line(widths_of(column_widths_v@), corner_left, join_inner, corner_right),
    {
        let ghost w: Seq<nat> = widths_of(column_widths_v@);
        let mut line = String::new();
        push_char(&mut line, corner_left);
        assert(line@ =~= seq![corner_left] + separator_cells(w.take(0), join_inner));
        let n = column_widths_v.len();
        let mut i: usize = 0;
        while i < n
            invariant
                n == column_widths_v@.len(),
                w == widths_of(column_widths_v@),
                i <= n,
                line@ == seq![corner_left] + separator_cells(w.take(i as int), join_inner),
            decreases n - i,
        {
            if i > 0 {
                push_char(&mut line, join_inner);
            }
            let ghost mid = line@;
            let width = column_widths_v[i];
            assert(w[i as int] == width as nat);
            let mut k: usize = 0;
            assert(mid + fill('─', 0) =~= mid);
            while k < width
                invariant
                    k <= width,
                    line@ == mid + fill('─', k as nat),
                decreases width - k,
            {
                push_char(&mut line, '─');
                assert(fill('─', (k + 1) as nat) == fill('─', k as nat).push('─'));
                assert(line@ =~= mid + fill('─', (k + 1) as nat));
                k = k + 1;
            }
            proof {
                lemma_separator_cells_take_step(w, join_inner, i as int);
                assert(line@ =~= seq![corner_left] + separator_cells(w.take(i + 1), join_inner));
            }
            i = i + 1;
        }
        proof {
            assert(w.take(n as int) =~= w);
        }
        push_char(&mut line, corner_right);
        push_char(&mut line, '\n');
        assert(line@ =~= separator_line(w, corner_left, join_inner, corner_right));
        line
    }

    /// One width per header column: the longest cell of the column, counted
    /// in code points over the header and every body row, plus two for
    /// padding.
    fn calculate_column_widths(headers: &[String], rows: &[Vec<String>]) -> (w: Vec<usize>)
        requires
            row_fits(headers.deep_view()),
            all_rows_fit(rows.deep_view()),
        ensures
            widths_of(w@) == column_widths(headers.deep_view(), rows.deep_view()),
    {
        let ghost hdv: Seq<Seq<char>> = headers.deep_view();
        let ghost rdv: Seq<Seq<Seq<char>>> = rows.deep_view();
        let mut widths: Vec<usize> = Vec::new();
        let n = headers.len();
        let mut i: usize = 0;
        while i < n
            invariant
                n == hdv.len(),
                hdv == headers.deep_view(),
                rdv == rows.deep_view(),
                row_fits(hdv),
                all_rows_fit(rdv),
                i <= n,
                widths@.len() == i,
                forall|c: int|
                    0 <= c < i ==> widths@[c] as nat == column_content_width(hdv[c], rdv, c) + 2,
            decreases n - i,
        {
            let mut max_width = headers[i].as_str().unicode_len();
            assert(max_width as nat == hdv[i as int].len());
            assert(rdv.take(0) =~= Seq::<Seq<Seq<char>>>::empty());
            let m = rows.len();
            let mut j: usize = 0;
            while j < m
                invariant
                    m == rdv.len(),
                    rdv == rows.deep_view(),
                    all_rows_fit(rdv),
                    i < hdv.len(),
                    hdv == headers.deep_view(),
                    j <= m,
                    max_width as nat == column_content_width(hdv[i as int], rdv.take(j as int), i as int),
                    max_width as nat == hdv[i as int].len() || (exists|k: int|
                        0 <= k < j && max_width as nat == cell_text(#[trigger] rdv[k], i as int).len()),
                decreases m - j,
            {
                let row = &rows[j];
                if i < row.len() {
                    let cl = row[i].as_str().unicode_len();
                    assert(cl as nat == cell_text(rdv[j as int], i as int).len());
                    if cl > max_width {
                        max_width = cl;
                    }
                }
                proof {
                    lemma_column_content_width_take_step(hdv[i as int], rdv, i as int, j as int);
                    if i >= rdv[j as int].len() {
                        assert(cell_text(rdv[j as int], i as int).len() == 0);
                    }
                }
                j = j + 1;
            }
            proof {
                assert(rdv.take(m as int) =~= rdv);
                assert(max_width + 2 <= usize::MAX);
            }
            widths.push(max_width + 2);
            i = i + 1;
        }
        proof {
            assert(widths_of(widths@) =~= column_widths(hdv, rdv));
        }
        widths
    }

    /// One printed row: the border line that precedes it, then the row's
    /// cells, each framed in spaces and padded to its column's width, joined
    /// and edged by `│`, then a newline. Missing cells print as blanks;
    /// cells beyond the column count are ignored.
    fn render_row(
        row: &[String],
        column_widths_v: &[usize],
        join_inner: char,
        corner_left: char,
        corner_right: char,
    ) -> (r: String)
        ensures
            r@ == row_block(
                row.deep_view(),
                widths_of(column_widths_v@),
                join_inner,
                corner_left,
                corner_right,
            ),
    {
        let ghost rv: Seq<Seq<char>> = row.deep_view();
        let ghost w: Seq<nat> = widths_of(column_widths_v@);
        let ghost sep: Seq<char> = separator_line(w, corner_left, join_inner, corner_right);
        let mut line = Self::render_separator(column_widths_v, join_inner, corner_left, corner_right);
        push_char(&mut line, '│');
        assert(line@ =~= sep + seq!['│'] + row_cells(rv, w.take(0)));
        let n = column_widths_v.len();
        let mut i: usize = 0;
        while i < n
            invariant
                n == column_widths_v@.len(),
                w == widths_of(column_widths_v@),
                rv == row.deep_view(),
                sep == separator_line(w, corner_left, join_inner, corner_right),
                i <= n,
                line@ == sep + seq!['│'] + row_cells(rv, w.take(i as int)),
            decreases n - i,
        {
            if i > 0 {
                push_char(&mut line, '│');
            }
            let ghost mid = line@;
            let width = column_widths_v[i];
            assert(w[i as int] == width as nat);
            let cell_len: usize;
            if i < row.len() {
                let cell = &row[i];
                cell_len = cell.as_str().unicode_len();
                push_char(&mut line, ' ');
                line.append(cell.as_str());
                push_char(&mut line, ' ');
                assert(cell_len as nat == cell_text(rv, i as int).len());
            } else {
                cell_len = 0;
                push_char(&mut line, ' ');
                push_char(&mut line, ' ');
                assert(cell_text(rv, i as int) =~= Seq::<char>::empty());
            }
            let ghost framed = seq![' '] + cell_text(rv, i as int) + seq![' '];
            assert(line@ =~= mid + framed);
            let ghost before_pad = line@;
            let needed: usize = if width >= 2 && width - 2 > cell_len {
                width - 2 - cell_len
            } else {
                0
            };
            assert(before_pad + fill(' ', 0) =~= before_pad);
            let mut k: usize = 0;
            while k < needed
                invariant
                    k <= needed,
                    line@ == before_pad + fill(' ', k as nat),
                decreases needed - k,
            {
                push_char(&mut line, ' ');
                assert(line@ =~= before_pad + fill(' ', (k + 1) as nat));
                k = k + 1;
            }
            proof {
                assert(framed.len() == cell_len + 2);
                if framed.len() < w[i as int] {
                    assert(needed as nat == w[i as int] - framed.len());
                } else {
                    assert(needed == 0);
                }
                assert(line@ =~= mid + padded_cell(cell_text(rv, i as int), w[i as int]));
                lemma_row_cells_take_step(rv, w, i as int);
                assert(line@ =~= sep + seq!['│'] + row_cells(rv, w.take(i + 1)));
            }
            i = i + 1;
        }
        proof {
            assert(w.take(n as int) =~= w);
        }
        push_char(&mut line, '│');
        push_char(&mut line, '\n');
        assert(line@ =~= row_block(rv, w, join_inner, corner_left, corner_right));
        line
    }

    /// Renders the given data as a string representing a table.
    ///
    /// The first row of `data` is treated as the header; it fixes the column
    /// count and contributes to the column widths. Every later row prints
    /// under its own middle separator, in input order, and a single bottom
    /// border closes the table. An empty input renders as the empty string.
    ///
    /// The precondition asks only that each cell be short enough for its
    /// column width — the cell's code-point count plus two — to fit in a
    /// machine integer; no real input comes near it.
    pub fn render(data: &[Vec<String>]) -> (r: String)
        requires
            all_rows_fit(data.deep_view()),
        ensures
            r@ == rendered(data.deep_view()),
    {
        let ghost dv: Seq<Seq<Seq<char>>> = data.deep_view();
        if data.is_empty() {
            let r = String::new();
            assert(r@ =~= rendered(dv));
            return r;
        }

        let headers: &[String] = data[0].as_slice();
        let rows: &[Vec<String>] = &data[1..data.len()];
        let ghost hdv: Seq<Seq<char>> = headers.deep_view();
        let ghost rdv: Seq<Seq<Seq<char>>> = rows.deep_view();
        proof {
            assert(hdv =~= dv[0]);
            assert(rdv =~= dv.subrange(1, dv.len() as int));
            assert forall|k: int| 0 <= k < rdv.len() implies row_fits(#[trigger] rdv[k]) by {
                assert(rdv[k] == dv[k + 1]);
            }
        }

        let widths = Self::calculate_column_widths(headers, rows);
        let ghost w: Seq<nat> = widths_of(widths@);
        proof {
            assert(w == table_widths(dv));
        }

        let mut out = Self::render_row(headers, widths.as_slice(), '┬', '┌', '┐');
        assert(rdv.take(0) =~= Seq::<Seq<Seq<char>>>::empty());
        assert(out@ =~= row_block(dv[0], w, '┬', '┌', '┐') + body_blocks(rdv.take(0), w));

        let m = rows.len();
        let mut j: usize = 0;
        while j < m
            invariant
                m == rdv.len(),
                rdv == rows.deep_view(),
                w == widths_of(widths@),
                dv == data.deep_view(),
                hdv == headers.deep_view(),
                hdv == dv[0],
                dv.len() > 0,
                j <= m,
                out@ == row_block(dv[0], w, '┬', '┌', '┐') + body_blocks(rdv.take(j as int), w),
            decreases m - j,
        {
            let row_j: &[String] = rows[j].as_slice();
            let block = Self::render_row(row_j, widths.as_slice(), '┼', '├', '┤');
            proof {
                assert(row_j.deep_view() =~= rdv[j as int]);
            }
            out.append(block.as_str());
            proof {
                lemma_body_blocks_take_step(rdv, w, j as int);
                assert(out@ =~= row_block(dv[0], w, '┬', '┌', '┐') + body_blocks(
                    rdv.take(j + 1),
                    w,
                ));
            }
            j = j + 1;
        }
        proof {
            assert(rdv.take(m as int) =~= rdv);
        }

        let footer = Self::render_separator(widths.as_slice(), '┴', '└', '┘');
        out.append(footer.as_str());
        assert(out@ =~= rendered(dv));
        out
    }
}

} // verus!
