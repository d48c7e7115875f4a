//! Mathematical model of the rendered table.
//!
//! A table is modelled as a sequence of rows, each row a sequence of cells,
//! each cell a sequence of characters (Unicode scalar values). The first row
//! is the header; it alone fixes the column count. [`rendered`] gives, for
//! every input, the exact character sequence that rendering produces:
//!
//! - each column is as wide as its longest cell (header included), counted in
//!   code points, plus one space of padding on each side;
//! - the header block is a top border (`┌─┬─┐`) followed by the header line;
//! - every body row is preceded by a middle separator (`├─┼─┤`) and rendered
//!   as its cells joined by `│`, missing cells taken as empty;
//! - a single bottom border (`└─┴─┘`) closes the table;
//! - every line ends in a newline, and an empty input renders as the empty
//!   string.

use vstd::prelude::*;

verus! {

/// `n` copies of the character `c`.
pub open spec fn fill(c: char, n: nat) -> Seq<char>
    decreases n,
{
    if n == 0 {
        Seq::empty()
    } else {
        fill(c, (n - 1) as nat).push(c)
    }
}

/// The text of cell `i` of a row: the cell itself where the row has one,
/// the empty sequence where the row is too short (or `i` is negative).
pub open spec fn cell_text(row: Seq<Seq<char>>, i: int) -> Seq<char> {
    if 0 <= i < row.len() {
        row[i]
    } else {
        Seq::empty()
    }
}

/// A cell as printed: one space on each side, then right-padded with spaces
/// up to `width` (left-aligned; the text is kept whole even if wider).
pub open spec fn padded_cell(cell: Seq<char>, width: nat) -> Seq<char> {
    let framed = seq![' '] + cell + seq![' '];
    if framed.len() < width {
        framed + fill(' ', (width - framed.len()) as nat)
    } else {
        framed
    }
}

/// The widest content of column `col`: the maximum, in code points, of the
/// header cell and of that column's cell in every row (missing cells count
/// as empty).
pub open spec fn column_content_width(header_cell: Seq<char>, rows: Seq<Seq<Seq<char>>>, col: int) -> nat
    decreases rows.len(),
{
    if rows.len() == 0 {
        header_cell.len()
    } else {
        let rest = column_content_width(header_cell, rows.drop_last(), col);
        if cell_text(rows.last(), col).len() > rest {
            cell_text(rows.last(), col).len()
        } else {
            rest
        }
    }
}

/// One width per header column: the widest content plus two, for one space
/// of padding on each side.
pub open spec fn column_widths(header: Seq<Seq<char>>, rows: Seq<Seq<Seq<char>>>) -> Seq<nat> {
    Seq::new(header.len(), |i: int| column_content_width(header[i], rows, i) + 2)
}

/// The inner part of a border line: one run of `─` per column, runs joined
/// by the border's inner-join character.
pub open spec fn separator_cells(widths: Seq<nat>, join: char) -> Seq<char>
    decreases widths.len(),
{
    if widths.len() == 0 {
        Seq::empty()
    } else if widths.len() == 1 {
        fill('─', widths[0])
    } else {
        separator_cells(widths.drop_last(), join) + seq![join] + fill('─', widths.last())
    }
}

/// A full border line: left edge, fill runs joined by `join`, right edge,
/// newline.
pub open spec fn separator_line(widths: Seq<nat>, left: char, join: char, right: char) -> Seq<char> {
    seq![left] + separator_cells(widths, join) + seq![right] + seq!['\n']
}

/// The inner part of a content line: one padded cell per column, joined by
/// `│`. Columns beyond the row's length print as blanks; cells beyond the
/// column count are ignored.
pub open spec fn row_cells(row: Seq<Seq<char>>, widths: Seq<nat>) -> Seq<char>
    decreases widths.len(),
{
    if widths.len() == 0 {
        Seq::empty()
    } else if widths.len() == 1 {
        padded_cell(cell_text(row, 0), widths[0])
    } else {
        row_cells(row, widths.drop_last()) + seq!['│']
            + padded_cell(cell_text(row, widths.len() - 1), widths.last())
    }
}

/// A full content line: `│`, the padded cells joined by `│`, `│`, newline.
pub open spec fn content_line(row: Seq<Seq<char>>, widths: Seq<nat>) -> Seq<char> {
    seq!['│'] + row_cells(row, widths) + seq!['│'] + seq!['\n']
}

/// A row as printed: the border line that precedes it, then its content line.
pub open spec fn row_block(row: Seq<Seq<char>>, widths: Seq<nat>, join: char, left: char, right: char) -> Seq<char> {
    separator_line(widths, left, join, right) + content_line(row, widths)
}

/// All body rows as printed, in input order: each one a middle separator
/// (`├`, `┼`, `┤`) followed by the row's content line.
pub open spec fn body_blocks(rows: Seq<Seq<Seq<char>>>, widths: Seq<nat>) -> Seq<char>
    decreases rows.len(),
{
    if rows.len() == 0 {
        Seq::empty()
    } else {
        body_blocks(rows.drop_last(), widths) + row_block(rows.last(), widths, '┼', '├', '┤')
    }
}

/// The column widths of a non-empty table: computed from its header row and
/// its body rows.
pub open spec fn table_widths(data: Seq<Seq<Seq<char>>>) -> Seq<nat>
    recommends
        data.len() > 0,
{
    column_widths(data[0], data.subrange(1, data.len() as int))
}

/// The entire rendered table: empty for empty input; otherwise the header
/// block (top border and header line), the body blocks, and the bottom
/// border.
pub open spec fn rendered(data: Seq<Seq<Seq<char>>>) -> Seq<char> {
    if data.len() == 0 {
        Seq::empty()
    } else {
        let widths = table_widths(data);
        row_block(data[0], widths, '┬', '┌', '┐')
            + body_blocks(data.subrange(1, data.len() as int), widths)
            + separator_line(widths, '└', '┴', '┘')
    }
}

/// The widths of a table, as mathematical integers, read off a vector of
/// machine integers.
pub open spec fn widths_of(w: Seq<usize>) -> Seq<nat> {
    w.map_values(|x: usize| x as nat)
}

/// Every cell of the row is short enough that its column width (its length
/// plus two) fits in a machine integer.
pub open spec fn row_fits(row: Seq<Seq<char>>) -> bool {
    forall|j: int| 0 <= j < row.len() ==> (#[trigger] row[j]).len() + 2 <= usize::MAX
}

/// Every cell of every row fits as in [`row_fits`].
pub open spec fn all_rows_fit(rows: Seq<Seq<Seq<char>>>) -> bool {
    forall|i: int| 0 <= i < rows.len() ==> row_fits(#[trigger] rows[i])
}

/// Taking one more column extends the inner part of a border line by that
/// column's fill run, preceded by the join character except at the first
/// column.
pub proof fn lemma_separator_cells_take_step(widths: Seq<nat>, join: char, i: int)
    requires
        0 <= i < widths.len(),
    ensures
        separator_cells(widths.take(i + 1), join) == if i == 0 {
            fill('─', widths[0])
        } else {
            (separator_cells(widths.take(i), join) + seq![join] + fill('─', widths[i]))
        },
{
    let t = widths.take(i + 1);
    assert(t.len() == i + 1);
    if i == 0 {
        assert(t[0] == widths[0]);
    } else {
        assert(t.drop_last() =~= widths.take(i));
        assert(t.last() == widths[i]);
    }
}

/// Taking one more row into account leaves a column's content width
/// unchanged unless that row's cell in the column is longer, in which case
/// the cell's length takes over.
pub proof fn lemma_column_content_width_take_step(
    header_cell: Seq<char>,
    rows: Seq<Seq<Seq<char>>>,
    col: int,
    j: int,
)
    requires
        0 <= j < rows.len(),
    ensures
        column_content_width(header_cell, rows.take(j + 1), col) == if cell_text(rows[j], col).len()
            > column_content_width(header_cell, rows.take(j), col) {
            cell_text(rows[j], col).len()
        } else {
            column_content_width(header_cell, rows.take(j), col)
        },
{
    let t = rows.take(j + 1);
    assert(t.len() == j + 1);
    assert(t.drop_last() =~= rows.take(j));
    assert(t.last() == rows[j]);
}

/// Taking one more column extends the inner part of a content line by that
/// column's padded cell, preceded by `│` except at the first column.
pub proof fn lemma_row_cells_take_step(row: Seq<Seq<char>>, widths: Seq<nat>, i: int)
    requires
        0 <= i < widths.len(),
    ensures
        row_cells(row, widths.take(i + 1)) == if i == 0 {
            padded_cell(cell_text(row, 0), widths[0])
        } else {
            (row_cells(row, widths.take(i)) + seq!['│'] + padded_cell(cell_text(row, i), widths[i]))
        },
{
    let t = widths.take(i + 1);
    assert(t.len() == i + 1);
    if i == 0 {
        assert(t[0] == widths[0]);
    } else {
        assert(t.drop_last() =~= widths.take(i));
        assert(t.last() == widths[i]);
    }
}

/// Body rows print in input order: taking one more row into account appends
/// exactly that row's block — its own middle separator followed by its own
/// content line — after the blocks of all the rows before it.
pub proof fn lemma_body_blocks_take_step(rows: Seq<Seq<Seq<char>>>, widths: Seq<nat>, j: int)
    requires
        0 <= j < rows.len(),
    ensures
        body_blocks(rows.take(j + 1), widths) == body_blocks(rows.take(j), widths) + row_block(
            rows[j],
            widths,
            '┼',
            '├',
            '┤',
        ),
{
    let t = rows.take(j + 1);
    assert(t.drop_last() =~= rows.take(j));
    assert(t.last() == rows[j]);
}

/// Two fill runs of the same character concatenate to one longer run.
pub proof fn lemma_fill_concat(c: char, a: nat, b: nat)
    ensures
        fill(c, a) + fill(c, b) == fill(c, a + b),
    decreases b,
{
    if b == 0 {
        assert(fill(c, a) + fill(c, 0) =~= fill(c, a));
    } else {
        lemma_fill_concat(c, a, (b - 1) as nat);
        assert(fill(c, a) + fill(c, b) =~= (fill(c, a) + fill(c, (b - 1) as nat)).push(c));
    }
}

/// Every column is at least two characters wide: the padding spaces alone
/// fill a column whose cells are all empty.
pub proof fn lemma_column_width_at_least_two(
    header: Seq<Seq<char>>,
    rows: Seq<Seq<Seq<char>>>,
    i: int,
)
    requires
        0 <= i < header.len(),
    ensures
        column_widths(header, rows)[i] >= 2,
{
}

/// A missing cell prints as a blank field of the full column width: padding
/// the empty cell gives exactly `width` spaces (every column width is at
/// least two, by [`lemma_column_width_at_least_two`]).
pub proof fn lemma_missing_cell_blank(width: nat)
    requires
        width >= 2,
    ensures
        padded_cell(Seq::empty(), width) == fill(' ', width),
{
    let framed = seq![' '] + Seq::<char>::empty() + seq![' '];
    assert(fill(' ', 0) =~= Seq::<char>::empty());
    assert(fill(' ', 1) =~= seq![' ']);
    assert(fill(' ', 2) =~= seq![' ', ' ']);
    assert(framed =~= fill(' ', 2));
    if width > 2 {
        lemma_fill_concat(' ', 2, (width - 2) as nat);
        assert(padded_cell(Seq::empty(), width) =~= fill(' ', 2) + fill(' ', (width - 2) as nat));
    } else {
        assert(padded_cell(Seq::empty(), width) =~= framed);
    }
}

/// A column's content width sees a row only through [`cell_text`].
proof fn lemma_column_content_width_agrees(
    header_cell: Seq<char>,
    rows1: Seq<Seq<Seq<char>>>,
    rows2: Seq<Seq<Seq<char>>>,
    col: int,
)
    requires
        rows1.len() == rows2.len(),
        forall|k: int|
            0 <= k < rows1.len() ==> cell_text(#[trigger] rows1[k], col) == cell_text(
                rows2[k],
                col,
            ),
    ensures
        column_content_width(header_cell, rows1, col) == column_content_width(
            header_cell,
            rows2,
            col,
        ),
    decreases rows1.len(),
{
    if rows1.len() > 0 {
        assert forall|k: int| 0 <= k < rows1.drop_last().len() implies cell_text(
            #[trigger] rows1.drop_last()[k],
            col,
        ) == cell_text(rows2.drop_last()[k], col) by {
            assert(rows1.drop_last()[k] == rows1[k]);
            assert(rows2.drop_last()[k] == rows2[k]);
        }
        lemma_column_content_width_agrees(header_cell, rows1.drop_last(), rows2.drop_last(), col);
        assert(rows1.last() == rows1[rows1.len() - 1]);
        assert(rows2.last() == rows2[rows2.len() - 1]);
    }
}

/// A content line sees a row only through [`cell_text`] at the column
/// indices.
proof fn lemma_row_cells_agrees(row1: Seq<Seq<char>>, row2: Seq<Seq<char>>, widths: Seq<nat>)
    requires
        forall|c: int| 0 <= c < widths.len() ==> #[trigger] cell_text(row1, c) == cell_text(
            row2,
            c,
        ),
    ensures
        row_cells(row1, widths) == row_cells(row2, widths),
    decreases widths.len(),
{
    if widths.len() > 1 {
        lemma_row_cells_agrees(row1, row2, widths.drop_last());
        assert(cell_text(row1, widths.len() - 1) == cell_text(row2, widths.len() - 1));
    } else if widths.len() == 1 {
        assert(cell_text(row1, 0) == cell_text(row2, 0));
    }
}

/// The body blocks see each row only through [`cell_text`] at the column
/// indices.
proof fn lemma_body_blocks_agrees(
    rows1: Seq<Seq<Seq<char>>>,
    rows2: Seq<Seq<Seq<char>>>,
    widths: Seq<nat>,
)
    requires
        rows1.len() == rows2.len(),
        forall|k: int, c: int|
            0 <= k < rows1.len() && 0 <= c < widths.len() ==> (#[trigger] cell_text(
                rows1[k],
                c,
            )) == cell_text(rows2[k], c),
    ensures
        body_blocks(rows1, widths) == body_blocks(rows2, widths),
    decreases rows1.len(),
{
    if rows1.len() > 0 {
        assert forall|k: int, c: int|
            0 <= k < rows1.drop_last().len() && 0 <= c < widths.len() implies (#[trigger] cell_text(
            rows1.drop_last()[k],
            c,
        )) == cell_text(rows2.drop_last()[k], c) by {
            assert(rows1.drop_last()[k] == rows1[k]);
            assert(rows2.drop_last()[k] == rows2[k]);
            assert(cell_text(rows1[k], c) == cell_text(rows2[k], c));
        }
        lemma_body_blocks_agrees(rows1.drop_last(), rows2.drop_last(), widths);
        assert forall|c: int| 0 <= c < widths.len() implies #[trigger] cell_text(
            rows1.last(),
            c,
        ) == cell_text(rows2.last(), c) by {
            assert(rows1.last() == rows1[rows1.len() - 1]);
            assert(rows2.last() == rows2[rows2.len() - 1]);
            assert(cell_text(rows1[rows1.len() - 1], c) == cell_text(rows2[rows2.len() - 1], c));
        }
        lemma_row_cells_agrees(rows1.last(), rows2.last(), widths);
    }
}

/// The rendered table sees a body row only through [`cell_text`] at the
/// header's column indices: two inputs with the same header, the same row
/// count, and the same cell text in every header column render identically.
/// In particular a missing cell is indistinguishable from an empty one, and
/// cells beyond the header's column count never show.
pub proof fn lemma_rendered_depends_only_on_columns(
    data1: Seq<Seq<Seq<char>>>,
    data2: Seq<Seq<Seq<char>>>,
)
    requires
        data1.len() == data2.len(),
        data1.len() > 0,
        data1[0] == data2[0],
        forall|k: int, c: int|
            1 <= k < data1.len() && 0 <= c < data1[0].len() ==> (#[trigger] cell_text(
                data1[k],
                c,
            )) == cell_text(data2[k], c),
    ensures
        rendered(data1) == rendered(data2),
{
    let h = data1[0];
    let rows1 = data1.subrange(1, data1.len() as int);
    let rows2 = data2.subrange(1, data2.len() as int);
    assert forall|c: int| 0 <= c < h.len() implies column_content_width(h[c], rows1, c)
        == column_content_width(h[c], rows2, c) by {
        assert forall|k: int| 0 <= k < rows1.len() implies cell_text(#[trigger] rows1[k], c)
            == cell_text(rows2[k], c) by {
            assert(rows1[k] == data1[k + 1]);
            assert(rows2[k] == data2[k + 1]);
            assert(cell_text(data1[k + 1], c) == cell_text(data2[k + 1], c));
        }
        lemma_column_content_width_agrees(h[c], rows1, rows2, c);
    }
    assert(table_widths(data1) =~= table_widths(data2));
    let w = table_widths(data1);
    assert forall|k: int, c: int|
        0 <= k < rows1.len() && 0 <= c < w.len() implies (#[trigger] cell_text(rows1[k], c))
        == cell_text(rows2[k], c) by {
        assert(rows1[k] == data1[k + 1]);
        assert(rows2[k] == data2[k + 1]);
        assert(cell_text(data1[k + 1], c) == cell_text(data2[k + 1], c));
    }
    lemma_body_blocks_agrees(rows1, rows2, w);
}

/// Cells beyond the header's column count are ignored: appending one more
/// cell to a body row that already has at least as many cells as the header
/// leaves the rendered table unchanged.
pub proof fn lemma_extra_cells_ignored(data: Seq<Seq<Seq<char>>>, i: int, extra: Seq<char>)
    requires
        1 <= i < data.len(),
        data[0].len() <= data[i].len(),
    ensures
        rendered(data.update(i, data[i].push(extra))) == rendered(data),
{
    let data2 = data.update(i, data[i].push(extra));
    assert forall|k: int, c: int|
        1 <= k < data2.len() && 0 <= c < data2[0].len() implies (#[trigger] cell_text(
        data2[k],
        c,
    )) == cell_text(data[k], c) by {
        if k == i {
            assert(data2[k] == data[i].push(extra));
            assert(data[i].push(extra)[c] == data[i][c]);
        } else {
            assert(data2[k] == data[k]);
        }
    }
    lemma_rendered_depends_only_on_columns(data2, data);
}

/// A missing cell behaves exactly like an empty one: appending an empty cell
/// to any body row leaves the rendered table unchanged.
pub proof fn lemma_missing_cell_is_empty_cell(data: Seq<Seq<Seq<char>>>, i: int)
    requires
        1 <= i < data.len(),
    ensures
        rendered(data.update(i, data[i].push(Seq::empty()))) == rendered(data),
{
    let data2 = data.update(i, data[i].push(Seq::<char>::empty()));
    assert forall|k: int, c: int|
        1 <= k < data2.len() && 0 <= c < data2[0].len() implies (#[trigger] cell_text(
        data2[k],
        c,
    )) == cell_text(data[k], c) by {
        if k == i {
            assert(data2[k] == data[i].push(Seq::<char>::empty()));
            if c < data[i].len() {
                assert(data[i].push(Seq::<char>::empty())[c] == data[i][c]);
            } else if c == data[i].len() {
                assert(data[i].push(Seq::<char>::empty())[c] =~= Seq::<char>::empty());
            }
        } else {
            assert(data2[k] == data[k]);
        }
    }
    lemma_rendered_depends_only_on_columns(data2, data);
}

/// Appending a body row that widens no column appends exactly one block —
/// the row's own middle separator and content line — after the blocks of all
/// the rows already there, still followed by the single bottom border.
pub proof fn lemma_added_row_gets_own_block(data: Seq<Seq<Seq<char>>>, r: Seq<Seq<char>>)
    requires
        data.len() > 0,
        forall|c: int|
            0 <= c < data[0].len() ==> (#[trigger] cell_text(r, c)).len() <= column_content_width(
                data[0][c],
                data.subrange(1, data.len() as int),
                c,
            ),
    ensures
        table_widths(data.push(r)) == table_widths(data),
        rendered(data.push(r)) == row_block(data[0], table_widths(data), '┬', '┌', '┐')
            + body_blocks(data.subrange(1, data.len() as int), table_widths(data)) + row_block(
            r,
            table_widths(data),
            '┼',
            '├',
            '┤',
        ) + separator_line(table_widths(data), '└', '┴', '┘'),
{
    let d2 = data.push(r);
    let rows = data.subrange(1, data.len() as int);
    let rows2 = d2.subrange(1, d2.len() as int);
    assert(rows2 =~= rows.push(r));
    assert(d2[0] == data[0]);
    assert forall|c: int| 0 <= c < data[0].len() implies column_content_width(
        data[0][c],
        rows.push(r),
        c,
    ) == column_content_width(data[0][c], rows, c) by {
        assert(rows.push(r).drop_last() =~= rows);
        assert(rows.push(r).last() == r);
    }
    assert(table_widths(d2) =~= table_widths(data));
    let w = table_widths(data);
    assert(rows.push(r).drop_last() =~= rows);
    assert(rows.push(r).last() == r);
    assert(body_blocks(rows.push(r), w) == body_blocks(rows, w) + row_block(r, w, '┼', '├', '┤'));
    assert(rendered(d2) =~= row_block(data[0], w, '┬', '┌', '┐') + body_blocks(rows, w)
        + row_block(r, w, '┼', '├', '┤') + separator_line(w, '└', '┴', '┘'));
}

/// Rendering is deterministic: the contract of `TableRenderer::render` pins
/// its result to [`rendered`] of the input alone, so any two results for the
/// same input are byte-identical.
pub proof fn lemma_render_deterministic(data: Seq<Seq<Seq<char>>>, r1: Seq<char>, r2: Seq<char>)
    requires
        r1 == rendered(data),
        r2 == rendered(data),
    ensures
        r1 == r2,
{
}

} // verus!
