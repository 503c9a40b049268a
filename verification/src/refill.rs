//! Filling a worksheet with the same rows once more.

use crate::edit::{between, between_joins, edited, parts_make_the_whole};

use crate::layout::{
    cell_of, is_row, larger, last_row, old_cells, old_rows, row_attributes, row_number, row_width,
    style_at, widest, CellView, RowView,
};
use crate::sheet::{
    cell_text, cells_text, data_text, dimension_text, filling_keeps_the_rest, final_row, longest,
    or_one, parts_apart, patched, row_length, row_text, rows_text, sheet_changes, style_text,
    value_at, SheetErrorView,
};
use crate::value::{is_blank, ValueView};
use crate::xml::{first_tagged, placed, xml_nodes, NodeView};
use vstd::prelude::*;

verus! {

/// How far row `r` reaches: to its last cell with a style or to the last of its new values.
pub open spec fn reach(cells: Seq<CellView>, rows: Seq<Seq<ValueView>>, r: int) -> int {
    larger(row_width(cells, r), row_length(rows, r))
}

/// The attributes with which row `r` is written, if it is.
pub open spec fn written_row(
    old: Seq<RowView>,
    cells: Seq<CellView>,
    rows: Seq<Seq<ValueView>>,
    r: int,
) -> Option<Seq<char>> {
    if 1 <= r <= final_row(old, rows) {
        match row_attributes(old, r) {
            Some(s) => Some(s),
            None => if reach(cells, rows, r) == 0 {
                None
            } else {
                Some(Seq::empty())
            },
        }
    } else {
        None
    }
}

/// The style with which the cell in row `r` and column `c` is written, if it is written with one.
pub open spec fn written_style(
    old: Seq<RowView>,
    cells: Seq<CellView>,
    rows: Seq<Seq<ValueView>>,
    r: int,
    c: int,
) -> Option<Seq<char>> {
    if 1 <= r <= final_row(old, rows) && 1 <= c <= reach(cells, rows, r) && !(is_blank(
        value_at(rows, r, c),
    ) && style_at(cells, r, c) is None) {
        match style_at(cells, r, c) {
            Some(s) => Some(s),
            None => style_at(cells, 2, c),
        }
    } else {
        None
    }
}

/// Whether rows are numbered from one on, and so are the columns of cells, which lie in these rows.
pub open spec fn numbered(old: Seq<RowView>, cells: Seq<CellView>) -> bool {
    &&& forall|i: int| 0 <= i < old.len() ==> (#[trigger] old[i]).0 >= 1
    &&& forall|i: int|
        0 <= i < cells.len() ==> (#[trigger] cells[i]).1 >= 1 && row_attributes(
            old,
            cells[i].0,
        ) is Some
}

/// Whether the rows and the cells with a style are those that are written when `rows` are put where
/// `old` and `cells` were.
pub open spec fn as_written(
    old: Seq<RowView>,
    cells: Seq<CellView>,
    rows: Seq<Seq<ValueView>>,
    old_again: Seq<RowView>,
    cells_again: Seq<CellView>,
) -> bool {
    &&& forall|r: int| #[trigger]
        row_attributes(old_again, r) == written_row(old, cells, rows, r)
    &&& forall|r: int, c: int| #[trigger]
        style_at(cells_again, r, c) == written_style(old, cells, rows, r, c)
}

proof fn last_rows_are_last(rows: Seq<RowView>, r: int)
    ensures
        row_attributes(rows, r) is Some ==> r <= last_row(rows),
        last_row(rows) >= 0,
        last_row(rows) > 0 ==> row_attributes(rows, last_row(rows)) is Some,
    decreases rows.len(),
{
    if rows.len() > 0 {
        last_rows_are_last(rows.drop_last(), r);
    }
}

proof fn rows_are_numbered(rows: Seq<RowView>, r: int)
    requires
        forall|i: int| 0 <= i < rows.len() ==> (#[trigger] rows[i]).0 >= 1,
        row_attributes(rows, r) is Some,
    ensures
        r >= 1,
    decreases rows.len(),
{
    if rows.last().0 == r {
        assert(rows[rows.len() - 1].0 >= 1);
    } else {
        let rest = rows.drop_last();
        assert forall|i: int| 0 <= i < rest.len() implies (#[trigger] rest[i]).0 >= 1 by {
            assert(rest[i] == rows[i]);
        }
        rows_are_numbered(rest, r);
    }
}

proof fn row_widths_are_widest(cells: Seq<CellView>, r: int, c: int)
    ensures
        style_at(cells, r, c) is Some ==> c <= row_width(cells, r),
        row_width(cells, r) >= 0,
        row_width(cells, r) > 0 ==> style_at(cells, r, row_width(cells, r)) is Some,
    decreases cells.len(),
{
    if cells.len() > 0 {
        row_widths_are_widest(cells.drop_last(), r, c);
    }
}

proof fn widest_is_widest(cells: Seq<CellView>, r: int, c: int)
    ensures
        style_at(cells, r, c) is Some ==> (widest(cells) matches Some(w) && c <= w),
    decreases cells.len(),
{
    if cells.len() > 0 {
        widest_is_widest(cells.drop_last(), r, c);
    }
}

/// The row of a cell in the widest column.
proof fn widest_is_there(cells: Seq<CellView>) -> (r: int)
    ensures
        widest(cells) matches Some(w) ==> style_at(cells, r, w) is Some,
    decreases cells.len(),
{
    if cells.len() == 0 {
        0
    } else {
        let rest = widest_is_there(cells.drop_last());
        if widest(cells.drop_last()) is Some && cells.last().1 <= widest(
            cells.drop_last(),
        )->Some_0 {
            rest
        } else {
            cells.last().0
        }
    }
}

proof fn cells_are_numbered(old: Seq<RowView>, cells: Seq<CellView>, r: int, c: int)
    requires
        numbered(old, cells),
        style_at(cells, r, c) is Some,
    ensures
        c >= 1,
        r >= 1,
        row_attributes(old, r) is Some,
    decreases cells.len(),
{
    if cells.last().0 == r && cells.last().1 == c {
        assert(cells[cells.len() - 1].1 >= 1);
        rows_are_numbered(old, r);
    } else {
        let rest = cells.drop_last();
        assert forall|i: int| 0 <= i < rest.len() implies (#[trigger] rest[i]).1 >= 1
            && row_attributes(old, rest[i].0) is Some by {
            assert(rest[i] == cells[i]);
        }
        cells_are_numbered(old, rest, r, c);
    }
}

proof fn long_rows_are_longest(rows: Seq<Seq<ValueView>>, r: int)
    requires
        1 <= r <= rows.len(),
    ensures
        longest(rows) matches Some(w) && row_length(rows, r) <= w,
    decreases rows.len(),
{
    if r < rows.len() {
        long_rows_are_longest(rows.drop_last(), r);
    }
}

proof fn last_rows_stay(
    old: Seq<RowView>,
    cells: Seq<CellView>,
    rows: Seq<Seq<ValueView>>,
    old_again: Seq<RowView>,
    cells_again: Seq<CellView>,
)
    requires
        as_written(old, cells, rows, old_again, cells_again),
    ensures
        final_row(old_again, rows) == final_row(old, rows),
{
    let f = final_row(old, rows);
    last_rows_are_last(old, f);
    last_rows_are_last(old_again, f);
    let last = last_row(old_again);
    assert(row_attributes(old_again, last) == written_row(old, cells, rows, last));
    assert(row_attributes(old_again, f) == written_row(old, cells, rows, f));
}

proof fn reaches_stay(
    old: Seq<RowView>,
    cells: Seq<CellView>,
    rows: Seq<Seq<ValueView>>,
    old_again: Seq<RowView>,
    cells_again: Seq<CellView>,
    r: int,
)
    requires
        as_written(old, cells, rows, old_again, cells_again),
        1 <= r <= final_row(old, rows),
    ensures
        reach(cells_again, rows, r) == reach(cells, rows, r),
{
    let w = row_width(cells, r);
    let w_again = row_width(cells_again, r);
    row_widths_are_widest(cells, r, w);
    row_widths_are_widest(cells_again, r, w);
    assert(style_at(cells_again, r, w) == written_style(old, cells, rows, r, w));
    assert(style_at(cells_again, r, w_again) == written_style(old, cells, rows, r, w_again));
}

proof fn cells_stay(
    old: Seq<RowView>,
    cells: Seq<CellView>,
    rows: Seq<Seq<ValueView>>,
    old_again: Seq<RowView>,
    cells_again: Seq<CellView>,
    r: int,
    n: nat,
)
    requires
        as_written(old, cells, rows, old_again, cells_again),
        1 <= r <= final_row(old, rows),
        n <= reach(cells, rows, r),
    ensures
        cells_text(cells_again, rows, r, n) == cells_text(cells, rows, r, n),
    decreases n,
{
    if n > 0 {
        cells_stay(old, cells, rows, old_again, cells_again, r, (n - 1) as nat);
        let c = n as int;
        assert(style_at(cells_again, r, c) == written_style(old, cells, rows, r, c));
        assert(style_at(cells_again, 2, c) == written_style(old, cells, rows, 2, c));
        if !(is_blank(value_at(rows, r, c)) && style_at(cells, r, c) is None) {
            assert(style_text(cells_again, r, c) == style_text(cells, r, c));
        }
        assert(cell_text(cells_again, rows, r, c) == cell_text(cells, rows, r, c));
    }
}

proof fn rows_stay(
    old: Seq<RowView>,
    cells: Seq<CellView>,
    rows: Seq<Seq<ValueView>>,
    old_again: Seq<RowView>,
    cells_again: Seq<CellView>,
    n: nat,
)
    requires
        as_written(old, cells, rows, old_again, cells_again),
        n <= final_row(old, rows),
    ensures
        rows_text(old_again, cells_again, rows, n) == rows_text(old, cells, rows, n),
    decreases n,
{
    if n > 0 {
        rows_stay(old, cells, rows, old_again, cells_again, (n - 1) as nat);
        let r = n as int;
        reaches_stay(old, cells, rows, old_again, cells_again, r);
        row_widths_are_widest(cells, r, 0);
        cells_stay(old, cells, rows, old_again, cells_again, r, reach(cells, rows, r) as nat);
        assert(row_attributes(old_again, r) == written_row(old, cells, rows, r));
        assert(row_text(old_again, cells_again, rows, r) == row_text(old, cells, rows, r));
    }
}

proof fn widths_stay(
    old: Seq<RowView>,
    cells: Seq<CellView>,
    rows: Seq<Seq<ValueView>>,
    old_again: Seq<RowView>,
    cells_again: Seq<CellView>,
)
    requires
        as_written(old, cells, rows, old_again, cells_again),
        numbered(old, cells),
    ensures
        larger(or_one(longest(rows)), or_one(widest(cells_again))) == larger(
            or_one(longest(rows)),
            or_one(widest(cells)),
        ),
{
    let most = larger(or_one(longest(rows)), or_one(widest(cells)));
    let r = widest_is_there(cells);
    if widest(cells) is Some {
        let w = widest(cells)->Some_0;
        cells_are_numbered(old, cells, r, w);
        last_rows_are_last(old, r);
        row_widths_are_widest(cells, r, w);
        assert(style_at(cells_again, r, w) == written_style(old, cells, rows, r, w));
        widest_is_widest(cells_again, r, w);
    }
    let s = widest_is_there(cells_again);
    if widest(cells_again) is Some {
        let w = widest(cells_again)->Some_0;
        assert(style_at(cells_again, s, w) == written_style(old, cells, rows, s, w));
        row_widths_are_widest(cells, s, w);
        let v = row_width(cells, s);
        widest_is_widest(cells, s, v);
        if 1 <= s <= rows.len() {
            long_rows_are_longest(rows, s);
        }
        assert(w <= most);
    }
}

/// The sheet data and the dimension that are written where there is what is written with the same
/// rows are the same ones again.
pub proof fn the_same_is_written_again(
    old: Seq<RowView>,
    cells: Seq<CellView>,
    rows: Seq<Seq<ValueView>>,
    old_again: Seq<RowView>,
    cells_again: Seq<CellView>,
)
    requires
        numbered(old, cells),
        as_written(old, cells, rows, old_again, cells_again),
    ensures
        data_text(old_again, cells_again, rows) == data_text(old, cells, rows),
        dimension_text(old_again, cells_again, rows) == dimension_text(old, cells, rows),
{
    last_rows_stay(old, cells, rows, old_again, cells_again);
    rows_stay(old, cells, rows, old_again, cells_again, final_row(old, rows) as nat);
    widths_stay(old, cells, rows, old_again, cells_again);
}

proof fn rows_are_found(nodes: Seq<NodeView>, data: int, n: nat, i: int)
    requires
        old_rows(nodes, data, n) is Ok,
        0 <= i < n,
        is_row(nodes, data, i),
    ensures
        row_number(nodes[i]) matches Ok(k) && row_attributes(
            old_rows(nodes, data, n)->Ok_0,
            k,
        ) is Some,
    decreases n,
{
    let rows = old_rows(nodes, data, n)->Ok_0;
    let before = old_rows(nodes, data, (n - 1) as nat)->Ok_0;
    if i < n - 1 {
        rows_are_found(nodes, data, (n - 1) as nat, i);
    }
    if is_row(nodes, data, n - 1) {
        assert(rows.drop_last() =~= before);
    }
}

proof fn cells_lie_in_rows(nodes: Seq<NodeView>, data: int, n: nat, i: int)
    requires
        old_rows(nodes, data, nodes.len()) is Ok,
        n <= nodes.len(),
        0 <= i < old_cells(nodes, data, n).len(),
    ensures
        row_attributes(
            old_rows(nodes, data, nodes.len())->Ok_0,
            old_cells(nodes, data, n)[i].0,
        ) is Some,
    decreases n,
{
    let before = old_cells(nodes, data, (n - 1) as nat);
    if i < before.len() {
        cells_lie_in_rows(nodes, data, (n - 1) as nat, i);
    } else {
        assert(cell_of(nodes, data, n - 1) is Some);
        rows_are_found(nodes, data, nodes.len(), nodes[n - 1].parent->Some_0);
    }
}

/// The place of the sheet data.
pub open spec fn data_place(nodes: Seq<NodeView>) -> int {
    first_tagged(nodes, "sheetData"@)->Some_0
}

/// The rows of a worksheet.
pub open spec fn rows_in(nodes: Seq<NodeView>) -> Seq<RowView> {
    old_rows(nodes, data_place(nodes), nodes.len())->Ok_0
}

/// The cells of a worksheet that have a style.
pub open spec fn cells_in(nodes: Seq<NodeView>) -> Seq<CellView> {
    old_cells(nodes, data_place(nodes), nodes.len())
}

/// Whether the node was written in `text` as `element`.
pub open spec fn written_as(text: Seq<char>, node: NodeView, element: Seq<char>) -> bool {
    placed(text, node) && between(text, node.start, node.end) == element
}

/// Whether `again`, the nodes of the filled worksheet `filled`, are those that were written when
/// `rows` were put into the worksheet with the given nodes: its sheet data and its dimension, each
/// where it was written, and the rows and styles in it.
pub open spec fn read_as_written(
    nodes: Seq<NodeView>,
    rows: Seq<Seq<ValueView>>,
    filled: Seq<char>,
    again: Seq<NodeView>,
) -> bool {
    let old = rows_in(nodes);
    let cells = cells_in(nodes);
    &&& first_tagged(again, "sheetData"@) is Some
    &&& written_as(filled, again[data_place(again)], data_text(old, cells, rows))
    &&& old_rows(again, data_place(again), again.len()) is Ok
    &&& as_written(old, cells, rows, rows_in(again), cells_in(again))
    &&& match first_tagged(again, "dimension"@) {
        None => first_tagged(nodes, "dimension"@) is None,
        Some(m) => first_tagged(nodes, "dimension"@) is Some && written_as(
            filled,
            again[m],
            dimension_text(old, cells, rows),
        ),
    }
    &&& parts_apart(again)
}

/// Filling a worksheet with the same rows a second time changes nothing, where the filled worksheet
/// is read as it was written, and where rows and the columns of cells were numbered from one on.
pub proof fn filling_again_changes_nothing(
    xml: Seq<char>,
    nodes: Seq<NodeView>,
    rows: Seq<Seq<ValueView>>,
    filled: Seq<char>,
    again: Seq<NodeView>,
)
    requires
        xml_nodes(xml) == Ok::<Seq<NodeView>, Seq<char>>(nodes),
        patched(xml, rows) == Ok::<Seq<char>, SheetErrorView>(filled),
        xml_nodes(filled) == Ok::<Seq<NodeView>, Seq<char>>(again),
        forall|i: int| 0 <= i < rows_in(nodes).len() ==> (#[trigger] rows_in(nodes)[i]).0 >= 1,
        forall|i: int| 0 <= i < cells_in(nodes).len() ==> (#[trigger] cells_in(nodes)[i]).1 >= 1,
        read_as_written(nodes, rows, filled, again),
    ensures
        patched(filled, rows) == Ok::<Seq<char>, SheetErrorView>(filled),
{
    let old = rows_in(nodes);
    let cells = cells_in(nodes);
    assert forall|i: int| 0 <= i < cells.len() implies (#[trigger] cells[i]).1 >= 1
        && row_attributes(old, cells[i].0) is Some by {
        cells_lie_in_rows(nodes, data_place(nodes), nodes.len(), i);
    }
    the_same_is_written_again(old, cells, rows, rows_in(again), cells_in(again));
    let d = again[data_place(again)];
    let parts = sheet_changes(again, rows)->Ok_0;
    filling_keeps_the_rest(filled, again, rows);
    let n = vstd::utf8::encode_utf8(filled).len() as int;
    parts_make_the_whole(filled, d.start);
    parts_make_the_whole(filled, d.end);
    match first_tagged(again, "dimension"@) {
        None => {
            between_joins(filled, d.start, d.end, n);
            assert(edited(filled, parts) =~= filled);
        },
        Some(k) => {
            let m = again[k];
            parts_make_the_whole(filled, m.start);
            parts_make_the_whole(filled, m.end);
            let (a, b) = if m.end <= d.start {
                (m, d)
            } else {
                (d, m)
            };
            between_joins(filled, b.start, b.end, n);
            between_joins(filled, a.end, b.start, n);
            between_joins(filled, a.start, a.end, n);
            assert(edited(filled, parts) =~= filled);
        },
    }
}

} // verus!
