//! Putting new rows into the XML of a worksheet.

use crate::column::{col_name, column_name};
use crate::edit::{
    applicable, between, disjoint_edits_keep_the_rest, edited, edits_view, head,
    single_edit_keeps_the_rest, tail, try_edits, Edit, EditView,
};
use crate::escape::{esc, escaped};
use crate::layout::{
    bounds_are_reached, larger, last_row, old_cells, old_rows, read_layout, row_attributes, row_width, style_at, widest,
    CellView, Layout, RowError, RowView,
};
use crate::number::Number;
use crate::text::{chars, decimal, numeral, stands_between};
use crate::value::{is_blank, row_view, table_view, Value, ValueView};
use crate::xml::{
    apart, find_tag, first_tagged, first_tagged_is_tagged, is_reachable, nodes_view, parse_xml,
    placed, reachable, within, xml_nodes, NodeView, XmlNode,
};
use vstd::prelude::*;
use vstd::string::StringExecFns;

verus! {

/// The most rows that a worksheet can have.
pub const MAX_ROWS: usize = 1_048_576;

/// The most columns that a worksheet can have.
pub const MAX_COLUMNS: usize = 16_384;

/// Why a worksheet cannot be filled.
pub enum SheetError {
    /// There are more rows or columns than a worksheet can have.
    TooLarge,
    /// The worksheet is no XML, with the message of the parser.
    Xml(String),
    /// The worksheet has no sheet data.
    NoData,
    /// The rows of the worksheet cannot be read.
    Row(RowError),
    /// A number is not finite.
    NotFinite,
    /// A text holds a character that XML does not allow.
    Control,
    /// The worksheet made is no XML, with the message of the parser.
    Invalid(String),
}

/// Why a worksheet cannot be filled, in contracts.
pub enum SheetErrorView {
    TooLarge,
    Xml(Seq<char>),
    NoData,
    Row(RowError),
    NotFinite,
    Control,
    Invalid(Seq<char>),
}

impl View for SheetError {
    type V = SheetErrorView;

    open spec fn view(&self) -> SheetErrorView {
        match self {
            SheetError::TooLarge => SheetErrorView::TooLarge,
            SheetError::Xml(m) => SheetErrorView::Xml(m@),
            SheetError::NoData => SheetErrorView::NoData,
            SheetError::Row(e) => SheetErrorView::Row(*e),
            SheetError::NotFinite => SheetErrorView::NotFinite,
            SheetError::Control => SheetErrorView::Control,
            SheetError::Invalid(m) => SheetErrorView::Invalid(m@),
        }
    }
}

impl SheetErrorView {
    /// The error in words.
    pub open spec fn words(self) -> Seq<char> {
        match self {
            SheetErrorView::TooLarge => "源数据超出 Excel 工作表行列限制"@,
            SheetErrorView::Xml(m) => m,
            SheetErrorView::NoData => "工作表没有 sheetData"@,
            SheetErrorView::Row(RowError::Missing) => "row missing r"@,
            SheetErrorView::Row(RowError::Unreadable(f)) => f.words(),
            SheetErrorView::NotFinite => "不能写入非有限数值"@,
            SheetErrorView::Control => "源报告包含 XML 不允许的控制字符"@,
            SheetErrorView::Invalid(m) => "生成的工作表 XML 无效"@ + ": "@ + m,
        }
    }
}

impl SheetError {
    /// The error in words.
    pub fn message(&self) -> (r: String)
        ensures
            r@ == self@.words(),
    {
        match self {
            SheetError::TooLarge => "源数据超出 Excel 工作表行列限制".to_string(),
            SheetError::Xml(m) => m.clone(),
            SheetError::NoData => "工作表没有 sheetData".to_string(),
            SheetError::Row(RowError::Missing) => "row missing r".to_string(),
            SheetError::Row(RowError::Unreadable(f)) => f.message(),
            SheetError::NotFinite => "不能写入非有限数值".to_string(),
            SheetError::Control => "源报告包含 XML 不允许的控制字符".to_string(),
            SheetError::Invalid(m) => {
                let mut r: String = "生成的工作表 XML 无效".to_string();
                r.append(": ");
                r.append(m.as_str());
                r
            },
        }
    }
}

/// A character that XML does not allow.
pub open spec fn forbidden(c: char) -> bool {
    (c < ' ' && c != '\t' && c != '\n' && c != '\r') || c == '\u{fffe}' || c == '\u{ffff}'
}

/// Whether a text holds a character that XML does not allow.
pub open spec fn holds_forbidden(s: Seq<char>) -> bool {
    exists|i: int| 0 <= i < s.len() && forbidden(#[trigger] s[i])
}

/// Why a value cannot be written.
pub open spec fn value_fault(v: ValueView) -> Option<SheetErrorView> {
    match v {
        ValueView::Number(None) => Some(SheetErrorView::NotFinite),
        ValueView::Text(s) => if holds_forbidden(s) {
            Some(SheetErrorView::Control)
        } else {
            None
        },
        _ => None,
    }
}

/// Why the first value of a row that cannot be written cannot.
pub open spec fn row_fault(row: Seq<ValueView>) -> Option<SheetErrorView>
    decreases row.len(),
{
    if row.len() == 0 {
        None
    } else {
        match row_fault(row.drop_last()) {
            Some(e) => Some(e),
            None => value_fault(row.last()),
        }
    }
}

/// Why the first value of a table that cannot be written cannot.
pub open spec fn table_fault(rows: Seq<Seq<ValueView>>) -> Option<SheetErrorView>
    decreases rows.len(),
{
    if rows.len() == 0 {
        None
    } else {
        match table_fault(rows.drop_last()) {
            Some(e) => Some(e),
            None => row_fault(rows.last()),
        }
    }
}

/// Whether the rows are more, or one of them is longer, than a worksheet can hold.
pub open spec fn too_large(rows: Seq<Seq<ValueView>>) -> bool {
    rows.len() > MAX_ROWS || exists|i: int|
        0 <= i < rows.len() && (#[trigger] rows[i]).len() > MAX_COLUMNS
}

/// The length of row `r`, counted from one; a row that is not there has none.
pub open spec fn row_length(rows: Seq<Seq<ValueView>>, r: int) -> int {
    if 1 <= r <= rows.len() {
        rows[r - 1].len() as int
    } else {
        0
    }
}

/// The value in row `r` and column `c`, both counted from one.
pub open spec fn value_at(rows: Seq<Seq<ValueView>>, r: int, c: int) -> ValueView {
    if 1 <= r <= rows.len() && 1 <= c <= rows[r - 1].len() {
        rows[r - 1][c - 1]
    } else {
        ValueView::Blank
    }
}

/// The style attribute of a cell: its own style, or that of the second row in its column.
pub open spec fn style_text(cells: Seq<CellView>, r: int, c: int) -> Seq<char> {
    match style_at(cells, r, c) {
        Some(s) => " s=\""@ + s + "\""@,
        None => match style_at(cells, 2, c) {
            Some(s) => " s=\""@ + s + "\""@,
            None => Seq::empty(),
        },
    }
}

/// The element of the cell in row `r` and column `c`. A blank cell is written only where there
/// was a styled one.
pub open spec fn cell_text(
    cells: Seq<CellView>,
    rows: Seq<Seq<ValueView>>,
    r: int,
    c: int,
) -> Seq<char> {
    let value = value_at(rows, r, c);
    let start = "<c r=\""@ + column_name(c as nat) + numeral(r as nat) + "\""@ + style_text(
        cells,
        r,
        c,
    );
    if is_blank(value) && style_at(cells, r, c) is None {
        Seq::empty()
    } else {
        match value {
            ValueView::Number(Some(n)) => start + " t=\"n\"><v>"@ + n + "</v></c>"@,
            ValueView::Text(s) => start
                + " t=\"inlineStr\"><is><t xml:space=\"preserve\">"@ + escaped(s)
                + "</t></is></c>"@,
            _ => start + "/>"@,
        }
    }
}

/// The elements of the cells of row `r` up to column `n`.
pub open spec fn cells_text(
    cells: Seq<CellView>,
    rows: Seq<Seq<ValueView>>,
    r: int,
    n: nat,
) -> Seq<char>
    decreases n,
{
    if n == 0 {
        Seq::empty()
    } else {
        cells_text(cells, rows, r, (n - 1) as nat) + cell_text(cells, rows, r, n as int)
    }
}

/// The element of row `r`. A row is written only where there was one, or where it has cells.
pub open spec fn row_text(
    old: Seq<RowView>,
    cells: Seq<CellView>,
    rows: Seq<Seq<ValueView>>,
    r: int,
) -> Seq<char> {
    let width = larger(row_width(cells, r), row_length(rows, r));
    let attributes = row_attributes(old, r);
    if width == 0 && attributes is None {
        Seq::empty()
    } else {
        "<row r=\""@ + numeral(r as nat) + "\""@ + (match attributes {
            Some(s) => s,
            None => Seq::empty(),
        }) + ">"@ + cells_text(cells, rows, r, width as nat) + "</row>"@
    }
}

/// The elements of the rows up to row `n`.
pub open spec fn rows_text(
    old: Seq<RowView>,
    cells: Seq<CellView>,
    rows: Seq<Seq<ValueView>>,
    n: nat,
) -> Seq<char>
    decreases n,
{
    if n == 0 {
        Seq::empty()
    } else {
        rows_text(old, cells, rows, (n - 1) as nat) + row_text(old, cells, rows, n as int)
    }
}

/// The last row that is written: the last of the new ones or of those that were there.
pub open spec fn final_row(old: Seq<RowView>, rows: Seq<Seq<ValueView>>) -> int {
    larger(rows.len() as int, last_row(old))
}

/// The new sheet data.
pub open spec fn data_text(
    old: Seq<RowView>,
    cells: Seq<CellView>,
    rows: Seq<Seq<ValueView>>,
) -> Seq<char> {
    "<sheetData>"@ + rows_text(old, cells, rows, final_row(old, rows) as nat) + "</sheetData>"@
}

/// The length of the longest row, if there is a row.
pub open spec fn longest(rows: Seq<Seq<ValueView>>) -> Option<int>
    decreases rows.len(),
{
    if rows.len() == 0 {
        None
    } else {
        match longest(rows.drop_last()) {
            Some(w) => Some(larger(rows.last().len() as int, w)),
            None => Some(rows.last().len() as int),
        }
    }
}

/// `n`, or one where there is none.
pub open spec fn or_one(n: Option<int>) -> int {
    match n {
        Some(k) => k,
        None => 1,
    }
}

/// The new dimension of the worksheet.
pub open spec fn dimension_text(
    old: Seq<RowView>,
    cells: Seq<CellView>,
    rows: Seq<Seq<ValueView>>,
) -> Seq<char> {
    "<dimension ref=\"A1:"@ + column_name(
        larger(or_one(longest(rows)), or_one(widest(cells))) as nat,
    ) + numeral(larger(final_row(old, rows), 1) as nat) + "\"/>"@
}

/// The replacements that put `rows` into the worksheet with the given nodes: one of its sheet
/// data and, where it has one, one of its dimension.
pub open spec fn sheet_changes(nodes: Seq<NodeView>, rows: Seq<Seq<ValueView>>) -> Result<
    Seq<EditView>,
    SheetErrorView,
> {
    match first_tagged(nodes, "sheetData"@) {
        None => Err(SheetErrorView::NoData),
        Some(d) => match old_rows(nodes, d, nodes.len()) {
            Err(e) => Err(SheetErrorView::Row(e)),
            Ok(old) => match table_fault(rows) {
                Some(e) => Err(e),
                None => {
                    let cells = old_cells(nodes, d, nodes.len());
                    let data = EditView {
                        start: nodes[d].start,
                        end: nodes[d].end,
                        text: data_text(old, cells, rows),
                    };
                    match first_tagged(nodes, "dimension"@) {
                        None => Ok(seq![data]),
                        Some(m) => Ok(
                            seq![
                                data,
                                EditView {
                                    start: nodes[m].start,
                                    end: nodes[m].end,
                                    text: dimension_text(old, cells, rows),
                                },
                            ],
                        ),
                    }
                },
            },
        },
    }
}

/// Whether `c` is a character that XML does not allow.
fn is_forbidden(c: char) -> (r: bool)
    ensures
        r == forbidden(c),
{
    (c < ' ' && c != '\t' && c != '\n' && c != '\r') || c == '\u{fffe}' || c == '\u{ffff}'
}

/// Why a value cannot be written.
fn find_value_fault(v: &Value) -> (r: Option<SheetError>)
    ensures
        value_fault(v@) == (match r {
            Some(e) => Some(e@),
            None => None,
        }),
{
    match v {
        Value::Number(Number::NotFinite) => Some(SheetError::NotFinite),
        Value::Text(s) => {
            let x: Vec<char> = chars(s.as_str());
            let mut i: usize = 0;
            while i < x.len()
                invariant
                    x@ == s@,
                    v@ == ValueView::Text(s@),
                    i <= x.len(),
                    forall|j: int| 0 <= j < i ==> !forbidden(#[trigger] s@[j]),
                decreases x.len() - i,
            {
                if is_forbidden(x[i]) {
                    assert(forbidden(s@[i as int]));
                    assert(holds_forbidden(s@));
                    return Some(SheetError::Control);
                }
                i = i + 1;
            }
            None
        },
        _ => None,
    }
}

/// Why the first value of a row that cannot be written cannot.
fn find_row_fault(row: &Vec<Value>) -> (r: Option<SheetError>)
    ensures
        row_fault(row_view(row@)) == (match r {
            Some(e) => Some(e@),
            None => None,
        }),
{
    let ghost v = row_view(row@);
    let mut i: usize = 0;
    while i < row.len()
        invariant
            v == row_view(row@),
            i <= row.len(),
            row_fault(v.take(i as int)) is None,
        decreases row.len() - i,
    {
        assert(v.take(i + 1).drop_last() =~= v.take(i as int));
        assert(v[i as int] == row@[i as int]@);
        match find_value_fault(&row[i]) {
            Some(e) => {
                proof {
                    row_fault_stays(v, i + 1);
                }
                return Some(e);
            },
            None => {},
        }
        i = i + 1;
    }
    assert(v.take(v.len() as int) =~= v);
    None
}

proof fn row_fault_stays(row: Seq<ValueView>, n: int)
    requires
        0 <= n <= row.len(),
        row_fault(row.take(n)) is Some,
    ensures
        row_fault(row) == row_fault(row.take(n)),
    decreases row.len() - n,
{
    if n < row.len() {
        assert(row.take(n + 1).drop_last() =~= row.take(n));
        row_fault_stays(row, n + 1);
    } else {
        assert(row.take(n) =~= row);
    }
}

/// Why the first value of a table that cannot be written cannot.
fn find_table_fault(rows: &[Vec<Value>]) -> (r: Option<SheetError>)
    ensures
        table_fault(table_view(rows@)) == (match r {
            Some(e) => Some(e@),
            None => None,
        }),
{
    let ghost v = table_view(rows@);
    let mut i: usize = 0;
    while i < rows.len()
        invariant
            v == table_view(rows@),
            i <= rows.len(),
            table_fault(v.take(i as int)) is None,
        decreases rows.len() - i,
    {
        assert(v.take(i + 1).drop_last() =~= v.take(i as int));
        assert(v[i as int] == row_view(rows@[i as int]@));
        match find_row_fault(&rows[i]) {
            Some(e) => {
                proof {
                    table_fault_stays(v, i + 1);
                }
                return Some(e);
            },
            None => {},
        }
        i = i + 1;
    }
    assert(v.take(v.len() as int) =~= v);
    None
}

proof fn table_fault_stays(rows: Seq<Seq<ValueView>>, n: int)
    requires
        0 <= n <= rows.len(),
        table_fault(rows.take(n)) is Some,
    ensures
        table_fault(rows) == table_fault(rows.take(n)),
    decreases rows.len() - n,
{
    if n < rows.len() {
        assert(rows.take(n + 1).drop_last() =~= rows.take(n));
        table_fault_stays(rows, n + 1);
    } else {
        assert(rows.take(n) =~= rows);
    }
}

/// Whether the rows are more, or one of them is longer, than a worksheet can hold.
pub fn is_too_large(rows: &[Vec<Value>]) -> (r: bool)
    ensures
        r == too_large(table_view(rows@)),
{
    let ghost v = table_view(rows@);
    if rows.len() > MAX_ROWS {
        return true;
    }
    let mut i: usize = 0;
    while i < rows.len()
        invariant
            v == table_view(rows@),
            v.len() <= MAX_ROWS,
            i <= rows.len(),
            forall|j: int| 0 <= j < i ==> (#[trigger] v[j]).len() <= MAX_COLUMNS,
        decreases rows.len() - i,
    {
        if rows[i].len() > MAX_COLUMNS {
            assert(v[i as int].len() > MAX_COLUMNS);
            return true;
        }
        i = i + 1;
    }
    false
}

/// The length of the longest row, if there is a row.
fn find_longest(rows: &[Vec<Value>]) -> (r: Option<usize>)
    ensures
        longest(table_view(rows@)) == (match r {
            Some(n) => Some(n as int),
            None => None,
        }),
{
    let ghost v = table_view(rows@);
    let mut w: Option<usize> = None;
    let mut i: usize = 0;
    while i < rows.len()
        invariant
            v == table_view(rows@),
            i <= rows.len(),
            longest(v.take(i as int)) == (match w {
                Some(n) => Some(n as int),
                None => None,
            }),
        decreases rows.len() - i,
    {
        assert(v.take(i + 1).drop_last() =~= v.take(i as int));
        let n: usize = rows[i].len();
        w = match w {
            Some(m) => if n > m {
                Some(n)
            } else {
                Some(m)
            },
            None => Some(n),
        };
        i = i + 1;
    }
    assert(v.take(v.len() as int) =~= v);
    w
}

/// Writes the start of the element of the cell in row `r` and column `c`.
fn write_start(out: &mut String, layout: &Layout, r: usize, c: usize)
    requires
        layout.wf(),
    ensures
        final(out)@ == old(out)@ + ("<c r=\""@ + column_name(c as nat) + numeral(r as nat) + "\""@
            + style_text(layout.old_cells(), r as int, c as int)),
{
    let ghost before = out@;
    let column: String = col_name(c);
    let row: String = decimal(r as u64);
    out.append("<c r=\"");
    out.append(column.as_str());
    out.append(row.as_str());
    out.append("\"");
    let ghost plain = out@;
    let style: Option<&String> = match layout.style(r, c) {
        Some(s) => Some(s),
        None => layout.style(2, c),
    };
    match style {
        Some(s) => {
            out.append(" s=\"");
            out.append(s.as_str());
            out.append("\"");
        },
        None => {},
    }
    assert(out@ =~= plain + style_text(layout.old_cells(), r as int, c as int));
    assert(out@ =~= before + ("<c r=\""@ + column_name(c as nat) + numeral(r as nat) + "\""@
        + style_text(layout.old_cells(), r as int, c as int)));
}

/// Writes the element of the cell in row `r` and column `c`.
fn write_cell(out: &mut String, layout: &Layout, rows: &[Vec<Value>], r: usize, c: usize)
    requires
        layout.wf(),
        1 <= r,
        1 <= c,
    ensures
        final(out)@ == old(out)@ + cell_text(
            layout.old_cells(),
            table_view(rows@),
            r as int,
            c as int,
        ),
{
    let ghost before = out@;
    let ghost cells = layout.old_cells();
    let ghost v = table_view(rows@);
    let blank: Value = Value::Blank;
    let value: &Value = if r - 1 < rows.len() && c - 1 < rows[r - 1].len() {
        &rows[r - 1][c - 1]
    } else {
        &blank
    };
    assert(value@ == value_at(v, r as int, c as int));
    if value.blank() && layout.style(r, c).is_none() {
        assert(out@ =~= before + Seq::<char>::empty());
        return;
    }
    write_start(out, layout, r, c);
    match value {
        Value::Number(Number::Finite(n)) => {
            out.append(" t=\"n\"><v>");
            out.append(n.as_str());
            out.append("</v></c>");
        },
        Value::Text(s) => {
            let inner: String = esc(s.as_str());
            out.append(" t=\"inlineStr\"><is><t xml:space=\"preserve\">");
            out.append(inner.as_str());
            out.append("</t></is></c>");
        },
        _ => {
            out.append("/>");
        },
    }
    assert(out@ =~= before + cell_text(cells, v, r as int, c as int));
}

/// Writes the element of row `r`.
fn write_row(out: &mut String, layout: &Layout, rows: &[Vec<Value>], r: usize)
    requires
        layout.wf(),
        1 <= r,
    ensures
        final(out)@ == old(out)@ + row_text(
            layout.old_rows(),
            layout.old_cells(),
            table_view(rows@),
            r as int,
        ),
{
    let ghost before = out@;
    let ghost old_list = layout.old_rows();
    let ghost cells = layout.old_cells();
    let ghost v = table_view(rows@);
    let length: usize = if r - 1 < rows.len() {
        rows[r - 1].len()
    } else {
        0
    };
    assert(length == row_length(v, r as int));
    let old_width: usize = layout.width(r);
    let width: usize = if old_width > length {
        old_width
    } else {
        length
    };
    let attributes: Option<&String> = layout.attributes(r);
    if width == 0 && attributes.is_none() {
        assert(out@ =~= before + Seq::<char>::empty());
        return;
    }
    let number: String = decimal(r as u64);
    out.append("<row r=\"");
    out.append(number.as_str());
    out.append("\"");
    match attributes {
        Some(s) => {
            out.append(s.as_str());
        },
        None => {},
    }
    out.append(">");
    let ghost start = out@;
    assert(start =~= before + ("<row r=\""@ + numeral(r as nat) + "\""@ + (match row_attributes(
        old_list,
        r as int,
    ) {
        Some(s) => s,
        None => Seq::empty(),
    }) + ">"@));
    let mut c: usize = 0;
    while c < width
        invariant
            layout.wf(),
            1 <= r,
            cells == layout.old_cells(),
            v == table_view(rows@),
            c <= width,
            out@ == start + cells_text(cells, v, r as int, c as nat),
        decreases width - c,
    {
        c = c + 1;
        write_cell(out, layout, rows, r, c);
        assert(out@ =~= start + cells_text(cells, v, r as int, c as nat));
    }
    out.append("</row>");
    assert(out@ =~= before + row_text(old_list, cells, v, r as int));
}

/// The new sheet data.
fn write_data(layout: &Layout, rows: &[Vec<Value>], last: usize) -> (out: String)
    requires
        layout.wf(),
        last == final_row(layout.old_rows(), table_view(rows@)),
    ensures
        out@ == data_text(layout.old_rows(), layout.old_cells(), table_view(rows@)),
{
    let ghost old_list = layout.old_rows();
    let ghost cells = layout.old_cells();
    let ghost v = table_view(rows@);
    let mut out: String = "<sheetData>".to_string();
    let ghost start = out@;
    let mut r: usize = 0;
    while r < last
        invariant
            layout.wf(),
            old_list == layout.old_rows(),
            cells == layout.old_cells(),
            v == table_view(rows@),
            r <= last,
            out@ == start + rows_text(old_list, cells, v, r as nat),
        decreases last - r,
    {
        r = r + 1;
        write_row(&mut out, layout, rows, r);
        assert(out@ =~= start + rows_text(old_list, cells, v, r as nat));
    }
    out.append("</sheetData>");
    assert(out@ =~= data_text(old_list, cells, v));
    out
}

/// The new dimension of the worksheet.
fn write_dimension(layout: &Layout, rows: &[Vec<Value>], last: usize) -> (out: String)
    requires
        layout.wf(),
        last == final_row(layout.old_rows(), table_view(rows@)),
    ensures
        out@ == dimension_text(layout.old_rows(), layout.old_cells(), table_view(rows@)),
{
    let new_width: usize = match find_longest(rows) {
        Some(n) => n,
        None => 1,
    };
    let old_width: usize = match layout.widest() {
        Some(n) => n,
        None => 1,
    };
    let width: usize = if new_width > old_width {
        new_width
    } else {
        old_width
    };
    let bottom: usize = if last > 1 {
        last
    } else {
        1
    };
    let column: String = col_name(width);
    let row: String = decimal(bottom as u64);
    let mut out: String = "<dimension ref=\"A1:".to_string();
    out.append(column.as_str());
    out.append(row.as_str());
    out.append("\"/>");
    out
}

/// The replacements that put `rows` into the worksheet with the given nodes.
pub fn sheet_edits(nodes: &Vec<XmlNode>, rows: &[Vec<Value>]) -> (r: Result<Vec<Edit>, SheetError>)
    ensures
        sheet_changes(nodes_view(nodes@), table_view(rows@)) == (match r {
            Ok(parts) => Ok::<Seq<EditView>, SheetErrorView>(edits_view(parts@)),
            Err(e) => Err(e@),
        }),
{
    let ghost v = nodes_view(nodes@);
    let data: usize = match find_tag(nodes, "sheetData") {
        Some(i) => i,
        None => {
            return Err(SheetError::NoData);
        },
    };
    let layout: Layout = match read_layout(nodes, data) {
        Ok(l) => l,
        Err(e) => {
            return Err(SheetError::Row(e));
        },
    };
    match find_table_fault(rows) {
        Some(e) => {
            return Err(e);
        },
        None => {},
    }
    let old_last: usize = layout.last();
    let last: usize = if rows.len() > old_last {
        rows.len()
    } else {
        old_last
    };
    let mut parts: Vec<Edit> = Vec::new();
    let text: String = write_data(&layout, rows, last);
    parts.push(Edit { start: nodes[data].start, end: nodes[data].end, text });
    assert(v[data as int] == nodes@[data as int]@);
    match find_tag(nodes, "dimension") {
        Some(m) => {
            assert(v[m as int] == nodes@[m as int]@);
            let text: String = write_dimension(&layout, rows, last);
            parts.push(Edit { start: nodes[m].start, end: nodes[m].end, text });
            assert(edits_view(parts@) =~= sheet_changes(v, table_view(rows@))->Ok_0);
        },
        None => {
            assert(edits_view(parts@) =~= sheet_changes(v, table_view(rows@))->Ok_0);
        },
    }
    Ok(parts)
}

/// The worksheet `xml` with `rows` in it, or why it cannot be made.
pub open spec fn patched(xml: Seq<char>, rows: Seq<Seq<ValueView>>) -> Result<
    Seq<char>,
    SheetErrorView,
> {
    if too_large(rows) {
        Err(SheetErrorView::TooLarge)
    } else {
        match xml_nodes(xml) {
            Err(m) => Err(SheetErrorView::Xml(m)),
            Ok(nodes) => match sheet_changes(nodes, rows) {
                Err(e) => Err(e),
                Ok(parts) => match xml_nodes(edited(xml, parts)) {
                    Err(m) => Err(SheetErrorView::Invalid(m)),
                    Ok(_) => Ok(edited(xml, parts)),
                },
            },
        }
    }
}

/// Whether a worksheet can be filled: it can be parsed on the stack that there is, before and behind
/// that, and its sheet data and its dimension can be replaced one after the other, as they can where
/// neither of them holds the other.
pub open spec fn patchable(xml: Seq<char>, rows: Seq<Seq<ValueView>>) -> bool {
    !too_large(rows) ==> reachable(xml) && match xml_nodes(xml) {
        Ok(nodes) => match sheet_changes(nodes, rows) {
            Ok(parts) => applicable(xml, parts) && reachable(edited(xml, parts)),
            Err(_) => true,
        },
        Err(_) => true,
    }
}

/// Whether the sheet data and the dimension of a worksheet were written one before the other.
pub open spec fn parts_apart(nodes: Seq<NodeView>) -> bool {
    match (first_tagged(nodes, "sheetData"@), first_tagged(nodes, "dimension"@)) {
        (Some(d), Some(m)) => apart(nodes[d], nodes[m]),
        _ => true,
    }
}

/// Whether `new` is the worksheet `xml` with a new sheet data and, where it has one, a new dimension,
/// and everything else as it was.
pub open spec fn rest_kept(
    xml: Seq<char>,
    nodes: Seq<NodeView>,
    rows: Seq<Seq<ValueView>>,
    new: Seq<char>,
) -> bool {
    let d = nodes[first_tagged(nodes, "sheetData"@)->Some_0];
    let parts = sheet_changes(nodes, rows)->Ok_0;
    match first_tagged(nodes, "dimension"@) {
        None => new == head(xml, d.start) + parts[0].text + tail(xml, d.end),
        Some(m) => if nodes[m].end <= d.start {
            new == head(xml, nodes[m].start) + parts[1].text + between(
                xml,
                nodes[m].end,
                d.start,
            ) + parts[0].text + tail(xml, d.end)
        } else {
            new == head(xml, d.start) + parts[0].text + between(
                xml,
                d.end,
                nodes[m].start,
            ) + parts[1].text + tail(xml, nodes[m].end)
        },
    }
}

/// Whether one of the sheet data and the dimension of a worksheet holds the other.
pub open spec fn parts_nested(nodes: Seq<NodeView>) -> bool {
    match (first_tagged(nodes, "sheetData"@), first_tagged(nodes, "dimension"@)) {
        (Some(d), Some(m)) => within(nodes[d], nodes[m]) || within(nodes[m], nodes[d]),
        _ => false,
    }
}

/// Whether the filled worksheet can be parsed on the stack that there is, where it can be made.
pub open spec fn stays_reachable(
    xml: Seq<char>,
    nodes: Seq<NodeView>,
    rows: Seq<Seq<ValueView>>,
) -> bool {
    sheet_changes(nodes, rows) matches Ok(parts) ==> reachable(edited(xml, parts))
}

/// What is owed to a worksheet of whose sheet data and dimension neither holds the other: they can be
/// replaced, unless the stack does not carry the parser, and everything else stays as it was.
pub open spec fn rest_is_owed(
    xml: Seq<char>,
    rows: Seq<Seq<ValueView>>,
    r: Option<Result<String, SheetError>>,
) -> bool {
    reachable(xml) ==> (xml_nodes(xml) matches Ok(nodes) ==> (!parts_nested(nodes) ==> (
    stays_reachable(xml, nodes, rows) ==> r is Some) && (r matches Some(Ok(s)) ==> parts_apart(
        nodes,
    ) && rest_kept(xml, nodes, rows, s@))))
}

/// Puts `rows` into the worksheet `xml`, where it can be filled.
pub(crate) fn attempt(xml: &str, rows: &[Vec<Value>]) -> (r: Option<Result<String, SheetError>>)
    ensures
        match r {
            None => !patchable(xml@, table_view(rows@)),
            Some(Ok(s)) => patchable(xml@, table_view(rows@)) && patched(xml@, table_view(rows@))
                == Ok::<Seq<char>, SheetErrorView>(s@),
            Some(Err(e)) => patchable(xml@, table_view(rows@)) && patched(
                xml@,
                table_view(rows@),
            ) == Err::<Seq<char>, SheetErrorView>(e@),
        },
        rest_is_owed(xml@, table_view(rows@), r),
{
    if is_too_large(rows) {
        return Some(Err(SheetError::TooLarge));
    }
    if !is_reachable(xml) {
        return None;
    }
    let nodes: Vec<XmlNode> = match parse_xml(xml) {
        Ok(nodes) => nodes,
        Err(m) => {
            return Some(Err(SheetError::Xml(m)));
        },
    };
    let parts: Vec<Edit> = match sheet_edits(&nodes, rows) {
        Ok(parts) => parts,
        Err(e) => {
            return Some(Err(e));
        },
    };
    proof {
        let v = nodes_view(nodes@);
        reveal_strlit("sheetData");
        reveal_strlit("dimension");
        first_tagged_is_tagged(v, "sheetData"@);
        let d = first_tagged(v, "sheetData"@)->Some_0;
        assert(placed(xml@, nodes@[d]@));
        if first_tagged(v, "dimension"@) is Some {
            first_tagged_is_tagged(v, "dimension"@);
            let m = first_tagged(v, "dimension"@)->Some_0;
            assert(placed(xml@, nodes@[m]@));
            assert(d != m) by {
                assert("sheetData"@.len() == "dimension"@.len());
                assert("sheetData"@[0] != "dimension"@[0]);
            }
            assert(v[d] == nodes@[d]@ && v[m] == nodes@[m]@);
        }
        if !parts_nested(v) {
            filling_keeps_the_rest(xml@, v, table_view(rows@));
        }
    }
    match try_edits(xml, parts) {
        None => None,
        Some(s) => {
            if !is_reachable(s.as_str()) {
                return None;
            }
            match parse_xml(s.as_str()) {
                Ok(_) => Some(Ok(s)),
                Err(m) => Some(Err(SheetError::Invalid(m))),
            }
        },
    }
}

/// Puts `rows` into the worksheet `xml`: its sheet data and its dimension are replaced, and
/// everything else stays as it is.
pub fn patch_sheet(xml: &str, rows: &[Vec<Value>]) -> (r: Result<String, SheetError>)
    requires
        patchable(xml@, table_view(rows@)),
    ensures
        patched(xml@, table_view(rows@)) == (match r {
            Ok(s) => Ok::<Seq<char>, SheetErrorView>(s@),
            Err(e) => Err(e@),
        }),
        rest_is_owed(xml@, table_view(rows@), Some(r)),
{
    match attempt(xml, rows) {
        Some(r) => r,
        None => Err(SheetError::NoData),
    }
}

/// Whether the worksheet `xml` can be filled. It always can where the stack carries the parser and
/// neither of its sheet data and its dimension holds the other.
pub fn can_patch(xml: &str, rows: &[Vec<Value>]) -> (r: bool)
    ensures
        r == patchable(xml@, table_view(rows@)),
        !r && reachable(xml@) ==> (xml_nodes(xml@) matches Ok(nodes) && (parts_nested(nodes)
            || !stays_reachable(xml@, nodes, table_view(rows@)))),
{
    attempt(xml, rows).is_some()
}

/// Puts `rows` into the worksheet `xml`, as `patch_sheet` does; `None` where it cannot be filled.
pub fn try_patch_sheet(xml: &str, rows: &[Vec<Value>]) -> (r: Option<Result<String, SheetError>>)
    ensures
        match r {
            None => !patchable(xml@, table_view(rows@)),
            Some(Ok(s)) => patchable(xml@, table_view(rows@)) && patched(xml@, table_view(rows@))
                == Ok::<Seq<char>, SheetErrorView>(s@),
            Some(Err(e)) => patchable(xml@, table_view(rows@)) && patched(
                xml@,
                table_view(rows@),
            ) == Err::<Seq<char>, SheetErrorView>(e@),
        },
        rest_is_owed(xml@, table_view(rows@), r),
{
    if can_patch(xml, rows) {
        Some(patch_sheet(xml, rows))
    } else {
        None
    }
}

/// Filling a worksheet keeps everything outside of its sheet data and its dimension, where these were
/// written one before the other.
pub proof fn filling_keeps_the_rest(xml: Seq<char>, nodes: Seq<NodeView>, rows: Seq<Seq<ValueView>>)
    requires
        sheet_changes(nodes, rows) is Ok,
        placed(xml, nodes[first_tagged(nodes, "sheetData"@)->Some_0]),
        first_tagged(nodes, "dimension"@) matches Some(m) ==> placed(xml, nodes[m]),
        parts_apart(nodes),
    ensures
        applicable(xml, sheet_changes(nodes, rows)->Ok_0),
        rest_kept(xml, nodes, rows, edited(xml, sheet_changes(nodes, rows)->Ok_0)),
{
    let parts = sheet_changes(nodes, rows)->Ok_0;
    match first_tagged(nodes, "dimension"@) {
        None => {
            single_edit_keeps_the_rest(xml, parts[0]);
        },
        Some(m) => {
            let d = nodes[first_tagged(nodes, "sheetData"@)->Some_0];
            assert(parts =~= seq![parts[0], parts[1]]);
            if nodes[m].end <= d.start {
                disjoint_edits_keep_the_rest(xml, parts[1], parts[0]);
            } else {
                disjoint_edits_keep_the_rest(xml, parts[0], parts[1]);
            }
        },
    }
}

/// Where the new rows have no value, nothing of an old value is left: the cell is not written at
/// all, or without content.
pub proof fn old_values_are_gone(cells: Seq<CellView>, rows: Seq<Seq<ValueView>>, r: int, c: int)
    requires
        value_at(rows, r, c) == ValueView::Blank,
    ensures
        style_at(cells, r, c) is None ==> cell_text(cells, rows, r, c) == Seq::<char>::empty(),
        style_at(cells, r, c) is Some ==> cell_text(cells, rows, r, c) == "<c r=\""@ + column_name(
            c as nat,
        ) + numeral(r as nat) + "\""@ + style_text(cells, r, c) + "/>"@,
{
}

/// A cell keeps the style that it had, and a cell without one takes that of the second row.
pub proof fn styles_are_kept(cells: Seq<CellView>, r: int, c: int)
    ensures
        style_at(cells, r, c) matches Some(s) ==> style_text(cells, r, c) == " s=\""@ + s + "\""@,
        style_at(cells, r, c) is None ==> style_text(cells, r, c) == style_text(cells, 2, c),
{
}

/// The rows of a worksheet are written one after the other.
proof fn rows_text_is_flat(
    old: Seq<RowView>,
    cells: Seq<CellView>,
    rows: Seq<Seq<ValueView>>,
    n: nat,
)
    ensures
        rows_text(old, cells, rows, n) == Seq::new(
            n,
            |i: int| row_text(old, cells, rows, i + 1),
        ).flatten(),
    decreases n,
{
    let lines = Seq::new(n, |i: int| row_text(old, cells, rows, i + 1));
    if n > 0 {
        let m = (n - 1) as nat;
        rows_text_is_flat(old, cells, rows, m);
        let fewer = Seq::new(m, |i: int| row_text(old, cells, rows, i + 1));
        assert(lines =~= fewer.push(row_text(old, cells, rows, n as int)));
        fewer.lemma_flatten_push(row_text(old, cells, rows, n as int));
    } else {
        assert(lines =~= Seq::<Seq<char>>::empty());
    }
}

/// The cells of a row are written one after the other.
proof fn cells_text_is_flat(cells: Seq<CellView>, rows: Seq<Seq<ValueView>>, r: int, n: nat)
    ensures
        cells_text(cells, rows, r, n) == Seq::new(
            n,
            |j: int| cell_text(cells, rows, r, j + 1),
        ).flatten(),
    decreases n,
{
    let all = Seq::new(n, |j: int| cell_text(cells, rows, r, j + 1));
    if n > 0 {
        let m = (n - 1) as nat;
        cells_text_is_flat(cells, rows, r, m);
        let fewer = Seq::new(m, |j: int| cell_text(cells, rows, r, j + 1));
        assert(all =~= fewer.push(cell_text(cells, rows, r, n as int)));
        fewer.lemma_flatten_push(cell_text(cells, rows, r, n as int));
    } else {
        assert(all =~= Seq::<Seq<char>>::empty());
    }
}

/// Whether `text` is the element of a cell with the given reference, style attribute and value. A
/// blank one holds nothing, and may be left out where it had no style of its own.
pub open spec fn is_cell(
    text: Seq<char>,
    reference: Seq<char>,
    style: Seq<char>,
    styled: bool,
    value: ValueView,
) -> bool {
    let start = "<c r=\""@ + reference + "\""@ + style;
    let content = "<is><t xml:space=\"preserve\">"@;
    match value {
        ValueView::Number(Some(n)) => text == start + " t=\"n\"><v>"@ + n + "</v></c>"@,
        ValueView::Number(None) => false,
        ValueView::Text(s) => if s == Seq::<char>::empty() && !styled {
            text == Seq::<char>::empty()
        } else {
            text == start + " t=\"inlineStr\">"@ + content + escaped(s) + "</t></is></c>"@
        },
        ValueView::Blank => if styled {
            text == start + "/>"@
        } else {
            text == Seq::<char>::empty()
        },
    }
}

/// Whether `text` is the element of row `r` with the given cells.
pub open spec fn is_row_element(
    text: Seq<char>,
    r: int,
    attributes: Seq<char>,
    cells: Seq<Seq<char>>,
) -> bool {
    text == "<row r=\""@ + numeral(r as nat) + "\""@ + attributes + ">"@ + cells.flatten()
        + "</row>"@
}

/// The elements of the rows in the new sheet data of a worksheet.
pub open spec fn new_rows(nodes: Seq<NodeView>, rows: Seq<Seq<ValueView>>) -> Seq<Seq<char>> {
    let d = first_tagged(nodes, "sheetData"@)->Some_0;
    let old = old_rows(nodes, d, nodes.len())->Ok_0;
    let cells = old_cells(nodes, d, nodes.len());
    Seq::new(final_row(old, rows) as nat, |i: int| row_text(old, cells, rows, i + 1))
}

/// The elements of the cells in a row of the new sheet data of a worksheet.
pub open spec fn new_cells(nodes: Seq<NodeView>, rows: Seq<Seq<ValueView>>, r: int) -> Seq<
    Seq<char>,
> {
    let d = first_tagged(nodes, "sheetData"@)->Some_0;
    let cells = old_cells(nodes, d, nodes.len());
    Seq::new(
        larger(row_width(cells, r), row_length(rows, r)) as nat,
        |j: int| cell_text(cells, rows, r, j + 1),
    )
}

/// The new sheet data is made of row elements, one after the other, and of nothing else: as many as
/// there are new rows, or as the last of the old rows asks for.
pub proof fn sheet_data_is_made_of_rows(nodes: Seq<NodeView>, rows: Seq<Seq<ValueView>>)
    requires
        sheet_changes(nodes, rows) is Ok,
    ensures
        ({
            let data = sheet_changes(nodes, rows)->Ok_0[0].text;
            let d = first_tagged(nodes, "sheetData"@)->Some_0;
            let old = old_rows(nodes, d, nodes.len())->Ok_0;
            let lines = new_rows(nodes, rows);
            &&& data == "<sheetData>"@ + lines.flatten() + "</sheetData>"@
            &&& lines.len() >= rows.len()
            &&& forall|k: int| 0 <= k < old.len() ==> (#[trigger] old[k]).0 <= lines.len()
            &&& lines.len() == rows.len() || exists|k: int|
                0 <= k < old.len() && (#[trigger] old[k]).0 == lines.len()
        }),
{
    let d = first_tagged(nodes, "sheetData"@)->Some_0;
    let old = old_rows(nodes, d, nodes.len())->Ok_0;
    let cells = old_cells(nodes, d, nodes.len());
    bounds_are_reached(old, cells, 1);
    rows_text_is_flat(old, cells, rows, final_row(old, rows) as nat);
}

/// A row that is new or was there is written with its number, the attributes that it had and its
/// cells, one after the other: as many as the new row has, or as its last styled cell asks for. A row
/// without cells that was not there is not written.
pub proof fn rows_are_made_of_cells(nodes: Seq<NodeView>, rows: Seq<Seq<ValueView>>, r: int)
    requires
        sheet_changes(nodes, rows) is Ok,
        1 <= r <= new_rows(nodes, rows).len(),
    ensures
        ({
            let d = first_tagged(nodes, "sheetData"@)->Some_0;
            let old = old_rows(nodes, d, nodes.len())->Ok_0;
            let cells = old_cells(nodes, d, nodes.len());
            let line = new_rows(nodes, rows)[r - 1];
            let parts = new_cells(nodes, rows, r);
            &&& row_attributes(old, r) matches Some(s) ==> is_row_element(line, r, s, parts)
            &&& row_attributes(old, r) is None && parts.len() > 0 ==> is_row_element(
                line,
                r,
                Seq::empty(),
                parts,
            )
            &&& row_attributes(old, r) is None && parts.len() == 0 ==> line == Seq::<char>::empty()
            &&& r <= rows.len() ==> parts.len() >= rows[r - 1].len()
            &&& forall|k: int|
                0 <= k < cells.len() && (#[trigger] cells[k]).0 == r ==> cells[k].1 <= parts.len()
            &&& parts.len() == (if r <= rows.len() {
                rows[r - 1].len()
            } else {
                0
            }) || exists|k: int|
                0 <= k < cells.len() && (#[trigger] cells[k]).0 == r && cells[k].1 == parts.len()
        }),
{
    let d = first_tagged(nodes, "sheetData"@)->Some_0;
    let old = old_rows(nodes, d, nodes.len())->Ok_0;
    let cells = old_cells(nodes, d, nodes.len());
    bounds_are_reached(old, cells, r);
    cells_text_is_flat(cells, rows, r, larger(row_width(cells, r), row_length(rows, r)) as nat);
}

/// Every cell holds the new value at its place: a number as it is, a text escaped, and nothing where
/// there is no value. It keeps the style that it had, or takes that of the second row in its column.
pub proof fn cells_hold_their_values(
    nodes: Seq<NodeView>,
    rows: Seq<Seq<ValueView>>,
    r: int,
    c: int,
)
    requires
        sheet_changes(nodes, rows) is Ok,
        1 <= r <= new_rows(nodes, rows).len(),
        1 <= c <= new_cells(nodes, rows, r).len(),
    ensures
        ({
            let d = first_tagged(nodes, "sheetData"@)->Some_0;
            let cells = old_cells(nodes, d, nodes.len());
            let own = style_at(cells, r, c);
            let model = style_at(cells, 2, c);
            let style = match (own, model) {
                (Some(s), _) => " s=\""@ + s + "\""@,
                (None, Some(s)) => " s=\""@ + s + "\""@,
                (None, None) => Seq::empty(),
            };
            let reference = column_name(c as nat) + numeral(r as nat);
            let text = new_cells(nodes, rows, r)[c - 1];
            &&& r <= rows.len() && c <= rows[r - 1].len() ==> is_cell(
                text,
                reference,
                style,
                own is Some,
                rows[r - 1][c - 1],
            )
            &&& r > rows.len() ==> is_cell(text, reference, style, own is Some, ValueView::Blank)
            &&& r <= rows.len() && c > rows[r - 1].len() ==> is_cell(
                text,
                reference,
                style,
                own is Some,
                ValueView::Blank,
            )
        }),
{
    let d = first_tagged(nodes, "sheetData"@)->Some_0;
    let cells = old_cells(nodes, d, nodes.len());
    if r <= rows.len() && c <= rows[r - 1].len() {
        all_values_can_be_written(rows, r - 1, c - 1);
    }
    let reference = column_name(c as nat) + numeral(r as nat);
    let style = style_text(cells, r, c);
    let start = "<c r=\""@ + reference + "\""@ + style;
    assert("<c r=\""@ + column_name(c as nat) + numeral(r as nat) + "\""@ + style =~= start);
    joined_start();
    if let ValueView::Text(s) = value_at(rows, r, c) {
        assert(start + " t=\"inlineStr\"><is><t xml:space=\"preserve\">"@ + escaped(s)
            + "</t></is></c>"@ =~= start + " t=\"inlineStr\">"@
            + "<is><t xml:space=\"preserve\">"@ + escaped(s) + "</t></is></c>"@);
    }
}

proof fn joined_start()
    ensures
        " t=\"inlineStr\"><is><t xml:space=\"preserve\">"@ == " t=\"inlineStr\">"@
            + "<is><t xml:space=\"preserve\">"@,
{
    reveal_strlit(" t=\"inlineStr\"><is><t xml:space=\"preserve\">");
    reveal_strlit(" t=\"inlineStr\">");
    reveal_strlit("<is><t xml:space=\"preserve\">");
    assert(" t=\"inlineStr\"><is><t xml:space=\"preserve\">"@ =~= " t=\"inlineStr\">"@
        + "<is><t xml:space=\"preserve\">"@);
}

/// In a table that can be written, every value can be.
proof fn all_values_can_be_written(rows: Seq<Seq<ValueView>>, i: int, j: int)
    requires
        table_fault(rows) is None,
        0 <= i < rows.len(),
        0 <= j < rows[i].len(),
    ensures
        value_fault(rows[i][j]) is None,
    decreases rows.len(),
{
    if i < rows.len() - 1 {
        assert(rows.drop_last()[i] == rows[i]);
        all_values_can_be_written(rows.drop_last(), i, j);
    } else {
        all_in_row_can_be_written(rows[i], j);
    }
}

proof fn all_in_row_can_be_written(row: Seq<ValueView>, j: int)
    requires
        row_fault(row) is None,
        0 <= j < row.len(),
    ensures
        value_fault(row[j]) is None,
    decreases row.len(),
{
    if j < row.len() - 1 {
        assert(row.drop_last()[j] == row[j]);
        all_in_row_can_be_written(row.drop_last(), j);
    }
}

/// The new sheet data holds every value of the new rows that is not blank: in the row with the number
/// of its row stands a cell with its reference, and that holds the value.
#[verifier::rlimit(80)]
#[verifier::spinoff_prover]
pub proof fn values_are_written(nodes: Seq<NodeView>, rows: Seq<Seq<ValueView>>, r: int, c: int)
    requires
        sheet_changes(nodes, rows) is Ok,
        1 <= r <= rows.len(),
        1 <= c <= rows[r - 1].len(),
        rows[r - 1][c - 1] != ValueView::Blank,
        rows[r - 1][c - 1] != ValueView::Text(Seq::<char>::empty()),
    ensures
        exists|
            lines: Seq<Seq<char>>,
            attributes: Seq<char>,
            cells: Seq<Seq<char>>,
            style: Seq<char>,
        |
            #![trigger is_row_element(lines[r - 1], r, attributes, cells), lines.flatten(), style.len()]
            {
                let reference = column_name(c as nat) + numeral(r as nat);
                let start = "<c r=\""@ + reference + "\""@ + style;
                &&& sheet_changes(nodes, rows)->Ok_0[0].text == "<sheetData>"@ + lines.flatten()
                    + "</sheetData>"@
                &&& lines.len() >= rows.len()
                &&& is_row_element(lines[r - 1], r, attributes, cells)
                &&& cells.len() >= rows[r - 1].len()
                &&& match rows[r - 1][c - 1] {
                    ValueView::Number(Some(n)) => cells[c - 1] == start + " t=\"n\"><v>"@ + n
                        + "</v></c>"@,
                    ValueView::Text(s) => cells[c - 1] == start
                        + " t=\"inlineStr\"><is><t xml:space=\"preserve\">"@ + escaped(s)
                        + "</t></is></c>"@,
                    _ => false,
                }
            },
{
    sheet_data_is_made_of_rows(nodes, rows);
    rows_are_made_of_cells(nodes, rows, r);
    cells_hold_their_values(nodes, rows, r, c);
    let d = first_tagged(nodes, "sheetData"@)->Some_0;
    let old = old_rows(nodes, d, nodes.len())->Ok_0;
    let olds = old_cells(nodes, d, nodes.len());
    let lines = new_rows(nodes, rows);
    let cells = new_cells(nodes, rows, r);
    let attributes = match row_attributes(old, r) {
        Some(s) => s,
        None => Seq::empty(),
    };
    let style = match (style_at(olds, r, c), style_at(olds, 2, c)) {
        (Some(s), _) => " s=\""@ + s + "\""@,
        (None, Some(s)) => " s=\""@ + s + "\""@,
        (None, None) => Seq::empty(),
    };
    let start = "<c r=\""@ + (column_name(c as nat) + numeral(r as nat)) + "\""@ + style;
    joined_start();
    if let ValueView::Text(s) = rows[r - 1][c - 1] {
        assert(start + " t=\"inlineStr\"><is><t xml:space=\"preserve\">"@ + escaped(s)
            + "</t></is></c>"@ =~= start + " t=\"inlineStr\">"@
            + "<is><t xml:space=\"preserve\">"@ + escaped(s) + "</t></is></c>"@);
    }
    assert(is_row_element(lines[r - 1], r, attributes, cells));
    assert(style.len() >= 0);
}

/// Whether a value can be written: it is no number that is not finite, and no text with a character
/// below the space that is no tab or line end, or with one of two others that XML does not allow.
pub open spec fn writable(v: ValueView) -> bool {
    match v {
        ValueView::Number(n) => n is Some,
        ValueView::Text(s) => forall|i: int|
            0 <= i < s.len() ==> {
                let u = (#[trigger] s[i]) as int;
                (u >= 32 || u == 9 || u == 10 || u == 13) && u != 65534 && u != 65535
            },
        ValueView::Blank => true,
    }
}

proof fn writable_values(v: ValueView)
    ensures
        writable(v) <==> value_fault(v) is None,
        v is Number && !writable(v) ==> value_fault(v) == Some(SheetErrorView::NotFinite),
        v is Text && !writable(v) ==> value_fault(v) == Some(SheetErrorView::Control),
{
    if let ValueView::Text(s) = v {
        assert('\u{fffe}' as int == 65534 && '\u{ffff}' as int == 65535);
        if holds_forbidden(s) {
            let i = choose|i: int| 0 <= i < s.len() && forbidden(#[trigger] s[i]);
            let u = s[i] as int;
            assert(!((u >= 32 || u == 9 || u == 10 || u == 13) && u != 65534 && u != 65535));
        } else {
            assert forall|i: int| 0 <= i < s.len() implies {
                let u = (#[trigger] s[i]) as int;
                (u >= 32 || u == 9 || u == 10 || u == 13) && u != 65534 && u != 65535
            } by {
                assert(!forbidden(s[i]));
            }
        }
    }
}

/// A worksheet with sheet data whose rows can be read is filled where all values can be written; where
/// one cannot, that is told of the first such, row by row.
pub proof fn values_that_cannot_be_written_are_told(
    nodes: Seq<NodeView>,
    rows: Seq<Seq<ValueView>>,
)
    ensures
        match first_tagged(nodes, "sheetData"@) {
            None => sheet_changes(nodes, rows) == Err::<Seq<EditView>, SheetErrorView>(
                SheetErrorView::NoData,
            ),
            Some(d) => match old_rows(nodes, d, nodes.len()) {
                Err(e) => sheet_changes(nodes, rows) == Err::<Seq<EditView>, SheetErrorView>(
                    SheetErrorView::Row(e),
                ),
                Ok(_) => match sheet_changes(nodes, rows) {
                    Ok(_) => forall|i: int, j: int|
                        0 <= i < rows.len() && 0 <= j < rows[i].len() ==> writable(
                            #[trigger] rows[i][j],
                        ),
                    Err(e) => exists|i: int, j: int|
                        0 <= i < rows.len() && 0 <= j < rows[i].len() && !writable(
                            #[trigger] rows[i][j],
                        ) && e == (if rows[i][j] is Number {
                            SheetErrorView::NotFinite
                        } else {
                            SheetErrorView::Control
                        }) && forall|k: int, l: int|
                            0 <= k <= i && 0 <= l < rows[k].len() && (k < i || l < j) ==> writable(
                                #[trigger] rows[k][l],
                            ),
                },
            },
        },
{
    if first_tagged(nodes, "sheetData"@) is Some && old_rows(
        nodes,
        first_tagged(nodes, "sheetData"@)->Some_0,
        nodes.len(),
    ) is Ok {
        match table_fault(rows) {
            None => {
                assert forall|i: int, j: int|
                    0 <= i < rows.len() && 0 <= j < rows[i].len() implies writable(
                    #[trigger] rows[i][j],
                ) by {
                    all_values_can_be_written(rows, i, j);
                    writable_values(rows[i][j]);
                }
            },
            Some(_) => {
                let (i, j) = first_fault(rows);
                assert(!writable(rows[i][j]));
            },
        }
    }
}

proof fn first_fault_in_row(row: Seq<ValueView>) -> (j: int)
    requires
        row_fault(row) is Some,
    ensures
        0 <= j < row.len(),
        !writable(row[j]),
        row_fault(row) == value_fault(row[j]),
        row_fault(row) == Some(
            if row[j] is Number {
                SheetErrorView::NotFinite
            } else {
                SheetErrorView::Control
            },
        ),
        forall|l: int| 0 <= l < j ==> writable(#[trigger] row[l]),
    decreases row.len(),
{
    let rest = row.drop_last();
    let j = if row_fault(rest) is Some {
        first_fault_in_row(rest)
    } else {
        row.len() - 1
    };
    writable_values(row[j]);
    assert forall|l: int| 0 <= l < j implies writable(#[trigger] row[l]) by {
        assert(rest[l] == row[l]);
        if row_fault(rest) is None {
            all_in_row_can_be_written(rest, l);
            writable_values(row[l]);
        }
    }
    j
}

proof fn first_fault(rows: Seq<Seq<ValueView>>) -> (r: (int, int))
    requires
        table_fault(rows) is Some,
    ensures
        0 <= r.0 < rows.len(),
        0 <= r.1 < rows[r.0].len(),
        !writable(rows[r.0][r.1]),
        table_fault(rows) == Some(
            if rows[r.0][r.1] is Number {
                SheetErrorView::NotFinite
            } else {
                SheetErrorView::Control
            },
        ),
        forall|k: int, l: int|
            0 <= k <= r.0 && 0 <= l < rows[k].len() && (k < r.0 || l < r.1) ==> writable(
                #[trigger] rows[k][l],
            ),
    decreases rows.len(),
{
    let rest = rows.drop_last();
    if table_fault(rest) is Some {
        let r = first_fault(rest);
        assert forall|k: int, l: int|
            0 <= k <= r.0 && 0 <= l < rows[k].len() && (k < r.0 || l < r.1) implies writable(
            #[trigger] rows[k][l],
        ) by {
            assert(rest[k] == rows[k]);
            assert(writable(rest[k][l]));
        }
        r
    } else {
        let i = rows.len() - 1;
        let j = first_fault_in_row(rows[i]);
        assert forall|k: int, l: int|
            0 <= k <= i && 0 <= l < rows[k].len() && (k < i || l < j) implies writable(
            #[trigger] rows[k][l],
        ) by {
            if k < i {
                assert(rest[k] == rows[k]);
                all_values_can_be_written(rest, k, l);
                writable_values(rows[k][l]);
            }
        }
        (i, j)
    }
}

/// The dimension reaches from the first cell to the last column of the new rows and of the styled
/// cells, and to the last of the new and of the old rows.
pub proof fn dimensions_reach_to_the_end(nodes: Seq<NodeView>, rows: Seq<Seq<ValueView>>)
    requires
        sheet_changes(nodes, rows) is Ok,
        first_tagged(nodes, "dimension"@) is Some,
    ensures
        ({
            let d = first_tagged(nodes, "sheetData"@)->Some_0;
            let old = old_rows(nodes, d, nodes.len())->Ok_0;
            let cells = old_cells(nodes, d, nodes.len());
            exists|w: nat, h: nat|
                #![trigger column_name(w), numeral(h)]
                {
                    &&& sheet_changes(nodes, rows)->Ok_0[1].text == "<dimension ref=\"A1:"@
                        + column_name(w) + numeral(h) + "\"/>"@
                    &&& forall|i: int| 0 <= i < rows.len() ==> (#[trigger] rows[i]).len() <= w
                    &&& forall|k: int| 0 <= k < cells.len() ==> (#[trigger] cells[k]).1 <= w
                    &&& (w == 1 && (rows.len() == 0 || cells.len() == 0)) || (exists|i: int|
                        0 <= i < rows.len() && (#[trigger] rows[i]).len() == w) || (exists|k: int|
                        0 <= k < cells.len() && (#[trigger] cells[k]).1 == w)
                    &&& h >= 1
                    &&& h >= rows.len()
                    &&& forall|k: int| 0 <= k < old.len() ==> (#[trigger] old[k]).0 <= h
                    &&& h == 1 || h == rows.len() || exists|k: int|
                        0 <= k < old.len() && (#[trigger] old[k]).0 == h
                }
        }),
{
    let d = first_tagged(nodes, "sheetData"@)->Some_0;
    let old = old_rows(nodes, d, nodes.len())->Ok_0;
    let cells = old_cells(nodes, d, nodes.len());
    bounds_are_reached(old, cells, 1);
    longest_is_greatest(rows);
    columns_are_not_negative(nodes, d, nodes.len());
    let wide = larger(or_one(longest(rows)), or_one(widest(cells)));
    if cells.len() > 0 {
        assert(cells[0].1 >= 0);
        assert(cells[0].1 <= widest(cells)->Some_0);
    }
    let w = wide as nat;
    let h = larger(final_row(old, rows), 1) as nat;
    assert(sheet_changes(nodes, rows)->Ok_0[1].text == "<dimension ref=\"A1:"@ + column_name(w)
        + numeral(h) + "\"/>"@);
}

proof fn columns_are_not_negative(nodes: Seq<NodeView>, d: int, n: nat)
    ensures
        forall|k: int|
            0 <= k < old_cells(nodes, d, n).len() ==> (#[trigger] old_cells(nodes, d, n)[k]).1 >= 0,
    decreases n,
{
    if n > 0 {
        columns_are_not_negative(nodes, d, (n - 1) as nat);
        let before = old_cells(nodes, d, (n - 1) as nat);
        let cells = old_cells(nodes, d, n);
        assert forall|k: int| 0 <= k < cells.len() implies (#[trigger] cells[k]).1 >= 0 by {
            if k < before.len() {
                assert(cells[k] == before[k]);
            }
        }
    }
}

proof fn longest_is_greatest(rows: Seq<Seq<ValueView>>)
    ensures
        match longest(rows) {
            None => rows.len() == 0,
            Some(w) => (forall|i: int| 0 <= i < rows.len() ==> (#[trigger] rows[i]).len() <= w)
                && exists|i: int| 0 <= i < rows.len() && (#[trigger] rows[i]).len() == w,
        },
    decreases rows.len(),
{
    if rows.len() > 0 {
        let rest = rows.drop_last();
        let last = rows.len() - 1;
        longest_is_greatest(rest);
        let w = longest(rows)->Some_0;
        assert forall|i: int| 0 <= i < rows.len() implies (#[trigger] rows[i]).len() <= w by {
            if i < last {
                assert(rest[i] == rows[i]);
            }
        }
        if rows[last].len() != w {
            let i = choose|i: int| 0 <= i < rest.len() && (#[trigger] rest[i]).len() == w;
            assert(rows[i] == rest[i]);
        } else {
            assert(rows[last].len() == w);
        }
    }
}

/// Rows are refused where there are more than 1048576 of them or one has more than 16384 cells, and for
/// no other reason before the worksheet is looked at.
pub proof fn worksheets_have_limits(xml: Seq<char>, rows: Seq<Seq<ValueView>>)
    ensures
        rows.len() > 1048576 || (exists|i: int|
            0 <= i < rows.len() && (#[trigger] rows[i]).len() > 16384) ==> patched(xml, rows)
            == Err::<Seq<char>, SheetErrorView>(SheetErrorView::TooLarge),
        patched(xml, rows) == Err::<Seq<char>, SheetErrorView>(SheetErrorView::TooLarge)
            ==> rows.len() > 1048576 || (exists|i: int|
            0 <= i < rows.len() && (#[trigger] rows[i]).len() > 16384),
{
    if let Ok(nodes) = xml_nodes(xml) {
        values_that_cannot_be_written_are_told(nodes, rows);
    }
}

/// A worksheet that is filled was parsed, was given its new sheet data and its new dimension, and can
/// be parsed again.
pub proof fn filled_worksheets_hold_the_changes(xml: Seq<char>, rows: Seq<Seq<ValueView>>)
    requires
        patched(xml, rows) is Ok,
    ensures
        xml_nodes(xml) matches Ok(nodes) && {
            let parts = sheet_changes(nodes, rows)->Ok_0;
            let d = first_tagged(nodes, "sheetData"@)->Some_0;
            &&& sheet_changes(nodes, rows) is Ok
            &&& patched(xml, rows)->Ok_0 == edited(xml, parts)
            &&& xml_nodes(patched(xml, rows)->Ok_0) is Ok
            &&& parts[0].start == nodes[d].start && parts[0].end == nodes[d].end
            &&& match first_tagged(nodes, "dimension"@) {
                None => parts.len() == 1,
                Some(m) => parts.len() == 2 && parts[1].start == nodes[m].start && parts[1].end
                    == nodes[m].end,
            }
        },
{
}

/// A worksheet that cannot be parsed, before or behind its changes, is refused with the message of the
/// parser, and one that cannot be changed for that reason.
pub proof fn worksheets_are_refused(xml: Seq<char>, rows: Seq<Seq<ValueView>>)
    requires
        rows.len() <= 1048576,
        forall|i: int| 0 <= i < rows.len() ==> (#[trigger] rows[i]).len() <= 16384,
    ensures
        match xml_nodes(xml) {
            Err(m) => patched(xml, rows) == Err::<Seq<char>, SheetErrorView>(SheetErrorView::Xml(m)),
            Ok(nodes) => match sheet_changes(nodes, rows) {
                Err(e) => patched(xml, rows) == Err::<Seq<char>, SheetErrorView>(e),
                Ok(parts) => match xml_nodes(edited(xml, parts)) {
                    Err(m) => patched(xml, rows) == Err::<Seq<char>, SheetErrorView>(
                        SheetErrorView::Invalid(m),
                    ),
                    Ok(_) => patched(xml, rows) == Ok::<Seq<char>, SheetErrorView>(
                        edited(xml, parts),
                    ),
                },
            },
        },
{
}

/// What is said of a worksheet that is not filled: the words are fixed, and what they are
/// about stands in them as it is.
pub proof fn faults_of_worksheets_are_worded(error: SheetErrorView)
    ensures
        match error {
            SheetErrorView::TooLarge => error.words() == "源数据超出 Excel 工作表行列限制"@,
            SheetErrorView::Xml(m) => error.words() == m,
            SheetErrorView::NoData => error.words() == "工作表没有 sheetData"@,
            SheetErrorView::Row(RowError::Missing) => error.words() == "row missing r"@,
            SheetErrorView::Row(RowError::Unreadable(f)) => error.words() == f.words(),
            SheetErrorView::NotFinite => error.words() == "不能写入非有限数值"@,
            SheetErrorView::Control => error.words() == "源报告包含 XML 不允许的控制字符"@,
            SheetErrorView::Invalid(m) => stands_between(
                error.words(),
                "生成的工作表 XML 无效"@ + ": "@,
                m,
                Seq::<char>::empty(),
            ),
        },
{
}

} // verus!
