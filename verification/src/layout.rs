//! What a worksheet looked like: the attributes of its rows and the styles of its cells.

use crate::column::{col_number, column_of};
use crate::escape::{attributes_text, attrs, names};
use crate::text::{parse_unsigned, read_fault, read_unsigned, same, unsigned_fault, Fault};
use crate::xml::{attribute, attribute_of, nodes_view, NodeView, XmlNode};
use std::collections::BTreeMap;
use vstd::prelude::*;

verus! {

/// Why the rows of a worksheet cannot be read.
#[derive(Clone, Copy, Debug, PartialEq, Eq, Structural)]
pub enum RowError {
    /// A row has no number.
    Missing,
    /// The number of a row is none.
    Unreadable(Fault),
}

/// A row: its number and its other attributes as they are written.
pub type RowView = (int, Seq<char>);

/// A cell with a style: its row, its column and its style.
pub type CellView = (int, int, Seq<char>);

/// Whether node `i` is a row of the sheet data at node `data`.
pub open spec fn is_row(nodes: Seq<NodeView>, data: int, i: int) -> bool {
    nodes[i].parent == Some(data) && nodes[i].tag == "row"@
}

/// The number of a row.
pub open spec fn row_number(node: NodeView) -> Result<int, RowError> {
    match attribute_of(node.attributes, None, "r"@) {
        None => Err(RowError::Missing),
        Some(s) => match read_unsigned(s, usize::MAX as nat) {
            Some(n) => Ok(n as int),
            None => Err(RowError::Unreadable(read_fault(s, usize::MAX as nat))),
        },
    }
}

/// The rows among the first `n` nodes, in document order.
pub open spec fn old_rows(nodes: Seq<NodeView>, data: int, n: nat) -> Result<Seq<RowView>, RowError>
    decreases n,
{
    if n == 0 {
        Ok(Seq::empty())
    } else {
        match old_rows(nodes, data, (n - 1) as nat) {
            Err(e) => Err(e),
            Ok(rows) => if is_row(nodes, data, n - 1) {
                match row_number(nodes[n - 1]) {
                    Err(e) => Err(e),
                    Ok(k) => Ok(
                        rows.push(
                            (k, attributes_text(nodes[n - 1].attributes, seq!["r"@, "spans"@])),
                        ),
                    ),
                }
            } else {
                Ok(rows)
            },
        }
    }
}

/// The cell that node `i` is, where it is a cell of a row and has a style and a reference.
pub open spec fn cell_of(nodes: Seq<NodeView>, data: int, i: int) -> Option<CellView> {
    let node = nodes[i];
    match (
        node.parent,
        attribute_of(node.attributes, None, "s"@),
        attribute_of(node.attributes, None, "r"@),
    ) {
        (Some(p), Some(style), Some(reference)) => if 0 <= p < nodes.len() && is_row(nodes, data, p)
            && node.tag == "c"@ {
            match row_number(nodes[p]) {
                Ok(k) => Some((k, (column_of(reference) % (usize::MAX as nat + 1)) as int, style)),
                Err(_) => None,
            }
        } else {
            None
        },
        _ => None,
    }
}

/// The cells with a style among the first `n` nodes, in document order.
pub open spec fn old_cells(nodes: Seq<NodeView>, data: int, n: nat) -> Seq<CellView>
    decreases n,
{
    if n == 0 {
        Seq::empty()
    } else {
        match cell_of(nodes, data, n - 1) {
            Some(cell) => old_cells(nodes, data, (n - 1) as nat).push(cell),
            None => old_cells(nodes, data, (n - 1) as nat),
        }
    }
}

/// The attributes of row `r`, as the last row with that number has them.
pub open spec fn row_attributes(rows: Seq<RowView>, r: int) -> Option<Seq<char>>
    decreases rows.len(),
{
    if rows.len() == 0 {
        None
    } else if rows.last().0 == r {
        Some(rows.last().1)
    } else {
        row_attributes(rows.drop_last(), r)
    }
}

/// The greatest number of a row, zero where there is none.
pub open spec fn last_row(rows: Seq<RowView>) -> int
    decreases rows.len(),
{
    if rows.len() == 0 {
        0
    } else if rows.last().0 > last_row(rows.drop_last()) {
        rows.last().0
    } else {
        last_row(rows.drop_last())
    }
}

/// The style in row `r` and column `c`, as the last cell there has it.
pub open spec fn style_at(cells: Seq<CellView>, r: int, c: int) -> Option<Seq<char>>
    decreases cells.len(),
{
    if cells.len() == 0 {
        None
    } else if cells.last().0 == r && cells.last().1 == c {
        Some(cells.last().2)
    } else {
        style_at(cells.drop_last(), r, c)
    }
}

/// The greatest column of a cell in row `r`, zero where there is none.
pub open spec fn row_width(cells: Seq<CellView>, r: int) -> int
    decreases cells.len(),
{
    if cells.len() == 0 {
        0
    } else if cells.last().0 == r && cells.last().1 > row_width(cells.drop_last(), r) {
        cells.last().1
    } else {
        row_width(cells.drop_last(), r)
    }
}

/// The greatest column of a cell, if there is a cell.
pub open spec fn widest(cells: Seq<CellView>) -> Option<int>
    decreases cells.len(),
{
    if cells.len() == 0 {
        None
    } else {
        match widest(cells.drop_last()) {
            Some(w) => if cells.last().1 > w {
                Some(cells.last().1)
            } else {
                Some(w)
            },
            None => Some(cells.last().1),
        }
    }
}

/// A cell with a style.
pub struct OldCell {
    pub row: usize,
    pub column: usize,
    pub style: String,
}

/// The rows and the styled cells of a worksheet, each row's found by its number: `newest` holds
/// the place of the last one, and `older` leads from each to the one before it.
pub struct Layout {
    rows: Vec<(usize, String)>,
    newest_row: BTreeMap<usize, usize>,
    cells: Vec<OldCell>,
    newest_cell: BTreeMap<usize, usize>,
    older_cell: Vec<Option<usize>>,
}

/// The cells of a list, each by its view.
pub open spec fn cells_view(cells: Seq<OldCell>) -> Seq<CellView> {
    Seq::new(
        cells.len(),
        |i: int| (cells[i].row as int, cells[i].column as int, cells[i].style@),
    )
}

/// The rows of a list, each by its view.
pub open spec fn rows_view(rows: Seq<(usize, String)>) -> Seq<RowView> {
    Seq::new(rows.len(), |i: int| (rows[i].0 as int, rows[i].1@))
}

/// Whether `newest` holds for each row number the last place in `numbers` where it stands.
spec fn indexed(numbers: Seq<int>, newest: Map<usize, usize>) -> bool {
    &&& forall|r: usize| #[trigger]
        newest.contains_key(r) ==> newest[r] < numbers.len() && numbers[newest[r] as int] == r
            && forall|j: int| newest[r] < j < numbers.len() ==> numbers[j] != r
    &&& forall|r: usize, j: int|
        #![trigger newest.contains_key(r), numbers[j]]
        !newest.contains_key(r) && 0 <= j < numbers.len() ==> numbers[j] != r
}

/// Whether `older` leads from each place in `numbers` to the last one before it with the same
/// number.
spec fn linked(numbers: Seq<int>, older: Seq<Option<usize>>) -> bool {
    &&& older.len() == numbers.len()
    &&& forall|i: int|
        0 <= i < older.len() ==> match #[trigger] older[i] {
            Some(k) => k < i && numbers[k as int] == numbers[i] && forall|j: int|
                k < j < i ==> numbers[j] != numbers[i],
            None => forall|j: int| 0 <= j < i ==> numbers[j] != numbers[i],
        }
}

/// The row numbers of cells.
spec fn cell_rows(cells: Seq<CellView>) -> Seq<int> {
    Seq::new(cells.len(), |i: int| cells[i].0)
}

/// The row numbers of rows.
spec fn row_numbers(rows: Seq<RowView>) -> Seq<int> {
    Seq::new(rows.len(), |i: int| rows[i].0)
}

/// Cells of other rows say nothing of row `r`.
proof fn other_rows_do_not_count(cells: Seq<CellView>, r: int, c: int, m: int, n: int)
    requires
        0 <= m <= n <= cells.len(),
        forall|j: int| m <= j < n ==> (#[trigger] cells[j]).0 != r,
    ensures
        style_at(cells.take(n), r, c) == style_at(cells.take(m), r, c),
        row_width(cells.take(n), r) == row_width(cells.take(m), r),
    decreases n - m,
{
    if m < n {
        other_rows_do_not_count(cells, r, c, m, n - 1);
        assert(cells.take(n).drop_last() =~= cells.take(n - 1));
    }
}

impl Layout {
    /// The rows, in document order.
    pub closed spec fn old_rows(&self) -> Seq<RowView> {
        rows_view(self.rows@)
    }

    /// The cells with a style, in document order.
    pub closed spec fn old_cells(&self) -> Seq<CellView> {
        cells_view(self.cells@)
    }

    /// Whether rows and cells are found by their numbers.
    pub closed spec fn wf(&self) -> bool {
        &&& indexed(row_numbers(self.old_rows()), self.newest_row@)
        &&& indexed(cell_rows(self.old_cells()), self.newest_cell@)
        &&& linked(cell_rows(self.old_cells()), self.older_cell@)
    }

    /// A layout without rows.
    fn new() -> (r: Self)
        ensures
            r.wf(),
            r.old_rows() == Seq::<RowView>::empty(),
            r.old_cells() == Seq::<CellView>::empty(),
    {
        Layout {
            rows: Vec::new(),
            newest_row: BTreeMap::new(),
            cells: Vec::new(),
            newest_cell: BTreeMap::new(),
            older_cell: Vec::new(),
        }
    }

    /// Adds a row.
    fn add_row(&mut self, number: usize, attributes: String)
        requires
            old(self).wf(),
        ensures
            final(self).wf(),
            final(self).old_rows() == old(self).old_rows().push((number as int, attributes@)),
            final(self).old_cells() == old(self).old_cells(),
    {
        let ghost before = self.old_rows();
        let at: usize = self.rows.len();
        self.rows.push((number, attributes));
        self.newest_row.insert(number, at);
        assert(self.old_rows() =~= before.push((number as int, attributes@)));
        assert(row_numbers(self.old_rows()) =~= row_numbers(before).push(number as int));
    }

    /// Adds a cell.
    fn add_cell(&mut self, row: usize, column: usize, style: String)
        requires
            old(self).wf(),
        ensures
            final(self).wf(),
            final(self).old_rows() == old(self).old_rows(),
            final(self).old_cells() == old(self).old_cells().push(
                (row as int, column as int, style@),
            ),
    {
        let ghost before = self.old_cells();
        let at: usize = self.cells.len();
        let older: Option<usize> = match self.newest_cell.get(&row) {
            Some(k) => Some(*k),
            None => None,
        };
        self.cells.push(OldCell { row, column, style });
        self.older_cell.push(older);
        self.newest_cell.insert(row, at);
        assert(self.old_cells() =~= before.push((row as int, column as int, style@)));
        assert(cell_rows(self.old_cells()) =~= cell_rows(before).push(row as int));
    }

    /// The attributes of row `r`.
    pub fn attributes(&self, r: usize) -> (s: Option<&String>)
        requires
            self.wf(),
        ensures
            row_attributes(self.old_rows(), r as int) == (match s {
                Some(t) => Some(t@),
                None => None,
            }),
    {
        let ghost rows = self.old_rows();
        assert(rows.take(rows.len() as int) =~= rows);
        match self.newest_row.get(&r) {
            Some(k) => {
                proof {
                    assert forall|j: int| *k < j < rows.len() implies (#[trigger] rows[j]).0 != r by {
                        assert(row_numbers(rows)[j] != r);
                    }
                    assert(row_numbers(rows)[*k as int] == r);
                    last_attributes_count(rows, r as int, *k as int, rows.len() as int);
                }
                Some(&self.rows[*k].1)
            },
            None => {
                proof {
                    assert forall|j: int| 0 <= j < rows.len() implies (#[trigger] rows[j]).0 != r by {
                        assert(row_numbers(rows)[j] != r as int);
                    }
                    no_attributes(rows, r as int, rows.len() as int);
                }
                None
            },
        }
    }

    /// The style in row `r` and column `c`.
    pub fn style(&self, r: usize, c: usize) -> (s: Option<&String>)
        requires
            self.wf(),
        ensures
            style_at(self.old_cells(), r as int, c as int) == (match s {
                Some(t) => Some(t@),
                None => None,
            }),
    {
        let ghost cells = self.old_cells();
        assert(cells.take(cells.len() as int) =~= cells);
        let mut m: usize = self.newest(r);
        proof {
            other_rows_do_not_count(cells, r as int, c as int, m as int, cells.len() as int);
        }
        while m > 0
            invariant
                self.wf(),
                cells == self.old_cells(),
                m <= cells.len(),
                m > 0 ==> cells[m - 1].0 == r,
                style_at(cells, r as int, c as int) == style_at(
                    cells.take(m as int),
                    r as int,
                    c as int,
                ),
            decreases m,
        {
            let k: usize = m - 1;
            assert(cells.take(k + 1).drop_last() =~= cells.take(k as int));
            if self.cells[k].column == c {
                return Some(&self.cells[k].style);
            }
            m = self.older(k);
            proof {
                other_rows_do_not_count(cells, r as int, c as int, m as int, k as int);
            }
        }
        None
    }

    /// The greatest column of a cell in row `r`, zero where there is none.
    pub fn width(&self, r: usize) -> (w: usize)
        requires
            self.wf(),
        ensures
            w == row_width(self.old_cells(), r as int),
    {
        let ghost cells = self.old_cells();
        assert(cells.take(cells.len() as int) =~= cells);
        let mut m: usize = self.newest(r);
        let mut w: usize = 0;
        proof {
            other_rows_do_not_count(cells, r as int, 0, m as int, cells.len() as int);
            width_is_not_negative(cells.take(m as int), r as int);
        }
        while m > 0
            invariant
                self.wf(),
                cells == self.old_cells(),
                m <= cells.len(),
                m > 0 ==> cells[m - 1].0 == r,
                row_width(cells, r as int) == larger(
                    w as int,
                    row_width(cells.take(m as int), r as int),
                ),
            decreases m,
        {
            let k: usize = m - 1;
            assert(cells.take(k + 1).drop_last() =~= cells.take(k as int));
            if self.cells[k].column > w {
                w = self.cells[k].column;
            }
            m = self.older(k);
            proof {
                other_rows_do_not_count(cells, r as int, 0, m as int, k as int);
            }
        }
        w
    }

    /// How many cells there are up to the last one of row `r`, zero where it has none.
    fn newest(&self, r: usize) -> (m: usize)
        requires
            self.wf(),
        ensures
            m <= self.old_cells().len(),
            m > 0 ==> self.old_cells()[m - 1].0 == r,
            forall|j: int|
                m <= j < self.old_cells().len() ==> (#[trigger] self.old_cells()[j]).0 != r,
    {
        let ghost cells = self.old_cells();
        let count: usize = self.cells.len();
        match self.newest_cell.get(&r) {
            Some(k) => {
                assert(*k < count);
                assert forall|j: int| *k < j < cells.len() implies (#[trigger] cells[j]).0 != r by {
                    assert(cell_rows(cells)[j] != r);
                }
                assert(cell_rows(cells)[*k as int] == r);
                *k + 1
            },
            None => {
                assert forall|j: int| 0 <= j < cells.len() implies (#[trigger] cells[j]).0 != r by {
                    assert(cell_rows(cells)[j] != r as int);
                }
                0
            },
        }
    }

    /// How many cells there are up to the last one before cell `i` in the same row, zero where
    /// there is none.
    fn older(&self, i: usize) -> (m: usize)
        requires
            self.wf(),
            i < self.old_cells().len(),
        ensures
            m <= i,
            m > 0 ==> self.old_cells()[m - 1].0 == self.old_cells()[i as int].0,
            forall|j: int|
                m <= j < i ==> (#[trigger] self.old_cells()[j]).0 != self.old_cells()[i as int].0,
    {
        let ghost cells = self.old_cells();
        let k: Option<usize> = self.older_cell[i];
        assert(self.older_cell@[i as int] == k);
        let m: usize = match k {
            Some(k) => k + 1,
            None => 0,
        };
        assert(cell_rows(cells)[i as int] == cells[i as int].0);
        assert(m > 0 ==> cell_rows(cells)[m - 1] == cells[m - 1].0);
        assert forall|j: int| m <= j < i implies (#[trigger] cells[j]).0 != cells[i as int].0 by {
            assert(cell_rows(cells)[j] != cell_rows(cells)[i as int]);
        }
        m
    }

    /// The greatest number of a row, zero where there is none.
    pub fn last(&self) -> (n: usize)
        ensures
            n == last_row(self.old_rows()),
    {
        let ghost rows = self.old_rows();
        let mut n: usize = 0;
        let mut i: usize = 0;
        while i < self.rows.len()
            invariant
                rows == self.old_rows(),
                i <= self.rows.len(),
                n == last_row(rows.take(i as int)),
            decreases self.rows.len() - i,
        {
            assert(rows.take(i + 1).drop_last() =~= rows.take(i as int));
            if self.rows[i].0 > n {
                n = self.rows[i].0;
            }
            i = i + 1;
        }
        assert(rows.take(rows.len() as int) =~= rows);
        n
    }

    /// The greatest column of a cell, if there is a cell.
    pub fn widest(&self) -> (w: Option<usize>)
        ensures
            widest(self.old_cells()) == (match w {
                Some(n) => Some(n as int),
                None => None,
            }),
    {
        let ghost cells = self.old_cells();
        let mut w: Option<usize> = None;
        let mut i: usize = 0;
        while i < self.cells.len()
            invariant
                cells == self.old_cells(),
                i <= self.cells.len(),
                widest(cells.take(i as int)) == (match w {
                    Some(n) => Some(n as int),
                    None => None,
                }),
            decreases self.cells.len() - i,
        {
            assert(cells.take(i + 1).drop_last() =~= cells.take(i as int));
            let c: usize = self.cells[i].column;
            w = match w {
                Some(n) => if c > n {
                    Some(c)
                } else {
                    Some(n)
                },
                None => Some(c),
            };
            i = i + 1;
        }
        assert(cells.take(cells.len() as int) =~= cells);
        w
    }
}

/// The larger of two numbers.
pub open spec fn larger(a: int, b: int) -> int {
    if a > b {
        a
    } else {
        b
    }
}

/// Widths are not negative.
proof fn width_is_not_negative(cells: Seq<CellView>, r: int)
    ensures
        row_width(cells, r) >= 0,
    decreases cells.len(),
{
    if cells.len() > 0 {
        width_is_not_negative(cells.drop_last(), r);
    }
}

/// The attributes of row `r` are those of the last row with that number.
proof fn last_attributes_count(rows: Seq<RowView>, r: int, k: int, n: int)
    requires
        0 <= k < n <= rows.len(),
        rows[k].0 == r,
        forall|j: int| k < j < n ==> (#[trigger] rows[j]).0 != r,
    ensures
        row_attributes(rows.take(n), r) == Some(rows[k].1),
    decreases n,
{
    if n > k + 1 {
        assert(rows.take(n).drop_last() =~= rows.take(n - 1));
        last_attributes_count(rows, r, k, n - 1);
    }
}

/// Where no row has the number, there are no attributes.
proof fn no_attributes(rows: Seq<RowView>, r: int, n: int)
    requires
        0 <= n <= rows.len(),
        forall|j: int| 0 <= j < n ==> (#[trigger] rows[j]).0 != r,
    ensures
        row_attributes(rows.take(n), r) is None,
    decreases n,
{
    if n > 0 {
        assert(rows.take(n).drop_last() =~= rows.take(n - 1));
        no_attributes(rows, r, n - 1);
    }
}

/// The first row that cannot be read decides.
proof fn row_errors_stay(nodes: Seq<NodeView>, data: int, m: nat, n: nat)
    requires
        m <= n,
        old_rows(nodes, data, m) is Err,
    ensures
        old_rows(nodes, data, n) == old_rows(nodes, data, m),
    decreases n,
{
    if m < n {
        row_errors_stay(nodes, data, m, (n - 1) as nat);
    }
}

/// Whether node `i` is a row of the sheet data at node `data`.
fn row_at(nodes: &Vec<XmlNode>, data: usize, i: usize) -> (r: bool)
    requires
        i < nodes.len(),
    ensures
        r == is_row(nodes_view(nodes@), data as int, i as int),
{
    match nodes[i].parent {
        Some(p) => p == data && same(nodes[i].tag.as_str(), "row"),
        None => false,
    }
}

/// The number of a row.
fn number_of(node: &XmlNode) -> (r: Result<usize, RowError>)
    ensures
        row_number(node@) == (match r {
            Ok(n) => Ok::<int, RowError>(n as int),
            Err(e) => Err(e),
        }),
{
    match attribute(node, None, "r") {
        None => Err(RowError::Missing),
        Some(s) => match parse_unsigned(s.as_str(), usize::MAX as u64) {
            Some(n) => Ok(n as usize),
            None => Err(RowError::Unreadable(unsigned_fault(s.as_str(), usize::MAX as u64))),
        },
    }
}

/// The rows and the styled cells of the sheet data at node `data`.
pub fn read_layout(nodes: &Vec<XmlNode>, data: usize) -> (r: Result<Layout, RowError>)
    ensures
        match r {
            Ok(layout) => {
                &&& layout.wf()
                &&& old_rows(nodes_view(nodes@), data as int, nodes@.len()) == Ok::<
                    Seq<RowView>,
                    RowError,
                >(layout.old_rows())
                &&& layout.old_cells() == old_cells(
                    nodes_view(nodes@),
                    data as int,
                    nodes@.len(),
                )
            },
            Err(e) => old_rows(nodes_view(nodes@), data as int, nodes@.len()) == Err::<
                Seq<RowView>,
                RowError,
            >(e),
        },
{
    let ghost v = nodes_view(nodes@);
    let ghost d = data as int;
    let mut layout: Layout = Layout::new();
    let mut numbers: Vec<Option<usize>> = Vec::new();
    let mut i: usize = 0;
    while i < nodes.len()
        invariant
            v == nodes_view(nodes@),
            d == data,
            i <= nodes.len(),
            layout.wf(),
            layout.old_cells() == Seq::<CellView>::empty(),
            old_rows(v, d, i as nat) == Ok::<Seq<RowView>, RowError>(layout.old_rows()),
            numbers.len() == i,
            forall|j: int|
                0 <= j < i ==> match #[trigger] numbers@[j] {
                    Some(k) => is_row(v, d, j) && row_number(v[j]) == Ok::<int, RowError>(k as int),
                    None => !is_row(v, d, j),
                },
        decreases nodes.len() - i,
    {
        assert(v[i as int] == nodes@[i as int]@);
        if row_at(nodes, data, i) {
            match number_of(&nodes[i]) {
                Ok(k) => {
                    let skip: Vec<&str> = vec!["r", "spans"];
                    let text: String = attrs(&nodes[i].attributes, skip.as_slice());
                    assert(names(skip@) =~= seq!["r"@, "spans"@]);
                    layout.add_row(k, text);
                    numbers.push(Some(k));
                },
                Err(e) => {
                    proof {
                        row_errors_stay(v, d, (i + 1) as nat, nodes@.len());
                    }
                    return Err(e);
                },
            }
        } else {
            numbers.push(None);
        }
        i = i + 1;
    }
    let mut n: usize = 0;
    while n < nodes.len()
        invariant
            v == nodes_view(nodes@),
            d == data,
            n <= nodes.len(),
            layout.wf(),
            old_rows(v, d, nodes@.len()) == Ok::<Seq<RowView>, RowError>(layout.old_rows()),
            layout.old_cells() == old_cells(v, d, n as nat),
            numbers.len() == nodes.len(),
            forall|j: int|
                0 <= j < numbers.len() ==> match #[trigger] numbers@[j] {
                    Some(k) => is_row(v, d, j) && row_number(v[j]) == Ok::<int, RowError>(k as int),
                    None => !is_row(v, d, j),
                },
        decreases nodes.len() - n,
    {
        let node: &XmlNode = &nodes[n];
        assert(v[n as int] == node@);
        match (node.parent, attribute(node, None, "s"), attribute(node, None, "r")) {
            (Some(p), Some(style), Some(reference)) => {
                if p < numbers.len() && same(node.tag.as_str(), "c") {
                    match numbers[p] {
                        Some(k) => {
                            let c: usize = col_number(reference.as_str());
                            layout.add_cell(k, c, style.clone());
                        },
                        None => {},
                    }
                }
            },
            _ => {},
        }
        n = n + 1;
    }
    Ok(layout)
}

/// A style is that of the last of the cells in its row and its column, and there is none only where
/// there is no such cell.
pub proof fn the_last_style_counts(cells: Seq<CellView>, r: int, c: int)
    ensures
        match style_at(cells, r, c) {
            Some(s) => exists|k: int|
                0 <= k < cells.len() && #[trigger] cells[k] == (r, c, s) && forall|j: int|
                    k < j < cells.len() ==> (#[trigger] cells[j]).0 != r || cells[j].1 != c,
            None => forall|j: int|
                0 <= j < cells.len() ==> (#[trigger] cells[j]).0 != r || cells[j].1 != c,
        },
    decreases cells.len(),
{
    if cells.len() > 0 {
        let rest = cells.drop_last();
        let last = cells.len() - 1;
        if cells[last].0 == r && cells[last].1 == c {
            assert(cells[last] == (r, c, cells[last].2));
        } else {
            the_last_style_counts(rest, r, c);
            match style_at(rest, r, c) {
                Some(s) => {
                    let k = choose|k: int|
                        0 <= k < rest.len() && #[trigger] rest[k] == (r, c, s) && forall|j: int|
                            k < j < rest.len() ==> (#[trigger] rest[j]).0 != r || rest[j].1 != c;
                    assert(cells[k] == rest[k]);
                    assert forall|j: int| k < j < cells.len() implies (#[trigger] cells[j]).0 != r
                        || cells[j].1 != c by {
                        if j < last {
                            assert(rest[j] == cells[j]);
                        }
                    }
                },
                None => {
                    assert forall|j: int| 0 <= j < cells.len() implies (#[trigger] cells[j]).0 != r
                        || cells[j].1 != c by {
                        if j < last {
                            assert(rest[j] == cells[j]);
                        }
                    }
                },
            }
        }
    }
}

/// The attributes of a row are those of the last of the rows with its number, and there are none only
/// where there is no such row.
pub proof fn the_last_attributes_count(rows: Seq<RowView>, r: int)
    ensures
        match row_attributes(rows, r) {
            Some(s) => exists|k: int|
                0 <= k < rows.len() && #[trigger] rows[k] == (r, s) && forall|j: int|
                    k < j < rows.len() ==> (#[trigger] rows[j]).0 != r,
            None => forall|j: int| 0 <= j < rows.len() ==> (#[trigger] rows[j]).0 != r,
        },
    decreases rows.len(),
{
    if rows.len() > 0 {
        let rest = rows.drop_last();
        let last = rows.len() - 1;
        if rows[last].0 == r {
            assert(rows[last] == (r, rows[last].1));
        } else {
            the_last_attributes_count(rest, r);
            match row_attributes(rest, r) {
                Some(s) => {
                    let k = choose|k: int|
                        0 <= k < rest.len() && #[trigger] rest[k] == (r, s) && forall|j: int|
                            k < j < rest.len() ==> (#[trigger] rest[j]).0 != r;
                    assert(rows[k] == rest[k]);
                    assert forall|j: int| k < j < rows.len() implies (#[trigger] rows[j]).0 != r by {
                        if j < last {
                            assert(rest[j] == rows[j]);
                        }
                    }
                },
                None => {
                    assert forall|j: int| 0 <= j < rows.len() implies (#[trigger] rows[j]).0 != r by {
                        if j < last {
                            assert(rest[j] == rows[j]);
                        }
                    }
                },
            }
        }
    }
}

/// The last row has the greatest number of all rows, a row is as wide as its last cell, and so is the
/// worksheet.
pub proof fn bounds_are_reached(rows: Seq<RowView>, cells: Seq<CellView>, r: int)
    ensures
        forall|j: int| 0 <= j < rows.len() ==> (#[trigger] rows[j]).0 <= last_row(rows),
        last_row(rows) >= 0,
        last_row(rows) > 0 ==> exists|j: int|
            0 <= j < rows.len() && (#[trigger] rows[j]).0 == last_row(rows),
        forall|j: int|
            0 <= j < cells.len() && (#[trigger] cells[j]).0 == r ==> cells[j].1 <= row_width(
                cells,
                r,
            ),
        row_width(cells, r) >= 0,
        row_width(cells, r) > 0 ==> exists|j: int|
            0 <= j < cells.len() && (#[trigger] cells[j]).0 == r && cells[j].1 == row_width(cells, r),
        match widest(cells) {
            None => cells.len() == 0,
            Some(w) => (forall|j: int| 0 <= j < cells.len() ==> (#[trigger] cells[j]).1 <= w)
                && exists|j: int| 0 <= j < cells.len() && (#[trigger] cells[j]).1 == w,
        },
{
    last_row_is_greatest(rows);
    row_width_is_greatest(cells, r);
    widest_is_greatest(cells);
}

proof fn last_row_is_greatest(rows: Seq<RowView>)
    ensures
        forall|j: int| 0 <= j < rows.len() ==> (#[trigger] rows[j]).0 <= last_row(rows),
        last_row(rows) >= 0,
        last_row(rows) > 0 ==> exists|j: int|
            0 <= j < rows.len() && (#[trigger] rows[j]).0 == last_row(rows),
    decreases rows.len(),
{
    if rows.len() > 0 {
        let rest = rows.drop_last();
        let last = rows.len() - 1;
        last_row_is_greatest(rest);
        assert forall|j: int| 0 <= j < rows.len() implies (#[trigger] rows[j]).0 <= last_row(rows) by {
            if j < last {
                assert(rest[j] == rows[j]);
            }
        }
        if last_row(rows) > 0 {
            if rows[last].0 > last_row(rest) {
                assert(rows[last].0 == last_row(rows));
            } else {
                let j = choose|j: int|
                    0 <= j < rest.len() && (#[trigger] rest[j]).0 == last_row(rest);
                assert(rows[j].0 == last_row(rows));
            }
        }
    }
}

proof fn row_width_is_greatest(cells: Seq<CellView>, r: int)
    ensures
        forall|j: int|
            0 <= j < cells.len() && (#[trigger] cells[j]).0 == r ==> cells[j].1 <= row_width(
                cells,
                r,
            ),
        row_width(cells, r) >= 0,
        row_width(cells, r) > 0 ==> exists|j: int|
            0 <= j < cells.len() && (#[trigger] cells[j]).0 == r && cells[j].1 == row_width(cells, r),
    decreases cells.len(),
{
    if cells.len() > 0 {
        let rest = cells.drop_last();
        let last = cells.len() - 1;
        row_width_is_greatest(rest, r);
        assert forall|j: int| 0 <= j < cells.len() && (#[trigger] cells[j]).0 == r implies cells[j].1
            <= row_width(cells, r) by {
            if j < last {
                assert(rest[j] == cells[j]);
            }
        }
        if row_width(cells, r) > 0 {
            if cells[last].0 == r && cells[last].1 > row_width(rest, r) {
                assert(cells[last].1 == row_width(cells, r));
            } else {
                let j = choose|j: int|
                    0 <= j < rest.len() && (#[trigger] rest[j]).0 == r && rest[j].1 == row_width(
                        rest,
                        r,
                    );
                assert(cells[j] == rest[j]);
            }
        }
    }
}

proof fn widest_is_greatest(cells: Seq<CellView>)
    ensures
        match widest(cells) {
            None => cells.len() == 0,
            Some(w) => (forall|j: int| 0 <= j < cells.len() ==> (#[trigger] cells[j]).1 <= w)
                && exists|j: int| 0 <= j < cells.len() && (#[trigger] cells[j]).1 == w,
        },
    decreases cells.len(),
{
    if cells.len() > 0 {
        let rest = cells.drop_last();
        let last = cells.len() - 1;
        widest_is_greatest(rest);
        let w = widest(cells)->Some_0;
        assert forall|j: int| 0 <= j < cells.len() implies (#[trigger] cells[j]).1 <= w by {
            if j < last {
                assert(rest[j] == cells[j]);
            }
        }
        if cells[last].1 != w {
            let j = choose|j: int| 0 <= j < rest.len() && (#[trigger] rest[j]).1 == w;
            assert(cells[j] == rest[j]);
        } else {
            assert(cells[last].1 == w);
        }
    }
}

/// Whether node `i` is a row of the sheet data at node `data` with the given number.
pub open spec fn row_of_number(nodes: Seq<NodeView>, data: int, i: int, r: int) -> bool {
    &&& 0 <= i < nodes.len()
    &&& nodes[i].tag == "row"@
    &&& nodes[i].parent == Some(data)
    &&& attribute_of(nodes[i].attributes, None, "r"@) matches Some(s) && read_unsigned(
        s,
        usize::MAX as nat,
    ) == Some(r as nat)
    &&& r >= 0
}

/// A row keeps its attributes but for its number and its spans: those of the last row element with
/// its number. It has none only where there was no such element.
pub proof fn rows_keep_their_attributes(nodes: Seq<NodeView>, data: int, r: int)
    requires
        old_rows(nodes, data, nodes.len()) is Ok,
    ensures
        match row_attributes(old_rows(nodes, data, nodes.len())->Ok_0, r) {
            Some(s) => exists|i: int| #[trigger]
                row_of_number(nodes, data, i, r) && s == attributes_text(
                    nodes[i].attributes,
                    seq!["r"@, "spans"@],
                ) && forall|j: int| i < j ==> !#[trigger] row_of_number(nodes, data, j, r),
            None => forall|i: int| !#[trigger] row_of_number(nodes, data, i, r),
        },
{
    attributes_up_to(nodes, data, r, nodes.len());
    match row_attributes(old_rows(nodes, data, nodes.len())->Ok_0, r) {
        Some(s) => {
            let i = choose|i: int|
                0 <= i < nodes.len() && #[trigger] row_of_number(nodes, data, i, r) && s
                    == attributes_text(nodes[i].attributes, seq!["r"@, "spans"@]) && forall|j: int|
                    i < j < nodes.len() ==> !#[trigger] row_of_number(nodes, data, j, r);
            assert(row_of_number(nodes, data, i, r));
        },
        None => {},
    }
}

proof fn attributes_up_to(nodes: Seq<NodeView>, data: int, r: int, n: nat)
    requires
        n <= nodes.len(),
        old_rows(nodes, data, n) is Ok,
    ensures
        match row_attributes(old_rows(nodes, data, n)->Ok_0, r) {
            Some(s) => exists|i: int|
                0 <= i < n && #[trigger] row_of_number(nodes, data, i, r) && s == attributes_text(
                    nodes[i].attributes,
                    seq!["r"@, "spans"@],
                ) && forall|j: int| i < j < n ==> !#[trigger] row_of_number(nodes, data, j, r),
            None => forall|i: int| 0 <= i < n ==> !#[trigger] row_of_number(nodes, data, i, r),
        },
    decreases n,
{
    if n > 0 {
        let m = (n - 1) as nat;
        attributes_up_to(nodes, data, r, m);
        let before = old_rows(nodes, data, m)->Ok_0;
        let rows = old_rows(nodes, data, n)->Ok_0;
        if is_row(nodes, data, n - 1) {
            assert(rows.drop_last() =~= before);
            let k = row_number(nodes[n - 1])->Ok_0;
            if k == r {
                assert(row_of_number(nodes, data, n - 1, r));
            } else {
                assert(!row_of_number(nodes, data, n - 1, r));
            }
        } else {
            assert(!row_of_number(nodes, data, n - 1, r));
        }
        if row_attributes(rows, r) is Some && !row_of_number(nodes, data, n - 1, r) {
            let s = row_attributes(rows, r)->Some_0;
            let i = choose|i: int|
                0 <= i < m && #[trigger] row_of_number(nodes, data, i, r) && s == attributes_text(
                    nodes[i].attributes,
                    seq!["r"@, "spans"@],
                ) && forall|j: int| i < j < m ==> !#[trigger] row_of_number(nodes, data, j, r);
            assert(row_of_number(nodes, data, i, r));
            assert forall|j: int| i < j < n implies !#[trigger] row_of_number(nodes, data, j, r) by {
            }
        }
    }
}

/// Whether node `i` is a cell with a style in the given row and column of the sheet data at node
/// `data`.
pub open spec fn styled_cell(nodes: Seq<NodeView>, data: int, i: int, r: int, c: int) -> bool {
    &&& 0 <= i < nodes.len()
    &&& nodes[i].tag == "c"@
    &&& nodes[i].parent matches Some(p) && row_of_number(nodes, data, p, r)
    &&& attribute_of(nodes[i].attributes, None, "s"@) is Some
    &&& attribute_of(nodes[i].attributes, None, "r"@) matches Some(reference) && column_of(reference)
        % (usize::MAX as nat + 1) == c
}

/// A cell keeps its style: that of the last cell element in its row and its column that has one. It
/// has none only where there was no such element.
pub proof fn cells_keep_their_styles(nodes: Seq<NodeView>, data: int, r: int, c: int)
    ensures
        match style_at(old_cells(nodes, data, nodes.len()), r, c) {
            Some(s) => exists|i: int| #[trigger]
                styled_cell(nodes, data, i, r, c) && attribute_of(
                    nodes[i].attributes,
                    None,
                    "s"@,
                ) == Some(s) && forall|j: int| i < j ==> !#[trigger] styled_cell(nodes, data, j, r, c),
            None => forall|i: int| !#[trigger] styled_cell(nodes, data, i, r, c),
        },
{
    styles_up_to(nodes, data, r, c, nodes.len());
    match style_at(old_cells(nodes, data, nodes.len()), r, c) {
        Some(s) => {
            let i = choose|i: int|
                0 <= i < nodes.len() && #[trigger] styled_cell(nodes, data, i, r, c) && attribute_of(
                    nodes[i].attributes,
                    None,
                    "s"@,
                ) == Some(s) && forall|j: int|
                    i < j < nodes.len() ==> !#[trigger] styled_cell(nodes, data, j, r, c);
            assert(styled_cell(nodes, data, i, r, c));
        },
        None => {},
    }
}

proof fn styles_up_to(nodes: Seq<NodeView>, data: int, r: int, c: int, n: nat)
    requires
        n <= nodes.len(),
    ensures
        match style_at(old_cells(nodes, data, n), r, c) {
            Some(s) => exists|i: int|
                0 <= i < n && #[trigger] styled_cell(nodes, data, i, r, c) && attribute_of(
                    nodes[i].attributes,
                    None,
                    "s"@,
                ) == Some(s) && forall|j: int|
                    i < j < n ==> !#[trigger] styled_cell(nodes, data, j, r, c),
            None => forall|i: int| 0 <= i < n ==> !#[trigger] styled_cell(nodes, data, i, r, c),
        },
    decreases n,
{
    if n > 0 {
        let m = (n - 1) as nat;
        styles_up_to(nodes, data, r, c, m);
        let before = old_cells(nodes, data, m);
        let cells = old_cells(nodes, data, n);
        match cell_of(nodes, data, n - 1) {
            Some(cell) => {
                assert(cells.drop_last() =~= before);
                if cell.0 == r && cell.1 == c {
                    assert(styled_cell(nodes, data, n - 1, r, c));
                } else {
                    assert(!styled_cell(nodes, data, n - 1, r, c));
                }
            },
            None => {
                assert(!styled_cell(nodes, data, n - 1, r, c));
            },
        }
        if style_at(cells, r, c) is Some && !styled_cell(nodes, data, n - 1, r, c) {
            let s = style_at(cells, r, c)->Some_0;
            let i = choose|i: int|
                0 <= i < m && #[trigger] styled_cell(nodes, data, i, r, c) && attribute_of(
                    nodes[i].attributes,
                    None,
                    "s"@,
                ) == Some(s) && forall|j: int|
                    i < j < m ==> !#[trigger] styled_cell(nodes, data, j, r, c);
            assert(styled_cell(nodes, data, i, r, c));
            assert forall|j: int| i < j < n implies !#[trigger] styled_cell(nodes, data, j, r, c) by {
            }
        }
    }
}

} // verus!
