//! Loading a report: its rows without the blank ones at the end, checked and with the numerals of
//! its numeric columns made numbers.

use crate::number::{count_number, count_value, plain_number, plain_value, Number};
use crate::report::{read_table, report_table, Content, TableError, TableErrorView};
use crate::station::{
    count_column_list, count_columns, counts_stand_in_fixed_columns, sales_width,
};
use crate::text::{decimal, numeral, same, stands_between};
use crate::value::{is_blank, row_view, table_view, Value, ValueView};
use vstd::prelude::*;
use vstd::string::StringExecFns;

verus! {

/// Why a report cannot be loaded.
pub enum LoadError {
    /// The file with the given path cannot be read.
    Table(String, TableError),
    /// The file with the given path has no rows besides its header.
    NoRows(String),
    /// The file with the given path has not as many columns as expected, but the last number.
    Columns(String, usize, usize),
    /// The file changed while it was read.
    Changed,
}

/// Why a report cannot be loaded, in contracts.
pub enum LoadErrorView {
    Table(Seq<char>, TableErrorView),
    NoRows(Seq<char>),
    Columns(Seq<char>, nat, nat),
    Changed,
}

impl View for LoadError {
    type V = LoadErrorView;

    open spec fn view(&self) -> LoadErrorView {
        match self {
            LoadError::Table(p, e) => LoadErrorView::Table(p@, e@),
            LoadError::NoRows(p) => LoadErrorView::NoRows(p@),
            LoadError::Columns(p, m, n) => LoadErrorView::Columns(p@, *m as nat, *n as nat),
            LoadError::Changed => LoadErrorView::Changed,
        }
    }
}

impl LoadErrorView {
    /// The error in words.
    pub open spec fn words(self) -> Seq<char> {
        match self {
            LoadErrorView::Table(p, e) => "读取 "@ + p + " 失败: "@ + e.words(),
            LoadErrorView::NoRows(p) => "源文件没有数据行："@ + p,
            LoadErrorView::Columns(p, m, n) => p + " 应为 "@ + numeral(m) + " 列，实际 "@ + numeral(n)
                + " 列。固定列转换已停止，请使用与模板列数一致的报告。"@,
            LoadErrorView::Changed => "读取期间源文件发生变化，请重新识别"@,
        }
    }
}

impl LoadError {
    /// The error in words.
    pub fn message(&self) -> (r: String)
        ensures
            r@ == self@.words(),
    {
        match self {
            LoadError::Table(p, e) => {
                let mut r: String = "读取 ".to_string();
                r.append(p.as_str());
                r.append(" 失败: ");
                let inner: String = e.message();
                r.append(inner.as_str());
                r
            },
            LoadError::NoRows(p) => {
                let mut r: String = "源文件没有数据行：".to_string();
                r.append(p.as_str());
                r
            },
            LoadError::Columns(p, m, n) => {
                let mut r: String = p.clone();
                r.append(" 应为 ");
                let expected: String = decimal(*m as u64);
                r.append(expected.as_str());
                r.append(" 列，实际 ");
                let actual: String = decimal(*n as u64);
                r.append(actual.as_str());
                r.append(" 列。固定列转换已停止，请使用与模板列数一致的报告。");
                r
            },
            LoadError::Changed => "读取期间源文件发生变化，请重新识别".to_string(),
        }
    }
}

/// Whether nothing is to be seen in a row.
pub open spec fn blank_row(row: Seq<ValueView>) -> bool {
    forall|i: int| 0 <= i < row.len() ==> is_blank(#[trigger] row[i])
}

/// The rows without the blank ones at the end.
pub open spec fn without_tail(rows: Seq<Seq<ValueView>>) -> Seq<Seq<ValueView>>
    decreases rows.len(),
{
    if rows.len() > 0 && blank_row(rows.last()) {
        without_tail(rows.drop_last())
    } else {
        rows
    }
}

/// Whether the numerals of a column are made numbers: in sales reports those of the count columns,
/// and elsewhere those behind the columns that identify.
pub open spec fn numeric_column(
    station: Seq<char>,
    sheet: Seq<char>,
    sales: bool,
    col: int,
) -> bool {
    if sales {
        exists|i: int|
            0 <= i < count_column_list(station).len() && #[trigger] count_column_list(station)[i]
                == col
    } else if sheet == "FBA库存"@ {
        col >= (if station == "EU"@ || station == "CA"@ {
            5int
        } else {
            6int
        })
    } else {
        col >= 9
    }
}

/// The number that a value in a column is made, if it is made one.
pub open spec fn number_in(
    station: Seq<char>,
    sheet: Seq<char>,
    sales: bool,
    col: int,
    v: ValueView,
) -> Option<Seq<char>> {
    match v {
        ValueView::Text(s) => if !numeric_column(station, sheet, sales, col) {
            None
        } else if sales {
            count_value(s)
        } else {
            plain_value(s)
        },
        _ => None,
    }
}

/// A value in a column, made a number where it is to be one.
pub open spec fn converted_value(
    station: Seq<char>,
    sheet: Seq<char>,
    sales: bool,
    col: int,
    v: ValueView,
) -> ValueView {
    match number_in(station, sheet, sales, col, v) {
        Some(n) => ValueView::Number(Some(n)),
        None => v,
    }
}

/// A row with its values converted.
pub open spec fn converted_row(
    station: Seq<char>,
    sheet: Seq<char>,
    sales: bool,
    row: Seq<ValueView>,
) -> Seq<ValueView> {
    Seq::new(row.len(), |j: int| converted_value(station, sheet, sales, j, row[j]))
}

/// The rows with their values converted, but for the header.
pub open spec fn converted_rows(
    station: Seq<char>,
    sheet: Seq<char>,
    sales: bool,
    rows: Seq<Seq<ValueView>>,
) -> Seq<Seq<ValueView>> {
    Seq::new(
        rows.len(),
        |i: int|
            if i == 0 {
                rows[i]
            } else {
                converted_row(station, sheet, sales, rows[i])
            },
    )
}

/// How many of the first `n` values of a row of a sales report are made numbers.
pub open spec fn row_conversions(
    station: Seq<char>,
    sheet: Seq<char>,
    row: Seq<ValueView>,
    n: nat,
) -> nat
    decreases n,
{
    if n == 0 {
        0
    } else {
        row_conversions(station, sheet, row, (n - 1) as nat) + (if number_in(
            station,
            sheet,
            true,
            n - 1,
            row[n - 1],
        ) is Some {
            1nat
        } else {
            0nat
        })
    }
}

/// How many values of the first `n` rows of a sales report, but for the header, are made numbers.
pub open spec fn conversions(
    station: Seq<char>,
    sheet: Seq<char>,
    rows: Seq<Seq<ValueView>>,
    n: nat,
) -> nat
    decreases n,
{
    if n <= 1 {
        0
    } else {
        conversions(station, sheet, rows, (n - 1) as nat) + row_conversions(
            station,
            sheet,
            rows[n - 1],
            rows[n - 1].len(),
        )
    }
}

/// How many values of a report count as converted: only those of sales reports do.
pub open spec fn conversion_count(
    station: Seq<char>,
    sheet: Seq<char>,
    sales: bool,
    rows: Seq<Seq<ValueView>>,
) -> nat {
    if sales {
        conversions(station, sheet, rows, rows.len())
    } else {
        0
    }
}

/// A loaded report: its rows, how many columns its header has, how many values were made numbers
/// and the name of its encoding.
pub struct Loaded {
    pub rows: Vec<Vec<Value>>,
    pub columns: usize,
    pub converted: usize,
    pub encoding: String,
}

/// A loaded report, in contracts.
pub struct LoadedView {
    pub rows: Seq<Seq<ValueView>>,
    pub columns: nat,
    pub converted: nat,
    pub encoding: Seq<char>,
}

impl View for Loaded {
    type V = LoadedView;

    open spec fn view(&self) -> LoadedView {
        LoadedView {
            rows: table_view(self.rows@),
            columns: self.columns as nat,
            converted: self.converted as nat,
            encoding: self.encoding@,
        }
    }
}

/// The report that a table from the file with the given path becomes, or why it becomes none. The
/// count of conversions is taken as far as it fits a machine word.
pub open spec fn loaded_table(
    station: Seq<char>,
    path: Seq<char>,
    sheet: Seq<char>,
    sales: bool,
    table: Seq<Seq<ValueView>>,
    encoding: Seq<char>,
) -> Result<LoadedView, LoadErrorView> {
    let rows = without_tail(table);
    if rows.len() < 2 {
        Err(LoadErrorView::NoRows(path))
    } else if sales && rows[0].len() != sales_width(station) {
        Err(LoadErrorView::Columns(path, sales_width(station), rows[0].len()))
    } else {
        Ok(
            LoadedView {
                rows: converted_rows(station, sheet, sales, rows),
                columns: rows[0].len(),
                converted: conversion_count(station, sheet, sales, rows) % (usize::MAX as nat + 1),
                encoding,
            },
        )
    }
}

/// Whether nothing is to be seen in a row.
fn is_blank_row(row: &Vec<Value>) -> (r: bool)
    ensures
        r == blank_row(row_view(row@)),
{
    let ghost v = row_view(row@);
    let mut i: usize = 0;
    while i < row.len()
        invariant
            v == row_view(row@),
            i <= row.len(),
            forall|j: int| 0 <= j < i ==> is_blank(#[trigger] v[j]),
        decreases row.len() - i,
    {
        if !row[i].blank() {
            assert(!is_blank(v[i as int]));
            return false;
        }
        i = i + 1;
    }
    true
}

/// Takes the blank rows at the end away.
fn strip_tail(rows: Vec<Vec<Value>>) -> (r: Vec<Vec<Value>>)
    ensures
        table_view(r@) == without_tail(table_view(rows@)),
{
    let mut r: Vec<Vec<Value>> = rows;
    while r.len() > 0 && is_blank_row(&r[r.len() - 1])
        invariant
            without_tail(table_view(rows@)) == without_tail(table_view(r@)),
        decreases r.len(),
    {
        let ghost was = table_view(r@);
        r.pop();
        assert(table_view(r@) =~= was.drop_last());
    }
    r
}

/// Whether the numerals of a column are made numbers.
fn is_numeric(station: &str, sheet: &str, sales: bool, col: usize) -> (r: bool)
    ensures
        r == numeric_column(station@, sheet@, sales, col as int),
{
    if sales {
        let list: Vec<usize> = count_columns(station);
        let mut i: usize = 0;
        while i < list.len()
            invariant
                sales,
                list@ == count_column_list(station@),
                i <= list.len(),
                forall|j: int| 0 <= j < i ==> #[trigger] list@[j] != col,
            decreases list.len() - i,
        {
            if list[i] == col {
                assert(count_column_list(station@)[i as int] == col);
                return true;
            }
            i = i + 1;
        }
        false
    } else if same(sheet, "FBA库存") {
        if same(station, "EU") || same(station, "CA") {
            col >= 5
        } else {
            col >= 6
        }
    } else {
        col >= 9
    }
}

/// The number that a value in a column is made, if it is made one.
fn find_number(station: &str, sheet: &str, sales: bool, col: usize, v: &Value) -> (r: Option<Number>)
    ensures
        number_in(station@, sheet@, sales, col as int, v@) == (match r {
            Some(n) => n@,
            None => None,
        }),
        r matches Some(n) ==> n@ is Some,
{
    match v {
        Value::Text(s) => if !is_numeric(station, sheet, sales, col) {
            None
        } else if sales {
            count_number(s.as_str())
        } else {
            plain_number(s.as_str())
        },
        _ => None,
    }
}

/// A row with its values converted, and how many were, as far as that fits a machine word.
fn convert_row(station: &str, sheet: &str, sales: bool, row: &Vec<Value>) -> (r: (
    Vec<Value>,
    usize,
))
    ensures
        row_view(r.0@) == converted_row(station@, sheet@, sales, row_view(row@)),
        sales ==> r.1 == row_conversions(
            station@,
            sheet@,
            row_view(row@),
            row@.len(),
        ) % (usize::MAX as nat + 1),
{
    let ghost v = row_view(row@);
    let mut out: Vec<Value> = Vec::new();
    let mut count: usize = 0;
    let mut j: usize = 0;
    assert(0nat % (usize::MAX as nat + 1) == 0) by (nonlinear_arith);
    while j < row.len()
        invariant
            v == row_view(row@),
            j <= row.len(),
            out.len() == j,
            forall|k: int|
                0 <= k < j ==> (#[trigger] out@[k])@ == converted_value(
                    station@,
                    sheet@,
                    sales,
                    k,
                    v[k],
                ),
            sales ==> count == row_conversions(station@, sheet@, v, j as nat) % (usize::MAX as nat
                + 1),
        decreases row.len() - j,
    {
        assert(v[j as int] == row@[j as int]@);
        match find_number(station, sheet, sales, j, &row[j]) {
            Some(n) => {
                out.push(Value::Number(n));
                proof {
                    if sales {
                        counting_step(
                            row_conversions(station@, sheet@, v, j as nat) as int,
                            1,
                            usize::MAX as int + 1,
                        );
                    }
                }
                count = count.wrapping_add(1);
            },
            None => {
                out.push(row[j].duplicate());
            },
        }
        j = j + 1;
    }
    assert(row_view(out@) =~= converted_row(station@, sheet@, sales, v));
    (out, count)
}

/// Reducing at every step gives what reducing at the end gives.
proof fn counting_step(a: int, b: int, m: int)
    requires
        m > 0,
    ensures
        (a % m + b) % m == (a + b) % m,
        (a % m + b % m) % m == (a + b) % m,
{
    vstd::arithmetic::div_mod::lemma_add_mod_noop(a, b, m);
    vstd::arithmetic::div_mod::lemma_add_mod_noop(a % m, b, m);
    vstd::arithmetic::div_mod::lemma_mod_twice(a, m);
}

/// The rows with their values converted, but for the header, and how many were.
fn convert_rows(station: &str, sheet: &str, sales: bool, rows: &Vec<Vec<Value>>) -> (r: (
    Vec<Vec<Value>>,
    usize,
))
    requires
        rows.len() > 0,
    ensures
        table_view(r.0@) == converted_rows(station@, sheet@, sales, table_view(rows@)),
        r.1 == conversion_count(station@, sheet@, sales, table_view(rows@)) % (usize::MAX as nat
            + 1),
{
    let ghost v = table_view(rows@);
    let ghost m = usize::MAX as int + 1;
    let mut out: Vec<Vec<Value>> = Vec::new();
    out.push(duplicate_row(&rows[0]));
    let mut count: usize = 0;
    let mut i: usize = 1;
    assert(0nat % (usize::MAX as nat + 1) == 0) by (nonlinear_arith);
    while i < rows.len()
        invariant
            v == table_view(rows@),
            m == usize::MAX as int + 1,
            1 <= i <= rows.len(),
            out.len() == i,
            row_view(out@[0]@) == v[0],
            forall|k: int|
                1 <= k < i ==> row_view((#[trigger] out@[k])@) == converted_row(
                    station@,
                    sheet@,
                    sales,
                    v[k],
                ),
            sales ==> count == conversions(station@, sheet@, v, i as nat) % (usize::MAX as nat + 1),
            !sales ==> count == 0,
        decreases rows.len() - i,
    {
        let (row, n) = convert_row(station, sheet, sales, &rows[i]);
        out.push(row);
        if sales {
            proof {
                counting_step(
                    conversions(station@, sheet@, v, i as nat) as int,
                    row_conversions(station@, sheet@, v[i as int], v[i as int].len()) as int,
                    m,
                );
            }
            count = count.wrapping_add(n);
        }
        i = i + 1;
    }
    assert(table_view(out@) =~= converted_rows(station@, sheet@, sales, v));
    (out, count)
}

/// The same row once more.
pub fn duplicate_row(row: &Vec<Value>) -> (r: Vec<Value>)
    ensures
        row_view(r@) == row_view(row@),
{
    let mut out: Vec<Value> = Vec::new();
    let mut i: usize = 0;
    while i < row.len()
        invariant
            i <= row.len(),
            out.len() == i,
            forall|j: int| 0 <= j < i ==> (#[trigger] out@[j])@ == row@[j]@,
        decreases row.len() - i,
    {
        out.push(row[i].duplicate());
        i = i + 1;
    }
    assert(row_view(out@) =~= row_view(row@));
    out
}

/// The report that a table from the file with the given path becomes.
pub fn load_table(
    station: &str,
    path: &str,
    sheet: &str,
    sales: bool,
    table: Vec<Vec<Value>>,
    encoding: String,
) -> (r: Result<Loaded, LoadError>)
    ensures
        loaded_table(station@, path@, sheet@, sales, table_view(table@), encoding@) == (match r {
            Ok(l) => Ok::<LoadedView, LoadErrorView>(l@),
            Err(e) => Err(e@),
        }),
{
    let rows: Vec<Vec<Value>> = strip_tail(table);
    if rows.len() < 2 {
        return Err(LoadError::NoRows(path.to_string()));
    }
    let columns: usize = rows[0].len();
    assert(table_view(rows@)[0].len() == columns);
    if sales {
        let expected: usize = if same(station, "EU") || same(station, "UK") {
            15
        } else {
            21
        };
        if columns != expected {
            return Err(LoadError::Columns(path.to_string(), expected, columns));
        }
    }
    let (converted_table, converted) = convert_rows(station, sheet, sales, &rows);
    Ok(Loaded { rows: converted_table, columns, converted, encoding })
}

/// The report in the file with the given path, of which `content` was read, or why there is none.
pub open spec fn loaded(
    station: Seq<char>,
    path: Seq<char>,
    sheet: Seq<char>,
    code: Seq<char>,
    sales: bool,
    content: Content,
) -> Result<LoadedView, LoadErrorView> {
    match report_table(path, content, code) {
        Err(e) => Err(LoadErrorView::Table(path, e)),
        Ok((table, encoding)) => loaded_table(station, path, sheet, sales, table, encoding),
    }
}

/// The report in the file with the given path, of which `content` was read.
pub fn load(
    station: &str,
    path: &str,
    sheet: &str,
    code: &str,
    sales: bool,
    content: &Content,
) -> (r: Result<Loaded, LoadError>)
    requires
        content matches Content::Bytes(bytes) ==> bytes@.len() <= usize::MAX / 12,
    ensures
        loaded(station@, path@, sheet@, code@, sales, *content) == (match r {
            Ok(l) => Ok::<LoadedView, LoadErrorView>(l@),
            Err(e) => Err(e@),
        }),
{
    match read_table(path, content, code) {
        Err(e) => Err(LoadError::Table(path.to_string(), e)),
        Ok((table, encoding)) => load_table(station, path, sheet, sales, table, encoding),
    }
}

/// Loading keeps the header, the number of rows and their lengths, and every value outside of the
/// numeric columns; what it changes becomes the number that the text stands for.
pub proof fn loading_protects_other_columns(
    station: Seq<char>,
    sheet: Seq<char>,
    sales: bool,
    rows: Seq<Seq<ValueView>>,
    i: int,
    j: int,
)
    requires
        0 <= i < rows.len(),
        0 <= j < rows[i].len(),
    ensures
        ({
            let new = converted_rows(station, sheet, sales, rows);
            &&& new.len() == rows.len()
            &&& new[i].len() == rows[i].len()
            &&& i == 0 || !numeric_column(station, sheet, sales, j) ==> new[i][j] == rows[i][j]
            &&& new[i][j] != rows[i][j] ==> rows[i][j] is Text && new[i][j] == ValueView::Number(
                if sales {
                    count_value(rows[i][j]->Text_0)
                } else {
                    plain_value(rows[i][j]->Text_0)
                },
            )
        }),
{
}

/// A loaded report has a header and at least one more row, as many columns as its header and, in
/// sales, as the station asks for, and its last row was not blank.
pub proof fn loaded_reports_have_rows(
    station: Seq<char>,
    path: Seq<char>,
    sheet: Seq<char>,
    sales: bool,
    table: Seq<Seq<ValueView>>,
    encoding: Seq<char>,
)
    requires
        loaded_table(station, path, sheet, sales, table, encoding) is Ok,
    ensures
        ({
            let l = loaded_table(station, path, sheet, sales, table, encoding)->Ok_0;
            &&& l.rows.len() >= 2
            &&& l.rows[0].len() == l.columns
            &&& sales ==> l.columns == sales_width(station)
            &&& !blank_row(without_tail(table).last())
        }),
{
    tail_is_not_blank(table);
}

proof fn tail_is_not_blank(rows: Seq<Seq<ValueView>>)
    ensures
        without_tail(rows).len() > 0 ==> !blank_row(without_tail(rows).last()),
    decreases rows.len(),
{
    if rows.len() > 0 && blank_row(rows.last()) {
        tail_is_not_blank(rows.drop_last());
    }
}

/// Only blank rows at the end are left out.
proof fn tail_is_blank(rows: Seq<Seq<ValueView>>)
    ensures
        without_tail(rows).len() <= rows.len(),
        without_tail(rows) == rows.take(without_tail(rows).len() as int),
        forall|i: int| without_tail(rows).len() <= i < rows.len() ==> blank_row(#[trigger] rows[i]),
    decreases rows.len(),
{
    if rows.len() > 0 && blank_row(rows.last()) {
        let rest = rows.drop_last();
        tail_is_blank(rest);
        assert(without_tail(rows) =~= rows.take(without_tail(rows).len() as int));
        assert forall|i: int| without_tail(rows).len() <= i < rows.len() implies blank_row(
            #[trigger] rows[i],
        ) by {
            if i < rest.len() {
                assert(rest[i] == rows[i]);
            }
        }
    } else {
        assert(rows =~= rows.take(rows.len() as int));
    }
}

/// A report that is loaded has the rows of its table up to the last one in which something is to be
/// seen, its header as it is, and each further row of the same length.
pub proof fn loaded_rows_are_those_of_the_table(
    station: Seq<char>,
    path: Seq<char>,
    sheet: Seq<char>,
    sales: bool,
    table: Seq<Seq<ValueView>>,
    encoding: Seq<char>,
    i: int,
)
    requires
        loaded_table(station, path, sheet, sales, table, encoding) is Ok,
        0 <= i < table.len(),
    ensures
        ({
            let l = loaded_table(station, path, sheet, sales, table, encoding)->Ok_0;
            &&& 2 <= l.rows.len() <= table.len()
            &&& l.rows[0] == table[0]
            &&& l.columns == table[0].len()
            &&& l.encoding == encoding
            &&& i < l.rows.len() ==> l.rows[i].len() == table[i].len()
            &&& i >= l.rows.len() ==> forall|j: int|
                0 <= j < table[i].len() ==> #[trigger] table[i][j] == ValueView::Blank
                    || table[i][j] == ValueView::Text(Seq::<char>::empty())
            &&& i == l.rows.len() - 1 ==> exists|j: int|
                0 <= j < table[i].len() && #[trigger] table[i][j] != ValueView::Blank
                    && table[i][j] != ValueView::Text(Seq::<char>::empty())
        }),
{
    tail_is_blank(table);
    tail_is_not_blank(table);
    let rows = without_tail(table);
    let l = loaded_table(station, path, sheet, sales, table, encoding)->Ok_0;
    assert(rows[0] == table[0]);
    if i < rows.len() {
        assert(rows[i] == table[i]);
    } else {
        assert(blank_row(table[i]));
        assert forall|j: int| 0 <= j < table[i].len() implies #[trigger] table[i][j]
            == ValueView::Blank || table[i][j] == ValueView::Text(Seq::<char>::empty()) by {
            assert(is_blank(table[i][j]));
        }
    }
    if i == rows.len() - 1 {
        assert(!blank_row(table[i]));
        let j = choose|j: int| 0 <= j < table[i].len() && !is_blank(#[trigger] table[i][j]);
        assert(table[i][j] != ValueView::Blank);
    }
}

/// Which tables make reports: those with something to be seen behind the first row and, in sales, with
/// fifteen columns for the EU and the United Kingdom and twenty-one elsewhere.
pub proof fn reports_have_the_right_shape(
    station: Seq<char>,
    path: Seq<char>,
    sheet: Seq<char>,
    sales: bool,
    table: Seq<Seq<ValueView>>,
    encoding: Seq<char>,
)
    ensures
        ({
            let l = loaded_table(station, path, sheet, sales, table, encoding);
            let seen = exists|i: int, j: int|
                1 <= i < table.len() && 0 <= j < table[i].len() && #[trigger] table[i][j]
                    != ValueView::Blank && table[i][j] != ValueView::Text(Seq::<char>::empty());
            let expected: nat = if station == "EU"@ || station == "UK"@ {
                15
            } else {
                21
            };
            &&& !seen ==> l == Err::<LoadedView, LoadErrorView>(LoadErrorView::NoRows(path))
            &&& seen && sales && table[0].len() != expected ==> l == Err::<
                LoadedView,
                LoadErrorView,
            >(LoadErrorView::Columns(path, expected, table[0].len()))
            &&& seen && (!sales || table[0].len() == expected) ==> l is Ok
        }),
{
    tail_is_blank(table);
    tail_is_not_blank(table);
    let rows = without_tail(table);
    if rows.len() >= 2 {
        assert(rows[0] == table[0]);
        let i = rows.len() - 1;
        assert(rows[i] == table[i]);
        assert(!blank_row(table[i]));
        let j = choose|j: int| 0 <= j < table[i].len() && !is_blank(#[trigger] table[i][j]);
        assert(table[i][j] != ValueView::Blank && table[i][j] != ValueView::Text(
            Seq::<char>::empty(),
        ));
    } else {
        assert forall|i: int, j: int|
            1 <= i < table.len() && 0 <= j < table[i].len() implies #[trigger] table[i][j]
            == ValueView::Blank || table[i][j] == ValueView::Text(Seq::<char>::empty()) by {
            assert(blank_row(table[i]));
            assert(is_blank(table[i][j]));
        }
    }
}

/// In a sales report that is loaded, a text in a count column is the number that it counts, where it
/// counts one; every other value is what the table has at its place.
pub proof fn counts_become_numbers(
    station: Seq<char>,
    path: Seq<char>,
    sheet: Seq<char>,
    table: Seq<Seq<ValueView>>,
    encoding: Seq<char>,
    i: int,
    j: int,
)
    requires
        loaded_table(station, path, sheet, true, table, encoding) is Ok,
        1 <= i < loaded_table(station, path, sheet, true, table, encoding)->Ok_0.rows.len(),
        0 <= j < table[i].len(),
        station == "EU"@ || station == "UK"@ || station == "US"@ || station == "CA"@ || station
            == "JP"@,
    ensures
        ({
            let new = loaded_table(station, path, sheet, true, table, encoding)->Ok_0.rows;
            let european = station == "EU"@ || station == "UK"@;
            let counts = if european {
                j == 3 || j == 5 || j == 8 || j == 9 || j == 13 || j == 14
            } else {
                j == 3 || j == 4 || j == 7 || j == 8 || j == 13 || j == 14 || j == 19 || j == 20
            };
            &&& !counts ==> new[i][j] == table[i][j]
            &&& counts ==> match table[i][j] {
                ValueView::Text(s) => match count_value(s) {
                    Some(n) => new[i][j] == ValueView::Number(Some(n)),
                    None => new[i][j] == ValueView::Text(s),
                },
                v => new[i][j] == v,
            }
        }),
{
    tail_is_blank(table);
    loaded_rows_are_those_of_the_table(station, path, sheet, true, table, encoding, i);
    let rows = without_tail(table);
    assert(rows[i] == table[i]);
    let list = count_column_list(station);
    if j <= usize::MAX {
        let col = j as usize;
        counts_stand_in_fixed_columns(station, col);
        if list.contains(col) {
            let k = choose|k: int| 0 <= k < list.len() && list[k] == col;
            assert(list[k] == j);
        }
        if numeric_column(station, sheet, true, j) {
            let k = choose|k: int| 0 <= k < list.len() && #[trigger] list[k] == j;
            assert(list.contains(col));
        }
    }
    assert(rows[i][j] == table[i][j]);
}

/// In a stock list that is loaded, a plain number is a number from the seventh column of the FBA stock
/// on, from the sixth of that of the EU and of Canada, and from the tenth column of the shipping
/// limits; every other value is what the table has at its place.
pub proof fn stock_becomes_numbers(
    station: Seq<char>,
    path: Seq<char>,
    sheet: Seq<char>,
    table: Seq<Seq<ValueView>>,
    encoding: Seq<char>,
    i: int,
    j: int,
)
    requires
        loaded_table(station, path, sheet, false, table, encoding) is Ok,
        1 <= i < loaded_table(station, path, sheet, false, table, encoding)->Ok_0.rows.len(),
        0 <= j < table[i].len(),
    ensures
        ({
            let l = loaded_table(station, path, sheet, false, table, encoding)->Ok_0;
            let numeric = if sheet != "FBA库存"@ {
                j >= 9
            } else if station == "EU"@ || station == "CA"@ {
                j >= 5
            } else {
                j >= 6
            };
            &&& l.converted == 0
            &&& !numeric ==> l.rows[i][j] == table[i][j]
            &&& numeric ==> match table[i][j] {
                ValueView::Text(s) => match plain_value(s) {
                    Some(n) => l.rows[i][j] == ValueView::Number(Some(n)),
                    None => l.rows[i][j] == ValueView::Text(s),
                },
                v => l.rows[i][j] == v,
            }
        }),
{
    tail_is_blank(table);
    loaded_rows_are_those_of_the_table(station, path, sheet, false, table, encoding, i);
    let rows = without_tail(table);
    assert(rows[i] == table[i]);
    assert(rows[i][j] == table[i][j]);
    assert(0nat % (usize::MAX as nat + 1) == 0) by (nonlinear_arith);
}

/// The places in the first `n` rows behind the header, and in the first `m` cells of the row behind
/// them, at which two tables differ.
pub open spec fn changed_places(
    old: Seq<Seq<ValueView>>,
    new: Seq<Seq<ValueView>>,
    n: nat,
    m: nat,
) -> Set<(int, int)> {
    Set::new(
        |p: (int, int)|
            1 <= p.0 && (p.0 < n || p.0 == n && p.1 < m) && 0 <= p.1 < old[p.0].len()
                && new[p.0][p.1] != old[p.0][p.1],
    )
}

/// What counts as converted in a sales report is what was changed: as many values as the report has
/// that the table has not, as far as that fits a machine word.
pub proof fn conversions_are_counted(
    station: Seq<char>,
    path: Seq<char>,
    sheet: Seq<char>,
    table: Seq<Seq<ValueView>>,
    encoding: Seq<char>,
)
    requires
        loaded_table(station, path, sheet, true, table, encoding) is Ok,
    ensures
        ({
            let l = loaded_table(station, path, sheet, true, table, encoding)->Ok_0;
            let changed = changed_places(table, l.rows, l.rows.len(), 0);
            changed.finite() && l.converted == changed.len() % (usize::MAX as nat + 1)
        }),
{
    let l = loaded_table(station, path, sheet, true, table, encoding)->Ok_0;
    let rows = without_tail(table);
    tail_is_blank(table);
    changes_add_up(station, sheet, rows, rows.len(), 0);
    let changed = changed_places(table, l.rows, l.rows.len(), 0);
    assert(changed =~= changed_places(rows, l.rows, l.rows.len(), 0)) by {
        assert forall|p: (int, int)|
            changed.contains(p) <==> changed_places(rows, l.rows, l.rows.len(), 0).contains(p) by {
            if 0 <= p.0 < rows.len() {
                assert(rows[p.0] == table[p.0]);
            }
        }
    }
}

/// Value by value, the changes are counted as they are made.
proof fn changes_add_up(
    station: Seq<char>,
    sheet: Seq<char>,
    rows: Seq<Seq<ValueView>>,
    n: nat,
    m: nat,
)
    requires
        n <= rows.len(),
        n == rows.len() ==> m == 0,
        n < rows.len() ==> m <= rows[n as int].len(),
    ensures
        ({
            let new = converted_rows(station, sheet, true, rows);
            let changed = changed_places(rows, new, n, m);
            &&& changed.finite()
            &&& changed.len() == conversions(station, sheet, rows, n) + (if n >= 1 && n < rows.len() {
                row_conversions(station, sheet, rows[n as int], m)
            } else {
                0
            })
        }),
    decreases n, m,
{
    let new = converted_rows(station, sheet, true, rows);
    let changed = changed_places(rows, new, n, m);
    if n == 0 {
        assert(changed =~= Set::empty());
    } else if m > 0 {
        let fewer = changed_places(rows, new, n, (m - 1) as nat);
        changes_add_up(station, sheet, rows, n, (m - 1) as nat);
        let p = (n as int, m - 1);
        let row = rows[n as int];
        let old = row[m - 1];
        assert(new[n as int][m - 1] == converted_value(station, sheet, true, m - 1, old));
        if new[n as int][m - 1] != old {
            assert(changed =~= fewer.insert(p));
            assert(!fewer.contains(p));
        } else {
            assert(changed =~= fewer);
        }
    } else if n == 1 {
        assert(changed =~= Set::empty());
    } else {
        let last = rows[n - 1].len();
        changes_add_up(station, sheet, rows, (n - 1) as nat, last);
        assert(changed =~= changed_places(rows, new, (n - 1) as nat, last));
    }
}

/// A file is loaded from its table, with the name of its encoding; a file without one is told of by its
/// path.
pub proof fn files_are_loaded_from_their_tables(
    station: Seq<char>,
    path: Seq<char>,
    sheet: Seq<char>,
    code: Seq<char>,
    sales: bool,
    content: Content,
)
    ensures
        ({
            let l = loaded(station, path, sheet, code, sales, content);
            match report_table(path, content, code) {
                Err(e) => l == Err::<LoadedView, LoadErrorView>(LoadErrorView::Table(path, e)),
                Ok((table, encoding)) => l == loaded_table(
                    station,
                    path,
                    sheet,
                    sales,
                    table,
                    encoding,
                ),
            }
        }),
{
}

/// A loaded report is seen as what it holds.
pub proof fn reports_are_seen_as_they_are(l: Loaded)
    ensures
        l@.rows == table_view(l.rows@),
        l@.columns == l.columns,
        l@.converted == l.converted,
        l@.encoding == l.encoding@,
{
}

/// What is said of a report that is not loaded: the words are fixed, and what they are
/// about stands in them as it is.
pub proof fn faults_of_reports_are_worded(error: LoadErrorView)
    ensures
        match error {
            LoadErrorView::Table(p, e) => {
                &&& stands_between(error.words(), "读取 "@, p, " 失败: "@ + e.words())
                &&& stands_between(
                    error.words(),
                    "读取 "@ + p + " 失败: "@,
                    e.words(),
                    Seq::<char>::empty(),
                )
            },
            LoadErrorView::NoRows(p) => stands_between(
                error.words(),
                "源文件没有数据行："@,
                p,
                Seq::<char>::empty(),
            ),
            LoadErrorView::Columns(p, m, n) => {
                &&& stands_between(
                    error.words(),
                    Seq::<char>::empty(),
                    p,
                    " 应为 "@ + numeral(m) + " 列，实际 "@ + numeral(n) + " 列。固定列转换已停止，请使用与模板列数一致的报告。"@,
                )
                &&& stands_between(
                    error.words(),
                    p + " 应为 "@,
                    numeral(m),
                    " 列，实际 "@ + numeral(n) + " 列。固定列转换已停止，请使用与模板列数一致的报告。"@,
                )
                &&& stands_between(
                    error.words(),
                    p + " 应为 "@ + numeral(m) + " 列，实际 "@,
                    numeral(n),
                    " 列。固定列转换已停止，请使用与模板列数一致的报告。"@,
                )
            },
            LoadErrorView::Changed => error.words() == "读取期间源文件发生变化，请重新识别"@,
        },
{
}

} // verus!
