//! Reading reports: the encoding of a text file, its delimiter, and the cells of either a text
//! file or a workbook.

use crate::number::Number;
use crate::text::{chars, part, same, stands_between, text, utf8_text};
use crate::value::{row_view, table_view, Value, ValueView};
use vstd::prelude::*;
use vstd::string::StringExecFns;
use vstd::utf8::{decode_utf8, valid_utf8};

verus! {

/// The encodings that a report may have besides UTF-8.
#[derive(Clone, Copy, Debug, PartialEq, Eq, Structural)]
pub enum Charset {
    Utf16Le,
    Utf16Be,
    ShiftJis,
    Gbk,
    Windows1252,
}

impl Charset {
    /// The name of the encoding.
    pub open spec fn label(self) -> Seq<char> {
        match self {
            Charset::Utf16Le => "UTF-16LE"@,
            Charset::Utf16Be => "UTF-16BE"@,
            Charset::ShiftJis => "Shift_JIS"@,
            Charset::Gbk => "GBK"@,
            Charset::Windows1252 => "windows-1252"@,
        }
    }

    /// The name of the encoding.
    pub fn name(self) -> (r: String)
        ensures
            r@ == self.label(),
    {
        match self {
            Charset::Utf16Le => "UTF-16LE".to_string(),
            Charset::Utf16Be => "UTF-16BE".to_string(),
            Charset::ShiftJis => "Shift_JIS".to_string(),
            Charset::Gbk => "GBK".to_string(),
            Charset::Windows1252 => "windows-1252".to_string(),
        }
    }
}

/// The text that bytes are decoded to, and whether there were malformed sequences in them.
pub uninterp spec fn decoded(charset: Charset, bytes: Seq<u8>) -> (Seq<char>, bool);

/// Whether bytes start with a byte order mark, of UTF-8 or of UTF-16.
pub open spec fn marked(bytes: Seq<u8>) -> bool {
    ||| bytes.len() >= 3 && bytes[0] == 0xef && bytes[1] == 0xbb && bytes[2] == 0xbf
    ||| bytes.len() >= 2 && bytes[0] == 0xff && bytes[1] == 0xfe
    ||| bytes.len() >= 2 && bytes[0] == 0xfe && bytes[1] == 0xff
}

/// `encoding_rs::Encoding::decode` with the encoding that `charset` names: the text and whether
/// there were malformed sequences are a function of the encoding and the bytes. In windows-1252
/// every byte is a character, so that there are none unless a byte order mark says another encoding.
/// The buffer for the text grows to five times the length of the bytes and a little more at most, and
/// a `String` cannot be longer than half of the numbers of a machine word.
#[verifier::external_body]
fn decode_as(charset: Charset, bytes: &[u8]) -> (r: (String, bool))
    requires
        bytes@.len() <= usize::MAX / 12,
    ensures
        (r.0@, r.1) == decoded(charset, bytes@),
        charset == Charset::Windows1252 && !marked(bytes@) ==> !r.1,
{
    let encoding = match charset {
        Charset::Utf16Le => encoding_rs::UTF_16LE,
        Charset::Utf16Be => encoding_rs::UTF_16BE,
        Charset::ShiftJis => encoding_rs::SHIFT_JIS,
        Charset::Gbk => encoding_rs::GBK,
        Charset::Windows1252 => encoding_rs::WINDOWS_1252,
    };
    let (s, _, bad) = encoding.decode(bytes);
    (s.into_owned(), bad)
}

/// Why a report cannot be read.
pub enum TableError {
    /// A workbook cannot be opened, with the message of the error.
    Open(String),
    /// A workbook has no worksheet.
    NoSheet,
    /// The worksheet cannot be read, with the message of the error.
    Sheet(String),
    /// A cell holds the named error.
    Cell(String),
    /// A text in UTF-16 is malformed.
    Utf16,
    /// The encoding cannot be told.
    Encoding,
    /// There is no delimiter that makes columns of the text of the named file.
    Columns(String),
}

/// Why a report cannot be read, in contracts.
pub enum TableErrorView {
    Open(Seq<char>),
    NoSheet,
    Sheet(Seq<char>),
    Cell(Seq<char>),
    Utf16,
    Encoding,
    Columns(Seq<char>),
}

impl View for TableError {
    type V = TableErrorView;

    open spec fn view(&self) -> TableErrorView {
        match self {
            TableError::Open(m) => TableErrorView::Open(m@),
            TableError::NoSheet => TableErrorView::NoSheet,
            TableError::Sheet(m) => TableErrorView::Sheet(m@),
            TableError::Cell(m) => TableErrorView::Cell(m@),
            TableError::Utf16 => TableErrorView::Utf16,
            TableError::Encoding => TableErrorView::Encoding,
            TableError::Columns(p) => TableErrorView::Columns(p@),
        }
    }
}

impl TableErrorView {
    /// The error in words.
    pub open spec fn words(self) -> Seq<char> {
        match self {
            TableErrorView::Open(m) => "无法读取源 Excel: "@ + m,
            TableErrorView::NoSheet => "源文件没有工作表"@,
            TableErrorView::Sheet(m) => m,
            TableErrorView::Cell(m) => "源文件包含错误单元格："@ + m,
            TableErrorView::Utf16 => "UTF-16 编码损坏"@,
            TableErrorView::Encoding => "无法可靠识别文件编码，请将源报告另存为 UTF-8 CSV 或 XLSX"@,
            TableErrorView::Columns(p) => "无法解析多列表格，可能存在编码、引号或分隔符问题："@ + p,
        }
    }
}

impl TableError {
    /// The error in words.
    pub fn message(&self) -> (r: String)
        ensures
            r@ == self@.words(),
    {
        match self {
            TableError::Open(m) => {
                let mut r: String = "无法读取源 Excel: ".to_string();
                r.append(m.as_str());
                r
            },
            TableError::NoSheet => "源文件没有工作表".to_string(),
            TableError::Sheet(m) => m.clone(),
            TableError::Cell(m) => {
                let mut r: String = "源文件包含错误单元格：".to_string();
                r.append(m.as_str());
                r
            },
            TableError::Utf16 => "UTF-16 编码损坏".to_string(),
            TableError::Encoding => {
                "无法可靠识别文件编码，请将源报告另存为 UTF-8 CSV 或 XLSX".to_string()
            },
            TableError::Columns(p) => {
                let mut r: String = "无法解析多列表格，可能存在编码、引号或分隔符问题：".to_string();
                r.append(p.as_str());
                r
            },
        }
    }
}

/// `s` without the byte order marks that it starts with.
pub open spec fn without_marks(s: Seq<char>) -> Seq<char>
    decreases s.len(),
{
    if s.len() > 0 && s[0] == '\u{feff}' {
        without_marks(s.drop_first())
    } else {
        s
    }
}

/// The encodings that a report for `code` is tried with, first and second, where it is not UTF-8.
pub open spec fn candidates(code: Seq<char>) -> (Charset, Charset) {
    if code == "JP"@ {
        (Charset::ShiftJis, Charset::Gbk)
    } else {
        (Charset::Gbk, Charset::Windows1252)
    }
}

/// The text of a report for `code`, and the name of its encoding: UTF-16 where it starts with a
/// byte order mark of it, UTF-8 where it is that, and otherwise the first of two encodings in
/// which it is well formed.
pub open spec fn report_text(bytes: Seq<u8>, code: Seq<char>) -> Result<
    (Seq<char>, Seq<char>),
    TableErrorView,
> {
    let first = candidates(code).0;
    let second = candidates(code).1;
    if bytes.len() >= 2 && bytes[0] == 0xff && bytes[1] == 0xfe {
        if decoded(Charset::Utf16Le, bytes).1 {
            Err(TableErrorView::Utf16)
        } else {
            Ok((decoded(Charset::Utf16Le, bytes).0, Charset::Utf16Le.label()))
        }
    } else if bytes.len() >= 2 && bytes[0] == 0xfe && bytes[1] == 0xff {
        if decoded(Charset::Utf16Be, bytes).1 {
            Err(TableErrorView::Utf16)
        } else {
            Ok((decoded(Charset::Utf16Be, bytes).0, Charset::Utf16Be.label()))
        }
    } else if valid_utf8(bytes) {
        Ok((without_marks(decode_utf8(bytes)), "UTF-8"@))
    } else if !decoded(first, bytes).1 {
        Ok((decoded(first, bytes).0, first.label()))
    } else if !decoded(second, bytes).1 {
        Ok((decoded(second, bytes).0, second.label()))
    } else {
        Err(TableErrorView::Encoding)
    }
}

/// `s` without the byte order marks that it starts with.
fn strip_marks(s: &str) -> (r: String)
    ensures
        r@ == without_marks(s@),
{
    let x: Vec<char> = chars(s);
    let mut i: usize = 0;
    assert(x@.subrange(0, x@.len() as int) =~= x@);
    while i < x.len() && x[i] == '\u{feff}'
        invariant
            x@ == s@,
            i <= x.len(),
            without_marks(s@) == without_marks(x@.subrange(i as int, x@.len() as int)),
        decreases x.len() - i,
    {
        assert(x@.subrange(i as int, x@.len() as int).drop_first() =~= x@.subrange(
            i + 1,
            x@.len() as int,
        ));
        i = i + 1;
    }
    let rest: Vec<char> = part(x.as_slice(), i, x.len());
    text(&rest)
}

/// The text and the name of its encoding, where the text was well formed.
pub open spec fn well_formed(charset: Charset, decoded: (Seq<char>, bool)) -> Option<
    (Seq<char>, Seq<char>),
> {
    if decoded.1 {
        None
    } else {
        Some((decoded.0, charset.label()))
    }
}

/// The text and the name of its encoding, where the text was well formed.
pub fn accept(charset: Charset, text: String, malformed: bool) -> (r: Option<(String, String)>)
    ensures
        well_formed(charset, (text@, malformed)) == (match r {
            Some((s, name)) => Some((s@, name@)),
            None => None,
        }),
{
    if malformed {
        None
    } else {
        Some((text, charset.name()))
    }
}

/// The text of a report for `code`, and the name of its encoding. Only a report for Japan, or one with
/// a byte order mark, can fail.
pub fn decode(bytes: &[u8], code: &str) -> (r: Result<(String, String), TableError>)
    requires
        bytes@.len() <= usize::MAX / 12,
    ensures
        report_text(bytes@, code@) == (match r {
            Ok((s, name)) => Ok::<(Seq<char>, Seq<char>), TableErrorView>((s@, name@)),
            Err(e) => Err(e@),
        }),
        code@ != "JP"@ && !marked(bytes@) ==> r is Ok,
{
    if bytes.len() >= 2 && bytes[0] == 0xff && bytes[1] == 0xfe {
        let (s, bad) = decode_as(Charset::Utf16Le, bytes);
        return match accept(Charset::Utf16Le, s, bad) {
            Some(r) => Ok(r),
            None => Err(TableError::Utf16),
        };
    }
    if bytes.len() >= 2 && bytes[0] == 0xfe && bytes[1] == 0xff {
        let (s, bad) = decode_as(Charset::Utf16Be, bytes);
        return match accept(Charset::Utf16Be, s, bad) {
            Some(r) => Ok(r),
            None => Err(TableError::Utf16),
        };
    }
    match utf8_text(bytes) {
        Some(s) => {
            proof {
                vstd::utf8::encode_utf8_decode_utf8(s@);
            }
            return Ok((strip_marks(s.as_str()), "UTF-8".to_string()));
        },
        None => {},
    }
    let (first, second) = if same(code, "JP") {
        (Charset::ShiftJis, Charset::Gbk)
    } else {
        (Charset::Gbk, Charset::Windows1252)
    };
    let (s, bad) = decode_as(first, bytes);
    match accept(first, s, bad) {
        Some(r) => {
            return Ok(r);
        },
        None => {},
    }
    let (t, worse) = decode_as(second, bytes);
    match accept(second, t, worse) {
        Some(r) => Ok(r),
        None => Err(TableError::Encoding),
    }
}

/// The fields of records, each by its view.
pub open spec fn records_view(rows: Seq<Vec<String>>) -> Seq<Seq<Seq<char>>> {
    Seq::new(rows.len(), |i: int| Seq::new(rows[i]@.len(), |j: int| rows[i]@[j]@))
}

/// The records that a text is split into at a delimiter, where it can be.
pub uninterp spec fn csv_rows(text: Seq<char>, delimiter: u8) -> Option<Seq<Seq<Seq<char>>>>;

/// `csv::Reader::records` over the text, without headers and not flexible: the records are a
/// function of the text and the delimiter, and all of them have as many fields as the first one.
/// What the records of a given text are is not stated.
#[verifier::external_body]
fn split_records(text: &str, delimiter: u8) -> (r: Option<Vec<Vec<String>>>)
    ensures
        csv_rows(text@, delimiter) == (match r {
            Some(rows) => Some(records_view(rows@)),
            None => None,
        }),
        r matches Some(rows) ==> forall|i: int|
            0 <= i < rows@.len() ==> (#[trigger] rows@[i])@.len() == rows@[0]@.len(),
{
    let mut reader = csv::ReaderBuilder::new()
        .has_headers(false)
        .delimiter(delimiter)
        .flexible(false)
        .from_reader(text.as_bytes());
    let parsed: Result<Vec<csv::StringRecord>, csv::Error> = reader.records().collect();
    let fields = |r: &csv::StringRecord| r.iter().map(|s| s.to_string()).collect();
    parsed.ok().map(|rows| rows.iter().map(fields).collect())
}

/// The cell that a field becomes.
pub open spec fn field_value(field: Seq<char>) -> ValueView {
    if field.len() == 0 {
        ValueView::Blank
    } else {
        ValueView::Text(field)
    }
}

/// The row that a record becomes.
pub open spec fn record_values(record: Seq<Seq<char>>) -> Seq<ValueView> {
    Seq::new(record.len(), |i: int| field_value(record[i]))
}

/// The table that records become.
pub open spec fn records_values(records: Seq<Seq<Seq<char>>>) -> Seq<Seq<ValueView>> {
    Seq::new(records.len(), |i: int| record_values(records[i]))
}

/// The number of fields of the first record.
pub open spec fn record_width(records: Seq<Seq<Seq<char>>>) -> int {
    if records.len() > 0 {
        records[0].len() as int
    } else {
        0
    }
}

/// The place of the widest of the splits, the first such where several are, and its width. A
/// split that failed, or gave fewer than two records, does not count.
pub open spec fn widest_split(splits: Seq<Option<Seq<Seq<Seq<char>>>>>) -> (int, int)
    decreases splits.len(),
{
    if splits.len() == 0 {
        (-1, 0)
    } else {
        let best = widest_split(splits.drop_last());
        match splits.last() {
            Some(records) => if record_width(records) > best.1 && records.len() > 1 {
                (splits.len() - 1, record_width(records))
            } else {
                best
            },
            None => best,
        }
    }
}

/// The table of a text that was split at several delimiters: that of the widest split, if it has
/// two columns or more.
pub open spec fn split_table(splits: Seq<Option<Seq<Seq<Seq<char>>>>>) -> Option<
    Seq<Seq<ValueView>>,
> {
    let best = widest_split(splits);
    if best.1 < 2 {
        None
    } else {
        Some(records_values(splits[best.0]->Some_0))
    }
}

/// The splits of a list, each by its view.
pub open spec fn splits_view(splits: Seq<Option<Vec<Vec<String>>>>) -> Seq<
    Option<Seq<Seq<Seq<char>>>>,
> {
    Seq::new(
        splits.len(),
        |i: int|
            match splits[i] {
                Some(rows) => Some(records_view(rows@)),
                None => None,
            },
    )
}

/// The row that a record becomes.
fn values_of(record: &Vec<String>) -> (r: Vec<Value>)
    ensures
        row_view(r@) == record_values(Seq::new(record@.len(), |j: int| record@[j]@)),
{
    let ghost v = Seq::new(record@.len(), |j: int| record@[j]@);
    let mut r: Vec<Value> = Vec::new();
    let mut i: usize = 0;
    while i < record.len()
        invariant
            v == Seq::new(record@.len(), |j: int| record@[j]@),
            i <= record.len(),
            r.len() == i,
            forall|j: int| 0 <= j < i ==> (#[trigger] r@[j])@ == field_value(v[j]),
        decreases record.len() - i,
    {
        if record[i].as_str().is_empty() {
            r.push(Value::Blank);
        } else {
            r.push(Value::Text(record[i].clone()));
        }
        i = i + 1;
    }
    assert(row_view(r@) =~= record_values(v));
    r
}

/// The table that records become.
fn table_of(records: &Vec<Vec<String>>) -> (r: Vec<Vec<Value>>)
    ensures
        table_view(r@) == records_values(records_view(records@)),
{
    let ghost v = records_view(records@);
    let mut r: Vec<Vec<Value>> = Vec::new();
    let mut i: usize = 0;
    while i < records.len()
        invariant
            v == records_view(records@),
            i <= records.len(),
            r.len() == i,
            forall|j: int| 0 <= j < i ==> row_view((#[trigger] r@[j])@) == record_values(v[j]),
        decreases records.len() - i,
    {
        r.push(values_of(&records[i]));
        i = i + 1;
    }
    assert(table_view(r@) =~= records_values(v));
    r
}

/// The table of a text that was split at several delimiters: that of the widest split, the first
/// such where several are, if it has two records and two columns or more.
pub fn pick_table(splits: &Vec<Option<Vec<Vec<String>>>>) -> (r: Option<Vec<Vec<Value>>>)
    ensures
        split_table(splits_view(splits@)) == (match r {
            Some(rows) => Some(table_view(rows@)),
            None => None,
        }),
{
    let ghost v = splits_view(splits@);
    let mut best: usize = 0;
    let mut width: usize = 0;
    let mut i: usize = 0;
    while i < splits.len()
        invariant
            v == splits_view(splits@),
            i <= splits.len(),
            width == widest_split(v.take(i as int)).1,
            width > 0 ==> best < i && widest_split(v.take(i as int)).0 == best && splits@[best as int]
                is Some,
        decreases splits.len() - i,
    {
        assert(v.take(i + 1).drop_last() =~= v.take(i as int));
        match &splits[i] {
            Some(rows) => {
                assert(v[i as int] == Some(records_view(rows@)));
                let w: usize = if rows.len() > 0 {
                    rows[0].len()
                } else {
                    0
                };
                assert(w == record_width(records_view(rows@)));
                if w > width && rows.len() > 1 {
                    width = w;
                    best = i;
                }
            },
            None => {},
        }
        i = i + 1;
    }
    assert(v.take(v.len() as int) =~= v);
    if width < 2 {
        return None;
    }
    match &splits[best] {
        Some(rows) => Some(table_of(rows)),
        None => None,
    }
}

/// The table of a text: that of the widest split at a tab, a comma, a semicolon or a bar, tried
/// in that order.
pub open spec fn text_table(text: Seq<char>) -> Option<Seq<Seq<ValueView>>> {
    split_table(
        seq![csv_rows(text, 9), csv_rows(text, 44), csv_rows(text, 59), csv_rows(text, 124)],
    )
}

/// Whether all rows are as long as the first one.
pub open spec fn rectangular(rows: Seq<Seq<ValueView>>) -> bool {
    forall|i: int| 0 <= i < rows.len() ==> (#[trigger] rows[i]).len() == rows[0].len()
}

/// The widest split is one of the splits.
proof fn widest_split_is_there(splits: Seq<Option<Seq<Seq<Seq<char>>>>>)
    ensures
        widest_split(splits).1 > 0 ==> 0 <= widest_split(splits).0 < splits.len()
            && splits[widest_split(splits).0] is Some,
    decreases splits.len(),
{
    if splits.len() > 0 {
        widest_split_is_there(splits.drop_last());
    }
}

/// The table of a text.
fn table_in(text: &str) -> (r: Option<Vec<Vec<Value>>>)
    ensures
        text_table(text@) == (match r {
            Some(rows) => Some(table_view(rows@)),
            None => None,
        }),
        r matches Some(rows) ==> rectangular(table_view(rows@)),
{
    let mut splits: Vec<Option<Vec<Vec<String>>>> = Vec::new();
    splits.push(split_records(text, 9));
    splits.push(split_records(text, 44));
    splits.push(split_records(text, 59));
    splits.push(split_records(text, 124));
    assert(splits_view(splits@) =~= seq![
        csv_rows(text@, 9),
        csv_rows(text@, 44),
        csv_rows(text@, 59),
        csv_rows(text@, 124),
    ]);
    let r: Option<Vec<Vec<Value>>> = pick_table(&splits);
    proof {
        widest_split_is_there(splits_view(splits@));
        let k = widest_split(splits_view(splits@)).0;
        if r is Some {
            let rows = splits@[k]->Some_0;
            assert(table_view(r->Some_0@) == records_values(records_view(rows@)));
            assert forall|i: int| 0 <= i < rows@.len() implies (#[trigger] records_values(
                records_view(rows@),
            )[i]).len() == records_values(records_view(rows@))[0].len() by {
                assert(rows@[i]@.len() == rows@[0]@.len());
            }
        }
    }
    r
}

/// A cell of a workbook that is a source. A number is held as its decimal numeral, `inf`, `-inf`
/// or `NaN`.
pub enum ExcelCell {
    Empty,
    Number(String),
    Error(String),
    Text(String),
}

/// A cell of a workbook that is a source, in contracts.
pub enum ExcelView {
    Empty,
    Number(Seq<char>),
    Error(Seq<char>),
    Text(Seq<char>),
}

impl View for ExcelCell {
    type V = ExcelView;

    open spec fn view(&self) -> ExcelView {
        match self {
            ExcelCell::Empty => ExcelView::Empty,
            ExcelCell::Number(s) => ExcelView::Number(s@),
            ExcelCell::Error(s) => ExcelView::Error(s@),
            ExcelCell::Text(s) => ExcelView::Text(s@),
        }
    }
}

/// The cells of rows, each by its view.
pub open spec fn excel_view(rows: Seq<Vec<ExcelCell>>) -> Seq<Seq<ExcelView>> {
    Seq::new(rows.len(), |i: int| Seq::new(rows[i]@.len(), |j: int| rows[i]@[j]@))
}

/// Whether a numeral is none of a finite number.
pub open spec fn not_finite(s: Seq<char>) -> bool {
    s == "inf"@ || s == "-inf"@ || s == "NaN"@
}

/// The value of a cell.
pub open spec fn excel_value(cell: ExcelView) -> Result<ValueView, TableErrorView> {
    match cell {
        ExcelView::Empty => Ok(ValueView::Blank),
        ExcelView::Number(s) => Ok(
            ValueView::Number(
                if not_finite(s) {
                    None
                } else {
                    Some(s)
                },
            ),
        ),
        ExcelView::Error(m) => Err(TableErrorView::Cell(m)),
        ExcelView::Text(s) => Ok(ValueView::Text(s)),
    }
}

/// The values of a row, or the first error in it.
pub open spec fn excel_row(row: Seq<ExcelView>) -> Result<Seq<ValueView>, TableErrorView>
    decreases row.len(),
{
    if row.len() == 0 {
        Ok(Seq::empty())
    } else {
        match excel_row(row.drop_last()) {
            Err(e) => Err(e),
            Ok(values) => match excel_value(row.last()) {
                Err(e) => Err(e),
                Ok(v) => Ok(values.push(v)),
            },
        }
    }
}

/// The values of all rows, or the first error in them.
pub open spec fn excel_rows(rows: Seq<Seq<ExcelView>>) -> Result<
    Seq<Seq<ValueView>>,
    TableErrorView,
>
    decreases rows.len(),
{
    if rows.len() == 0 {
        Ok(Seq::empty())
    } else {
        match excel_rows(rows.drop_last()) {
            Err(e) => Err(e),
            Ok(table) => match excel_row(rows.last()) {
                Err(e) => Err(e),
                Ok(row) => Ok(table.push(row)),
            },
        }
    }
}

proof fn excel_row_errors_stay(row: Seq<ExcelView>, n: int)
    requires
        0 <= n <= row.len(),
        excel_row(row.take(n)) is Err,
    ensures
        excel_row(row) == excel_row(row.take(n)),
    decreases row.len() - n,
{
    if n < row.len() {
        assert(row.take(n + 1).drop_last() =~= row.take(n));
        excel_row_errors_stay(row, n + 1);
    } else {
        assert(row.take(n) =~= row);
    }
}

proof fn excel_errors_stay(rows: Seq<Seq<ExcelView>>, n: int)
    requires
        0 <= n <= rows.len(),
        excel_rows(rows.take(n)) is Err,
    ensures
        excel_rows(rows) == excel_rows(rows.take(n)),
    decreases rows.len() - n,
{
    if n < rows.len() {
        assert(rows.take(n + 1).drop_last() =~= rows.take(n));
        excel_errors_stay(rows, n + 1);
    } else {
        assert(rows.take(n) =~= rows);
    }
}

/// The value of a cell.
fn value_of(cell: &ExcelCell) -> (r: Result<Value, TableError>)
    ensures
        excel_value(cell@) == (match r {
            Ok(v) => Ok::<ValueView, TableErrorView>(v@),
            Err(e) => Err(e@),
        }),
{
    match cell {
        ExcelCell::Empty => Ok(Value::Blank),
        ExcelCell::Number(s) => if same(s.as_str(), "inf") || same(s.as_str(), "-inf") || same(
            s.as_str(),
            "NaN",
        ) {
            Ok(Value::Number(Number::NotFinite))
        } else {
            Ok(Value::Number(Number::Finite(s.clone())))
        },
        ExcelCell::Error(m) => Err(TableError::Cell(m.clone())),
        ExcelCell::Text(s) => Ok(Value::Text(s.clone())),
    }
}

/// The values of a row, or the first error in it.
fn row_of(row: &Vec<ExcelCell>) -> (r: Result<Vec<Value>, TableError>)
    ensures
        excel_row(Seq::new(row@.len(), |j: int| row@[j]@)) == (match r {
            Ok(v) => Ok::<Seq<ValueView>, TableErrorView>(row_view(v@)),
            Err(e) => Err(e@),
        }),
{
    let ghost v = Seq::new(row@.len(), |j: int| row@[j]@);
    let mut out: Vec<Value> = Vec::new();
    let mut i: usize = 0;
    assert(row_view(out@) =~= Seq::<ValueView>::empty());
    while i < row.len()
        invariant
            v == Seq::new(row@.len(), |j: int| row@[j]@),
            i <= row.len(),
            excel_row(v.take(i as int)) == Ok::<Seq<ValueView>, TableErrorView>(row_view(out@)),
        decreases row.len() - i,
    {
        assert(v.take(i + 1).drop_last() =~= v.take(i as int));
        assert(v[i as int] == row@[i as int]@);
        match value_of(&row[i]) {
            Ok(x) => {
                let ghost before = row_view(out@);
                out.push(x);
                assert(row_view(out@) =~= before.push(x@));
            },
            Err(e) => {
                proof {
                    excel_row_errors_stay(v, i + 1);
                }
                return Err(e);
            },
        }
        i = i + 1;
    }
    assert(v.take(v.len() as int) =~= v);
    Ok(out)
}

/// The values of the cells of a workbook, or the first error among them.
pub fn excel_table(rows: &Vec<Vec<ExcelCell>>) -> (r: Result<Vec<Vec<Value>>, TableError>)
    ensures
        excel_rows(excel_view(rows@)) == (match r {
            Ok(v) => Ok::<Seq<Seq<ValueView>>, TableErrorView>(table_view(v@)),
            Err(e) => Err(e@),
        }),
{
    let ghost v = excel_view(rows@);
    let mut out: Vec<Vec<Value>> = Vec::new();
    let mut i: usize = 0;
    assert(table_view(out@) =~= Seq::<Seq<ValueView>>::empty());
    while i < rows.len()
        invariant
            v == excel_view(rows@),
            i <= rows.len(),
            excel_rows(v.take(i as int)) == Ok::<Seq<Seq<ValueView>>, TableErrorView>(
                table_view(out@),
            ),
        decreases rows.len() - i,
    {
        assert(v.take(i + 1).drop_last() =~= v.take(i as int));
        match row_of(&rows[i]) {
            Ok(x) => {
                let ghost before = table_view(out@);
                out.push(x);
                assert(table_view(out@) =~= before.push(row_view(x@)));
            },
            Err(e) => {
                proof {
                    excel_errors_stay(v, i + 1);
                }
                return Err(e);
            },
        }
        i = i + 1;
    }
    assert(v.take(v.len() as int) =~= v);
    Ok(out)
}

/// What was read from the file of a report: the cells of the first worksheet of a workbook, or why
/// there are none, or the bytes of a text file.
pub enum Content {
    Excel(Vec<Vec<ExcelCell>>),
    Unopened(String),
    NoSheet,
    Unread(String),
    Bytes(Vec<u8>),
}

/// The table of a report from the file with the given path, and the name of its encoding.
pub open spec fn report_table(path: Seq<char>, content: Content, code: Seq<char>) -> Result<
    (Seq<Seq<ValueView>>, Seq<char>),
    TableErrorView,
> {
    match content {
        Content::Unopened(m) => Err(TableErrorView::Open(m@)),
        Content::NoSheet => Err(TableErrorView::NoSheet),
        Content::Unread(m) => Err(TableErrorView::Sheet(m@)),
        Content::Excel(rows) => match excel_rows(excel_view(rows@)) {
            Err(e) => Err(e),
            Ok(table) => Ok((table, "Excel"@)),
        },
        Content::Bytes(bytes) => match report_text(bytes@, code) {
            Err(e) => Err(e),
            Ok((text, encoding)) => match text_table(text) {
                None => Err(TableErrorView::Columns(path)),
                Some(table) => Ok((table, encoding)),
            },
        },
    }
}

/// The table of a report from the file with the given path, and the name of its encoding. The
/// rows of a text file are all as long as its first one.
pub fn read_table(path: &str, content: &Content, code: &str) -> (r: Result<
    (Vec<Vec<Value>>, String),
    TableError,
>)
    requires
        content matches Content::Bytes(bytes) ==> bytes@.len() <= usize::MAX / 12,
    ensures
        report_table(path@, *content, code@) == (match r {
            Ok((rows, encoding)) => Ok::<(Seq<Seq<ValueView>>, Seq<char>), TableErrorView>(
                (table_view(rows@), encoding@),
            ),
            Err(e) => Err(e@),
        }),
        content is Bytes && r is Ok ==> rectangular(table_view(r->Ok_0.0@)),
{
    match content {
        Content::Unopened(m) => Err(TableError::Open(m.clone())),
        Content::NoSheet => Err(TableError::NoSheet),
        Content::Unread(m) => Err(TableError::Sheet(m.clone())),
        Content::Excel(rows) => match excel_table(rows) {
            Ok(table) => Ok((table, "Excel".to_string())),
            Err(e) => Err(e),
        },
        Content::Bytes(bytes) => match decode(bytes.as_slice(), code) {
            Err(e) => Err(e),
            Ok((text, encoding)) => match table_in(text.as_str()) {
                None => Err(TableError::Columns(path.to_string())),
                Some(table) => Ok((table, encoding)),
            },
        },
    }
}

/// The values of a row stand where its cells stood.
proof fn row_values_stand_in_place(row: Seq<ExcelView>, j: int)
    requires
        excel_row(row) is Ok,
        0 <= j < row.len(),
    ensures
        excel_row(row)->Ok_0.len() == row.len(),
        excel_value(row[j]) == Ok::<ValueView, TableErrorView>(excel_row(row)->Ok_0[j]),
    decreases row.len(),
{
    let rest = row.drop_last();
    if rest.len() > 0 {
        row_values_stand_in_place(
            rest,
            if j < rest.len() {
                j
            } else {
                0
            },
        );
        if j < rest.len() {
            assert(rest[j] == row[j]);
        }
    } else {
        assert(excel_row(rest)->Ok_0.len() == 0);
    }
}

/// The rows of a table stand where those of the worksheet stood.
proof fn rows_stand_in_place(rows: Seq<Seq<ExcelView>>, i: int)
    requires
        excel_rows(rows) is Ok,
        0 <= i < rows.len(),
    ensures
        excel_rows(rows)->Ok_0.len() == rows.len(),
        excel_row(rows[i]) == Ok::<Seq<ValueView>, TableErrorView>(excel_rows(rows)->Ok_0[i]),
    decreases rows.len(),
{
    let rest = rows.drop_last();
    if rest.len() > 0 {
        rows_stand_in_place(
            rest,
            if i < rest.len() {
                i
            } else {
                0
            },
        );
        if i < rest.len() {
            assert(rest[i] == rows[i]);
        }
    } else {
        assert(excel_rows(rest)->Ok_0.len() == 0);
    }
}

/// The table of a workbook has as many rows as its worksheet and as many cells in each, and each of
/// them is what the cell at its place is: the very text, the very number, or blank.
pub proof fn workbook_cells_are_kept(
    path: Seq<char>,
    rows: Vec<Vec<ExcelCell>>,
    code: Seq<char>,
    i: int,
    j: int,
)
    requires
        report_table(path, Content::Excel(rows), code) is Ok,
        0 <= i < rows@.len(),
    ensures
        ({
            let (table, encoding) = report_table(path, Content::Excel(rows), code)->Ok_0;
            &&& encoding == "Excel"@
            &&& table.len() == rows@.len()
            &&& table[i].len() == rows@[i]@.len()
            &&& 0 <= j < rows@[i]@.len() ==> match rows@[i]@[j] {
                ExcelCell::Empty => table[i][j] == ValueView::Blank,
                ExcelCell::Text(s) => table[i][j] == ValueView::Text(s@),
                ExcelCell::Number(n) => if n@ == "inf"@ || n@ == "-inf"@ || n@ == "NaN"@ {
                    table[i][j] == ValueView::Number(None)
                } else {
                    table[i][j] == ValueView::Number(Some(n@))
                },
                ExcelCell::Error(_) => false,
            }
        }),
{
    let v = excel_view(rows@);
    rows_stand_in_place(v, i);
    assert(v[i].len() == rows@[i]@.len());
    if v[i].len() > 0 {
        row_values_stand_in_place(
            v[i],
            if 0 <= j < v[i].len() {
                j
            } else {
                0
            },
        );
        if 0 <= j < v[i].len() {
            assert(v[i][j] == rows@[i]@[j]@);
        }
    } else {
        assert(excel_row(v[i])->Ok_0.len() == 0);
    }
}

/// The cells of an empty worksheet are an empty table.
pub proof fn empty_worksheets_are_empty_tables(path: Seq<char>, rows: Vec<Vec<ExcelCell>>, code: Seq<char>)
    requires
        rows@.len() == 0,
    ensures
        report_table(path, Content::Excel(rows), code) == Ok::<
            (Seq<Seq<ValueView>>, Seq<char>),
            TableErrorView,
        >((Seq::empty(), "Excel"@)),
{
}

/// A workbook is refused because of a cell with an error, and only because of one: the first in its
/// worksheet, row by row.
pub proof fn cell_errors_are_told(path: Seq<char>, rows: Vec<Vec<ExcelCell>>, code: Seq<char>)
    ensures
        match report_table(path, Content::Excel(rows), code) {
            Ok(_) => forall|i: int, j: int|
                0 <= i < rows@.len() && 0 <= j < rows@[i]@.len() ==> !(#[trigger] rows@[i]@[j]
                    is Error),
            Err(e) => exists|i: int, j: int|
                0 <= i < rows@.len() && 0 <= j < rows@[i]@.len() && (
                #[trigger] rows@[i]@[j] matches ExcelCell::Error(m) && e == TableErrorView::Cell(
                    m@,
                )) && forall|k: int, l: int|
                    0 <= k <= i && 0 <= l < rows@[k]@.len() && (k < i || l < j) ==> !(
                    #[trigger] rows@[k]@[l] is Error),
        },
{
    let v = excel_view(rows@);
    match excel_rows(v) {
        Ok(_) => {
            assert forall|i: int, j: int|
                0 <= i < rows@.len() && 0 <= j < rows@[i]@.len() implies !(#[trigger] rows@[i]@[j]
                is Error) by {
                workbook_cells_are_kept(path, rows, code, i, j);
            }
        },
        Err(e) => {
            let (i, j) = first_cell_error(v);
            assert(v[i][j] == rows@[i]@[j]@);
            assert forall|k: int, l: int|
                0 <= k <= i && 0 <= l < rows@[k]@.len() && (k < i || l < j) implies !(
            #[trigger] rows@[k]@[l] is Error) by {
                assert(v[k][l] == rows@[k]@[l]@);
            }
        },
    }
}

/// Where the first error in a row stands.
proof fn first_error_in_row(row: Seq<ExcelView>) -> (j: int)
    requires
        excel_row(row) is Err,
    ensures
        0 <= j < row.len(),
        row[j] matches ExcelView::Error(m) && excel_row(row) == Err::<Seq<ValueView>, TableErrorView>(
            TableErrorView::Cell(m),
        ),
        forall|l: int| 0 <= l < j ==> !(#[trigger] row[l] is Error),
    decreases row.len(),
{
    let rest = row.drop_last();
    if excel_row(rest) is Err {
        let j = first_error_in_row(rest);
        assert(rest[j] == row[j]);
        assert forall|l: int| 0 <= l < j implies !(#[trigger] row[l] is Error) by {
            assert(rest[l] == row[l]);
        }
        j
    } else {
        let j = row.len() - 1;
        assert forall|l: int| 0 <= l < j implies !(#[trigger] row[l] is Error) by {
            assert(rest[l] == row[l]);
            row_values_stand_in_place(rest, l);
        }
        j
    }
}

/// Where the first error in a worksheet stands.
proof fn first_cell_error(rows: Seq<Seq<ExcelView>>) -> (r: (int, int))
    requires
        excel_rows(rows) is Err,
    ensures
        0 <= r.0 < rows.len(),
        0 <= r.1 < rows[r.0].len(),
        rows[r.0][r.1] matches ExcelView::Error(m) && excel_rows(rows) == Err::<
            Seq<Seq<ValueView>>,
            TableErrorView,
        >(TableErrorView::Cell(m)),
        forall|k: int, l: int|
            0 <= k <= r.0 && 0 <= l < rows[k].len() && (k < r.0 || l < r.1) ==> !(
            #[trigger] rows[k][l] is Error),
    decreases rows.len(),
{
    let rest = rows.drop_last();
    if excel_rows(rest) is Err {
        let r = first_cell_error(rest);
        assert(rest[r.0] == rows[r.0]);
        assert forall|k: int, l: int|
            0 <= k <= r.0 && 0 <= l < rows[k].len() && (k < r.0 || l < r.1) implies !(
        #[trigger] rows[k][l] is Error) by {
            assert(rest[k] == rows[k]);
            assert(!(rest[k][l] is Error));
        }
        r
    } else {
        let i = rows.len() - 1;
        let j = first_error_in_row(rows[i]);
        assert forall|k: int, l: int|
            0 <= k <= i && 0 <= l < rows[k].len() && (k < i || l < j) implies !(
        #[trigger] rows[k][l] is Error) by {
            if k < i {
                assert(rest[k] == rows[k]);
                rows_stand_in_place(rest, k);
                row_values_stand_in_place(rows[k], l);
            }
        }
        (i, j)
    }
}

/// Whether a text was split at a delimiter into two records or more, the first of at least `n`
/// fields.
pub open spec fn splits_wide(records: Option<Seq<Seq<Seq<char>>>>, n: int) -> bool {
    records matches Some(r) && r.len() >= 2 && r[0].len() >= n
}

/// The table of a text file is the text split at one of the four delimiters, each field as it is and
/// an empty one blank: at the one with the most columns, two at least, and of several such at the one
/// that comes first of the tab, the comma, the semicolon and the bar. There is none where no delimiter
/// makes two columns.
pub proof fn text_fields_are_kept(text: Seq<char>)
    ensures
        ({
            let tab = csv_rows(text, 9);
            let comma = csv_rows(text, 44);
            let semicolon = csv_rows(text, 59);
            let bar = csv_rows(text, 124);
            let splits = seq![tab, comma, semicolon, bar];
            match text_table(text) {
                None => !splits_wide(tab, 2) && !splits_wide(comma, 2) && !splits_wide(semicolon, 2)
                    && !splits_wide(bar, 2),
                Some(table) => exists|k: int| #[trigger]
                    chosen_delimiter(splits, k, table),
            }
        }),
{
    let splits = seq![
        csv_rows(text, 9),
        csv_rows(text, 44),
        csv_rows(text, 59),
        csv_rows(text, 124),
    ];
    widest_split_is_widest(splits);
    assert(splits[0] == csv_rows(text, 9) && splits[1] == csv_rows(text, 44));
    assert(splits[2] == csv_rows(text, 59) && splits[3] == csv_rows(text, 124));
    if let Some(table) = text_table(text) {
        let k = widest_split(splits).0;
        let records = splits[k]->Some_0;
        assert forall|i: int, j: int|
            0 <= i < records.len() && 0 <= j < records[i].len() implies #[trigger] table[i][j] == (
        if records[i][j] == Seq::<char>::empty() {
            ValueView::Blank
        } else {
            ValueView::Text(records[i][j])
        }) by {
            assert(records[i][j].len() == 0 ==> records[i][j] =~= Seq::<char>::empty());
            assert(table[i] == record_values(records[i]));
        }
        assert(chosen_delimiter(splits, k, table));
    }
}

/// Whether a table holds the fields of one of several splits, which no other is wider than, nor an
/// earlier one as wide.
pub open spec fn chosen_delimiter(
    splits: Seq<Option<Seq<Seq<Seq<char>>>>>,
    k: int,
    table: Seq<Seq<ValueView>>,
) -> bool {
    &&& 0 <= k < splits.len()
    &&& splits_wide(splits[k], 2)
    &&& splits[k] matches Some(records) && {
        &&& table.len() == records.len()
        &&& forall|i: int| 0 <= i < records.len() ==> (#[trigger] table[i]).len() == records[i].len()
        &&& forall|i: int, j: int|
            0 <= i < records.len() && 0 <= j < records[i].len() ==> #[trigger] table[i][j] == (
            if records[i][j] == Seq::<char>::empty() {
                ValueView::Blank
            } else {
                ValueView::Text(records[i][j])
            })
        &&& forall|m: int|
            0 <= m < splits.len() ==> !splits_wide(#[trigger] splits[m], records[0].len() as int + 1)
        &&& forall|m: int| 0 <= m < k ==> !splits_wide(#[trigger] splits[m], records[0].len() as int)
    }
}

proof fn widest_split_is_widest(splits: Seq<Option<Seq<Seq<Seq<char>>>>>)
    ensures
        ({
            let (k, w) = widest_split(splits);
            &&& w >= 0
            &&& w > 0 ==> 0 <= k < splits.len() && splits_wide(splits[k], w) && record_width(
                splits[k]->Some_0,
            ) == w
            &&& forall|m: int| 0 <= m < splits.len() ==> !splits_wide(#[trigger] splits[m], w + 1)
            &&& w > 0 ==> forall|m: int| 0 <= m < k ==> !splits_wide(#[trigger] splits[m], w)
        }),
    decreases splits.len(),
{
    if splits.len() > 0 {
        let rest = splits.drop_last();
        widest_split_is_widest(rest);
        let (k, w) = widest_split(splits);
        assert forall|m: int| 0 <= m < splits.len() implies !splits_wide(
            #[trigger] splits[m],
            w + 1,
        ) by {
            if m < rest.len() {
                assert(rest[m] == splits[m]);
                assert(!splits_wide(rest[m], widest_split(rest).1 + 1));
            }
        }
        if w > 0 {
            assert forall|m: int| 0 <= m < k implies !splits_wide(#[trigger] splits[m], w) by {
                assert(rest[m] == splits[m]);
                assert(!splits_wide(rest[m], widest_split(rest).1 + 1));
            }
        }
    }
}

/// In which encoding a text file is read: in UTF-16 where it starts with the byte order mark of it, and
/// else in UTF-8 where it is that; Japanese files that are not in Shift_JIS and then in GBK, others in
/// GBK and then in Windows-1252, the first in which they are well formed.
pub proof fn encodings_are_tried_in_order(bytes: Seq<u8>, code: Seq<char>)
    ensures
        ({
            let text = report_text(bytes, code);
            let little = bytes.len() >= 2 && bytes[0] == 255 && bytes[1] == 254;
            let big = bytes.len() >= 2 && bytes[0] == 254 && bytes[1] == 255;
            let le = decoded(Charset::Utf16Le, bytes);
            let be = decoded(Charset::Utf16Be, bytes);
            let japanese = decoded(Charset::ShiftJis, bytes);
            let chinese = decoded(Charset::Gbk, bytes);
            let western = decoded(Charset::Windows1252, bytes);
            &&& little && le.1 || big && be.1 ==> text == Err::<(Seq<char>, Seq<char>), TableErrorView>(
                TableErrorView::Utf16,
            )
            &&& little && !le.1 ==> text == Ok::<(Seq<char>, Seq<char>), TableErrorView>((le.0, "UTF-16LE"@))
            &&& big && !be.1 ==> text == Ok::<(Seq<char>, Seq<char>), TableErrorView>((be.0, "UTF-16BE"@))
            &&& !little && !big && valid_utf8(bytes) ==> (text matches Ok((s, name)) && name
                == "UTF-8"@ && exists|n: int| #[trigger]
                only_marks(decode_utf8(bytes), n) && s == decode_utf8(bytes).subrange(
                    n,
                    decode_utf8(bytes).len() as int,
                ))
            &&& !little && !big && !valid_utf8(bytes) ==> {
                &&& code == "JP"@ && !japanese.1 ==> text == Ok::<(Seq<char>, Seq<char>), TableErrorView>(
                    (japanese.0, "Shift_JIS"@),
                )
                &&& code == "JP"@ && japanese.1 && !chinese.1 ==> text == Ok::<(Seq<char>, Seq<char>), TableErrorView>(
                    (chinese.0, "GBK"@),
                )
                &&& code == "JP"@ && japanese.1 && chinese.1 ==> text == Err::<(Seq<char>, Seq<char>), TableErrorView>(
                    TableErrorView::Encoding,
                )
                &&& code != "JP"@ && !chinese.1 ==> text == Ok::<(Seq<char>, Seq<char>), TableErrorView>(
                    (chinese.0, "GBK"@),
                )
                &&& code != "JP"@ && chinese.1 && !western.1 ==> text == Ok::<(Seq<char>, Seq<char>), TableErrorView>(
                    (western.0, "windows-1252"@),
                )
                &&& code != "JP"@ && chinese.1 && western.1 ==> text == Err::<(Seq<char>, Seq<char>), TableErrorView>(
                    TableErrorView::Encoding,
                )
            }
        }),
{
    if valid_utf8(bytes) {
        let s = decode_utf8(bytes);
        let n = count_marks(s);
        assert(only_marks(s, n));
    }
}

/// Whether the first `n` characters of a text, and not the one behind them, are byte order marks.
pub open spec fn only_marks(s: Seq<char>, n: int) -> bool {
    &&& 0 <= n <= s.len()
    &&& forall|i: int| 0 <= i < n ==> #[trigger] s[i] == '\u{feff}'
    &&& n < s.len() ==> s[n] != '\u{feff}'
}

proof fn count_marks(s: Seq<char>) -> (n: int)
    ensures
        only_marks(s, n),
        without_marks(s) == s.subrange(n, s.len() as int),
    decreases s.len(),
{
    if s.len() > 0 && s[0] == '\u{feff}' {
        let rest = s.drop_first();
        let m = count_marks(rest);
        assert forall|i: int| 0 <= i < m + 1 implies #[trigger] s[i] == '\u{feff}' by {
            if i > 0 {
                assert(rest[i - 1] == s[i]);
            }
        }
        assert(m < rest.len() ==> rest[m] == s[m + 1]);
        assert(s.subrange(m + 1, s.len() as int) =~= rest.subrange(m, rest.len() as int));
        m + 1
    } else {
        assert(s.subrange(0, s.len() as int) =~= s);
        0
    }
}

/// The table of a file is that of its workbook or of its text, and the name of its encoding goes with it;
/// why there is none is told.
pub proof fn files_become_tables(path: Seq<char>, content: Content, code: Seq<char>)
    ensures
        match content {
            Content::Unopened(m) => report_table(path, content, code) == Err::<
                (Seq<Seq<ValueView>>, Seq<char>),
                TableErrorView,
            >(TableErrorView::Open(m@)),
            Content::NoSheet => report_table(path, content, code) == Err::<
                (Seq<Seq<ValueView>>, Seq<char>),
                TableErrorView,
            >(TableErrorView::NoSheet),
            Content::Unread(m) => report_table(path, content, code) == Err::<
                (Seq<Seq<ValueView>>, Seq<char>),
                TableErrorView,
            >(TableErrorView::Sheet(m@)),
            Content::Excel(_) => report_table(path, content, code) matches Err(e) ==> e is Cell,
            Content::Bytes(bytes) => match report_text(bytes@, code) {
                Err(e) => report_table(path, content, code) == Err::<
                    (Seq<Seq<ValueView>>, Seq<char>),
                    TableErrorView,
                >(e),
                Ok((text, encoding)) => match report_table(path, content, code) {
                    Ok((table, name)) => name == encoding && text_table(text) == Some(table),
                    Err(e) => e == TableErrorView::Columns(path) && text_table(text) is None,
                },
            },
        },
{
    if let Content::Excel(rows) = content {
        cell_errors_are_told(path, rows, code);
    }
}

/// Records are seen field by field, and so is the worksheet of a workbook.
pub proof fn records_are_seen_field_by_field(records: Seq<Vec<String>>, i: int, j: int)
    requires
        0 <= i < records.len(),
        0 <= j < records[i]@.len(),
    ensures
        records_view(records).len() == records.len(),
        records_view(records)[i].len() == records[i]@.len(),
        records_view(records)[i][j] == records[i]@[j]@,
{
}

/// What is said of a file that is no table: the words are fixed, and what they are
/// about stands in them as it is.
pub proof fn faults_of_tables_are_worded(error: TableErrorView)
    ensures
        match error {
            TableErrorView::Open(m) => stands_between(
                error.words(),
                "无法读取源 Excel: "@,
                m,
                Seq::<char>::empty(),
            ),
            TableErrorView::NoSheet => error.words() == "源文件没有工作表"@,
            TableErrorView::Sheet(m) => error.words() == m,
            TableErrorView::Cell(m) => stands_between(
                error.words(),
                "源文件包含错误单元格："@,
                m,
                Seq::<char>::empty(),
            ),
            TableErrorView::Utf16 => error.words() == "UTF-16 编码损坏"@,
            TableErrorView::Encoding => error.words() == "无法可靠识别文件编码，请将源报告另存为 UTF-8 CSV 或 XLSX"@,
            TableErrorView::Columns(p) => stands_between(
                error.words(),
                "无法解析多列表格，可能存在编码、引号或分隔符问题："@,
                p,
                Seq::<char>::empty(),
            ),
        },
{
}

} // verus!
