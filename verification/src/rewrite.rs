//! Rewriting a workbook: new rows for some of its worksheets, everything else kept, and the result
//! read back before anyone gets to see it.

use crate::archive::{
    archive_bytes, content_at, content_named, copy_at, copy_error, data_fault, entries_of,
    finish_archive, finished, named_parts_are_found, new_writer, open_archive, part_count,
    part_names, put_data, read_at, read_named, Entry, Part, Writer,
};
use crate::map::{
    ascending, keys_with, lookup, lookup_at, lookup_nothing, rank_bounds, values_with,
    what_is_put_is_found, TextMap,
};
use crate::sheet::{attempt, patchable, patched, SheetError, SheetErrorView};
use crate::text::{same_bytes, stands_between, texts_of, utf8_text};
use crate::value::{table_view, Value, ValueView};
use crate::workbook::{
    leads_to, mappings, names_sheet, recalc, recalculated, sheet_map, worksheets_have_their_parts, MapError,
    RecalcError, RecalcErrorView,
};
use crate::xml::{
    is_reachable, nodes_view, parse_xml, reachable, xml_nodes, NodeView, XmlNode,
};
use vstd::prelude::*;
use vstd::string::StringExecFns;
use vstd::utf8::{decode_utf8, encode_utf8, valid_utf8};

verus! {

/// Why a workbook cannot be rewritten.
pub enum RewriteError {
    /// An archive cannot be read or written, with the message of the error.
    Archive(String),
    /// A part is no XML, with the message of the parser.
    Xml(String),
    /// The worksheets cannot be told.
    Worksheets(MapError),
    /// A worksheet is no longer there.
    Gone,
    /// A worksheet cannot be filled.
    Sheet(SheetError),
    /// A recalculation cannot be asked for.
    Recalc(RecalcError),
    /// The new archive has another number of parts.
    Count,
    /// A changed part, with its name, is not read back as it was written.
    Changed(String),
    /// A kept part, with its name, is not read back as it was.
    Lost(String),
}

/// Why a workbook cannot be rewritten, in contracts. `Beyond` is no error: a part is nested deeper than
/// the stack carries the parser, or the sheet data and the dimension of a worksheet cannot be replaced
/// one after the other, and nothing is told then.
pub enum RewriteErrorView {
    Archive(Seq<char>),
    Xml(Seq<char>),
    Worksheets(MapError),
    Gone,
    Sheet(SheetErrorView),
    Beyond,
    Recalc(RecalcErrorView),
    Count,
    Changed(Seq<char>),
    Lost(Seq<char>),
}

impl View for RewriteError {
    type V = RewriteErrorView;

    open spec fn view(&self) -> RewriteErrorView {
        match self {
            RewriteError::Archive(m) => RewriteErrorView::Archive(m@),
            RewriteError::Xml(m) => RewriteErrorView::Xml(m@),
            RewriteError::Worksheets(e) => RewriteErrorView::Worksheets(*e),
            RewriteError::Gone => RewriteErrorView::Gone,
            RewriteError::Sheet(e) => RewriteErrorView::Sheet(e@),
            RewriteError::Recalc(e) => RewriteErrorView::Recalc(e@),
            RewriteError::Count => RewriteErrorView::Count,
            RewriteError::Changed(n) => RewriteErrorView::Changed(n@),
            RewriteError::Lost(n) => RewriteErrorView::Lost(n@),
        }
    }
}

impl RewriteErrorView {
    /// The error in words.
    pub open spec fn words(self) -> Seq<char> {
        match self {
            RewriteErrorView::Archive(m) => m,
            RewriteErrorView::Xml(m) => m,
            RewriteErrorView::Worksheets(e) => e.words(),
            RewriteErrorView::Gone => "目标工作表消失"@,
            RewriteErrorView::Sheet(e) => e.words(),
            RewriteErrorView::Beyond => Seq::empty(),
            RewriteErrorView::Recalc(e) => e.words(),
            RewriteErrorView::Count => "保存校验失败：文件部件数量变化"@,
            RewriteErrorView::Changed(n) => "写入校验失败："@ + n,
            RewriteErrorView::Lost(n) => "模板保留校验失败："@ + n,
        }
    }
}

impl RewriteError {
    /// The error in words.
    pub fn message(&self) -> (r: String)
        ensures
            r@ == self@.words(),
    {
        match self {
            RewriteError::Archive(m) => m.clone(),
            RewriteError::Xml(m) => m.clone(),
            RewriteError::Worksheets(e) => e.message(),
            RewriteError::Gone => "目标工作表消失".to_string(),
            RewriteError::Sheet(e) => e.message(),
            RewriteError::Recalc(e) => e.message(),
            RewriteError::Count => "保存校验失败：文件部件数量变化".to_string(),
            RewriteError::Changed(n) => {
                let mut r: String = "写入校验失败：".to_string();
                r.append(n.as_str());
                r
            },
            RewriteError::Lost(n) => {
                let mut r: String = "模板保留校验失败：".to_string();
                r.append(n.as_str());
                r
            },
        }
    }
}

/// Why a workbook cannot be rewritten, or that nothing is told.
pub open spec fn fault(e: Option<RewriteError>) -> RewriteErrorView {
    match e {
        Some(e) => e@,
        None => RewriteErrorView::Beyond,
    }
}

/// The nodes of a part.
pub open spec fn parsed(text: Seq<char>) -> Result<Seq<NodeView>, RewriteErrorView> {
    if !reachable(text) {
        Err(RewriteErrorView::Beyond)
    } else {
        match xml_nodes(text) {
            Err(m) => Err(RewriteErrorView::Xml(m)),
            Ok(nodes) => Ok(nodes),
        }
    }
}

/// The nodes of a part.
fn parse(text: &str) -> (r: Result<Vec<XmlNode>, Option<RewriteError>>)
    ensures
        parsed(text@) == (match r {
            Ok(nodes) => Ok::<Seq<NodeView>, RewriteErrorView>(nodes_view(nodes@)),
            Err(e) => Err(fault(e)),
        }),
{
    if !is_reachable(text) {
        return Err(None);
    }
    match parse_xml(text) {
        Ok(nodes) => Ok(nodes),
        Err(m) => Err(Some(RewriteError::Xml(m))),
    }
}

/// Without a limit on what is read.
pub const ALL: u64 = 0xffff_ffff_ffff_ffff;

/// The text of the part with the given name of an archive.
pub open spec fn part_text(bytes: Seq<u8>, name: Seq<char>) -> Result<Seq<char>, Seq<char>> {
    match content_named(bytes, name, ALL as nat) {
        Err(m) => Err(m),
        Ok((_, Err(m))) => Err(m),
        Ok((_, Ok(data))) => if valid_utf8(data) {
            Ok(decode_utf8(data))
        } else {
            Err("stream did not contain valid UTF-8"@)
        },
    }
}

/// The worksheets of a workbook in memory: their names in order, and the parts they are in.
pub open spec fn workbook_map(bytes: Seq<u8>) -> Result<
    (Seq<Seq<char>>, Seq<Seq<char>>),
    RewriteErrorView,
> {
    match part_text(bytes, "xl/workbook.xml"@) {
        Err(m) => Err(RewriteErrorView::Archive(m)),
        Ok(book) => match part_text(bytes, "xl/_rels/workbook.xml.rels"@) {
            Err(m) => Err(RewriteErrorView::Archive(m)),
            Ok(relations) => match parsed(book) {
                Err(e) => Err(e),
                Ok(nodes) => match parsed(relations) {
                    Err(e) => Err(e),
                    Ok(rels) => match sheet_map(nodes, rels, nodes.len()) {
                        Err(e) => Err(RewriteErrorView::Worksheets(e)),
                        Ok(map) => Ok(map),
                    },
                },
            },
        },
    }
}

/// The names of the worksheets of a workbook in memory, in order.
pub open spec fn sheet_name_list(bytes: Seq<u8>) -> Result<Seq<Seq<char>>, RewriteErrorView> {
    match part_names(bytes) {
        Err(m) => Err(RewriteErrorView::Archive(m)),
        Ok(_) => match workbook_map(bytes) {
            Err(e) => Err(e),
            Ok((keys, _)) => Ok(keys),
        },
    }
}

/// The text of the part with the given name.
fn read_part(z: &mut zip::ZipArchive<std::io::Cursor<Vec<u8>>>, name: &str) -> (r: Result<
    String,
    String,
>)
    requires
        part_names(archive_bytes(*old(z))) is Ok,
    ensures
        archive_bytes(*final(z)) == archive_bytes(*old(z)),
        part_text(archive_bytes(*old(z)), name@) == (match r {
            Ok(s) => Ok::<Seq<char>, Seq<char>>(s@),
            Err(m) => Err(m@),
        }),
{
    match read_named(z, name, ALL) {
        Err(m) => Err(m),
        Ok(p) => match p.data {
            Err(m) => Err(m),
            Ok(data) => match utf8_text(data.as_slice()) {
                Some(s) => {
                    proof {
                        vstd::utf8::encode_utf8_decode_utf8(s@);
                    }
                    Ok(s)
                },
                None => Err("stream did not contain valid UTF-8".to_string()),
            },
        },
    }
}

/// The parts that the worksheets of an open workbook are in.
fn read_map(z: &mut zip::ZipArchive<std::io::Cursor<Vec<u8>>>) -> (r: Result<
    TextMap<String>,
    Option<RewriteError>,
>)
    requires
        part_names(archive_bytes(*old(z))) is Ok,
    ensures
        archive_bytes(*final(z)) == archive_bytes(*old(z)),
        match r {
            Ok(map) => map.wf() && workbook_map(archive_bytes(*old(z))) == Ok::<
                (Seq<Seq<char>>, Seq<Seq<char>>),
                RewriteErrorView,
            >((map.keys(), texts_of(map.values()))),
            Err(e) => workbook_map(archive_bytes(*old(z))) == Err::<
                (Seq<Seq<char>>, Seq<Seq<char>>),
                RewriteErrorView,
            >(fault(e)),
        },
{
    let book: String = match read_part(z, "xl/workbook.xml") {
        Ok(s) => s,
        Err(m) => {
            return Err(Some(RewriteError::Archive(m)));
        },
    };
    let relations: String = match read_part(z, "xl/_rels/workbook.xml.rels") {
        Ok(s) => s,
        Err(m) => {
            return Err(Some(RewriteError::Archive(m)));
        },
    };
    let nodes: Vec<XmlNode> = match parse(book.as_str()) {
        Ok(v) => v,
        Err(e) => {
            return Err(e);
        },
    };
    let rels: Vec<XmlNode> = match parse(relations.as_str()) {
        Ok(v) => v,
        Err(e) => {
            return Err(e);
        },
    };
    match mappings(&nodes, &rels) {
        Ok(map) => Ok(map),
        Err(e) => Err(Some(RewriteError::Worksheets(e))),
    }
}

/// The names of the worksheets of a workbook in memory, in order.
fn list_names(bytes: &[u8]) -> (r: Result<Vec<String>, Option<RewriteError>>)
    ensures
        sheet_name_list(bytes@) == (match r {
            Ok(v) => Ok::<Seq<Seq<char>>, RewriteErrorView>(texts_of(v@)),
            Err(e) => Err(fault(e)),
        }),
{
    let mut z = match open_archive(bytes) {
        Ok(z) => z,
        Err(m) => {
            return Err(Some(RewriteError::Archive(m)));
        },
    };
    let map: TextMap<String> = match read_map(&mut z) {
        Ok(map) => map,
        Err(e) => {
            return Err(e);
        },
    };
    let mut list: Vec<String> = Vec::new();
    let mut i: usize = 0;
    while i < map.len()
        invariant
            map.wf(),
            i <= map.keys().len(),
            texts_of(list@) == map.keys().take(i as int),
        decreases map.keys().len() - i,
    {
        let ghost before = list@;
        list.push(map.key(i).clone());
        i = i + 1;
        assert(texts_of(list@) =~= texts_of(before).push(map.keys()[i - 1]));
        assert(map.keys().take(i as int) =~= map.keys().take(i - 1).push(map.keys()[i - 1]));
    }
    assert(map.keys().take(map.keys().len() as int) =~= map.keys());
    Ok(list)
}

/// The names of the worksheets of a workbook in memory, in order; `None` where a part is nested deeper
/// than the stack carries the parser.
pub fn sheet_names(bytes: &[u8]) -> (r: Option<Result<Vec<String>, RewriteError>>)
    ensures
        match r {
            None => sheet_name_list(bytes@) == Err::<Seq<Seq<char>>, RewriteErrorView>(
                RewriteErrorView::Beyond,
            ),
            Some(Ok(v)) => sheet_name_list(bytes@) == Ok::<Seq<Seq<char>>, RewriteErrorView>(
                texts_of(v@),
            ),
            Some(Err(e)) => sheet_name_list(bytes@) == Err::<Seq<Seq<char>>, RewriteErrorView>(e@),
        },
{
    match list_names(bytes) {
        Ok(v) => Some(Ok(v)),
        Err(Some(e)) => Some(Err(e)),
        Err(None) => None,
    }
}

/// A map from texts to texts: its keys in order, and their values.
pub type Texts = (Seq<Seq<char>>, Seq<Seq<char>>);

/// The rows of tables, each by its view.
pub open spec fn tables_view(tables: Seq<Vec<Vec<Value>>>) -> Seq<Seq<Seq<ValueView>>> {
    Seq::new(tables.len(), |i: int| table_view(tables[i]@))
}

/// The new text of the part that the worksheet `name` is in, once `rows` are in it.
pub open spec fn new_sheet(
    bytes: Seq<u8>,
    worksheets: Texts,
    name: Seq<char>,
    rows: Seq<Seq<ValueView>>,
) -> Result<(Seq<char>, Seq<char>), RewriteErrorView> {
    match lookup(worksheets.0, worksheets.1, name) {
        None => Err(RewriteErrorView::Gone),
        Some(path) => match part_text(bytes, path) {
            Err(m) => Err(RewriteErrorView::Archive(m)),
            Ok(xml) => if !patchable(xml, rows) {
                Err(RewriteErrorView::Beyond)
            } else {
                match patched(xml, rows) {
                    Err(e) => Err(RewriteErrorView::Sheet(e)),
                    Ok(new) => Ok((path, new)),
                }
            },
        },
    }
}

/// The new texts of the parts that the first `n` worksheets of a plan are in.
pub open spec fn new_sheets(
    bytes: Seq<u8>,
    worksheets: Texts,
    names: Seq<Seq<char>>,
    tables: Seq<Seq<Seq<ValueView>>>,
    n: nat,
) -> Result<Texts, RewriteErrorView>
    decreases n,
{
    if n == 0 {
        Ok((Seq::empty(), Seq::empty()))
    } else {
        match new_sheets(bytes, worksheets, names, tables, (n - 1) as nat) {
            Err(e) => Err(e),
            Ok((keys, values)) => match new_sheet(
                bytes,
                worksheets,
                names[n - 1],
                tables[n - 1],
            ) {
                Err(e) => Err(e),
                Ok((path, new)) => Ok(
                    (keys_with(keys, path), values_with(keys, values, path, new)),
                ),
            },
        }
    }
}

/// The new texts of all parts that change: those of the worksheets of a plan, and the workbook
/// part, which asks for a recalculation.
pub open spec fn changed_parts(
    bytes: Seq<u8>,
    names: Seq<Seq<char>>,
    tables: Seq<Seq<Seq<ValueView>>>,
) -> Result<Texts, RewriteErrorView> {
    match workbook_map(bytes) {
        Err(e) => Err(e),
        Ok(worksheets) => match new_sheets(bytes, worksheets, names, tables, names.len()) {
            Err(e) => Err(e),
            Ok((keys, values)) => match part_text(bytes, "xl/workbook.xml"@) {
                Err(m) => Err(RewriteErrorView::Archive(m)),
                Ok(book) => if !reachable(book) {
                    Err(RewriteErrorView::Beyond)
                } else {
                    match recalculated(book) {
                        Err(e) => Err(RewriteErrorView::Recalc(e)),
                        Ok(new) => Ok(
                            (
                                keys_with(keys, "xl/workbook.xml"@),
                                values_with(keys, values, "xl/workbook.xml"@, new),
                            ),
                        ),
                    }
                },
            },
        },
    }
}

proof fn new_sheet_errors_stay(
    bytes: Seq<u8>,
    worksheets: Texts,
    names: Seq<Seq<char>>,
    tables: Seq<Seq<Seq<ValueView>>>,
    m: nat,
    n: nat,
)
    requires
        m <= n,
        new_sheets(bytes, worksheets, names, tables, m) is Err,
    ensures
        new_sheets(bytes, worksheets, names, tables, n) == new_sheets(
            bytes,
            worksheets,
            names,
            tables,
            m,
        ),
    decreases n,
{
    if m < n {
        new_sheet_errors_stay(bytes, worksheets, names, tables, m, (n - 1) as nat);
    }
}

/// The texts of the values of a map are looked up as the values are.
proof fn lookup_texts(keys: Seq<Seq<char>>, values: Seq<String>, key: Seq<char>)
    requires
        keys.len() == values.len(),
    ensures
        lookup(keys, texts_of(values), key) == (match lookup(keys, values, key) {
            Some(s) => Some(s@),
            None => None,
        }),
{
    rank_bounds(keys, key);
}

/// The texts of the values of a map change as the values do.
proof fn values_with_texts(
    keys: Seq<Seq<char>>,
    values: Seq<String>,
    key: Seq<char>,
    value: String,
)
    requires
        keys.len() == values.len(),
    ensures
        texts_of(values_with(keys, values, key, value)) == values_with(
            keys,
            texts_of(values),
            key,
            value@,
        ),
{
    rank_bounds(keys, key);
    assert(texts_of(values_with(keys, values, key, value)) =~= values_with(
        keys,
        texts_of(values),
        key,
        value@,
    ));
}

/// The new text of the part that the worksheet `name` is in, once `rows` are in it.
fn fill_sheet(
    z: &mut zip::ZipArchive<std::io::Cursor<Vec<u8>>>,
    worksheets: &TextMap<String>,
    name: &str,
    rows: &[Vec<Value>],
) -> (r: Result<(String, String), Option<RewriteError>>)
    requires
        part_names(archive_bytes(*old(z))) is Ok,
        worksheets.wf(),
    ensures
        archive_bytes(*final(z)) == archive_bytes(*old(z)),
        new_sheet(
            archive_bytes(*old(z)),
            (worksheets.keys(), texts_of(worksheets.values())),
            name@,
            table_view(rows@),
        ) == (match r {
            Ok((path, new)) => Ok::<(Seq<char>, Seq<char>), RewriteErrorView>((path@, new@)),
            Err(e) => Err(fault(e)),
        }),
{
    proof {
        lookup_texts(worksheets.keys(), worksheets.values(), name@);
    }
    let path: String = match worksheets.get(name) {
        Some(s) => s.clone(),
        None => {
            return Err(Some(RewriteError::Gone));
        },
    };
    let xml: String = match read_part(z, path.as_str()) {
        Ok(s) => s,
        Err(m) => {
            return Err(Some(RewriteError::Archive(m)));
        },
    };
    match attempt(xml.as_str(), rows) {
        None => Err(None),
        Some(Err(e)) => Err(Some(RewriteError::Sheet(e))),
        Some(Ok(new)) => Ok((path, new)),
    }
}

/// The new texts of the parts that the worksheets of a plan are in.
fn fill_sheets(
    z: &mut zip::ZipArchive<std::io::Cursor<Vec<u8>>>,
    worksheets: &TextMap<String>,
    sheets: &TextMap<Vec<Vec<Value>>>,
) -> (r: Result<TextMap<String>, Option<RewriteError>>)
    requires
        part_names(archive_bytes(*old(z))) is Ok,
        worksheets.wf(),
        sheets.wf(),
    ensures
        archive_bytes(*final(z)) == archive_bytes(*old(z)),
        match r {
            Ok(map) => map.wf() && new_sheets(
                archive_bytes(*old(z)),
                (worksheets.keys(), texts_of(worksheets.values())),
                sheets.keys(),
                tables_view(sheets.values()),
                sheets.keys().len(),
            ) == Ok::<Texts, RewriteErrorView>((map.keys(), texts_of(map.values()))),
            Err(e) => new_sheets(
                archive_bytes(*old(z)),
                (worksheets.keys(), texts_of(worksheets.values())),
                sheets.keys(),
                tables_view(sheets.values()),
                sheets.keys().len(),
            ) == Err::<Texts, RewriteErrorView>(fault(e)),
        },
{
    let ghost bytes = archive_bytes(*z);
    let ghost names = sheets.keys();
    let ghost tables = tables_view(sheets.values());
    let ghost places = (worksheets.keys(), texts_of(worksheets.values()));
    let mut map: TextMap<String> = TextMap::new();
    assert(texts_of(map.values()) =~= Seq::<Seq<char>>::empty());
    let mut i: usize = 0;
    while i < sheets.len()
        invariant
            bytes == archive_bytes(*old(z)),
            archive_bytes(*z) == bytes,
            part_names(bytes) is Ok,
            sheets.wf(),
            names == sheets.keys(),
            tables == tables_view(sheets.values()),
            worksheets.wf(),
            places == (worksheets.keys(), texts_of(worksheets.values())),
            i <= names.len(),
            map.wf(),
            new_sheets(bytes, places, names, tables, i as nat) == Ok::<Texts, RewriteErrorView>(
                (map.keys(), texts_of(map.values())),
            ),
        decreases names.len() - i,
    {
        let rows: &Vec<Vec<Value>> = sheets.value(i);
        assert(tables[i as int] == table_view(rows@));
        match fill_sheet(z, worksheets, sheets.key(i).as_str(), rows.as_slice()) {
            Ok((path, new)) => {
                proof {
                    values_with_texts(map.keys(), map.values(), path@, new);
                }
                map.insert(path, new);
            },
            Err(e) => {
                proof {
                    new_sheet_errors_stay(bytes, places, names, tables, (i + 1) as nat, names.len());
                }
                return Err(e);
            },
        }
        i = i + 1;
    }
    Ok(map)
}

/// The new texts of all parts that change.
fn change_parts(
    z: &mut zip::ZipArchive<std::io::Cursor<Vec<u8>>>,
    sheets: &TextMap<Vec<Vec<Value>>>,
) -> (r: Result<TextMap<String>, Option<RewriteError>>)
    requires
        part_names(archive_bytes(*old(z))) is Ok,
        sheets.wf(),
    ensures
        archive_bytes(*final(z)) == archive_bytes(*old(z)),
        match r {
            Ok(map) => map.wf() && changed_parts(
                archive_bytes(*old(z)),
                sheets.keys(),
                tables_view(sheets.values()),
            ) == Ok::<Texts, RewriteErrorView>((map.keys(), texts_of(map.values()))),
            Err(e) => changed_parts(
                archive_bytes(*old(z)),
                sheets.keys(),
                tables_view(sheets.values()),
            ) == Err::<Texts, RewriteErrorView>(fault(e)),
        },
{
    let worksheets: TextMap<String> = match read_map(z) {
        Ok(map) => map,
        Err(e) => {
            return Err(e);
        },
    };
    let mut map: TextMap<String> = match fill_sheets(z, &worksheets, sheets) {
        Ok(map) => map,
        Err(e) => {
            return Err(e);
        },
    };
    let book: String = match read_part(z, "xl/workbook.xml") {
        Ok(s) => s,
        Err(m) => {
            return Err(Some(RewriteError::Archive(m)));
        },
    };
    if !is_reachable(book.as_str()) {
        return Err(None);
    }
    match recalc(book.as_str()) {
        Ok(new) => {
            proof {
                values_with_texts(map.keys(), map.values(), "xl/workbook.xml"@, new);
            }
            map.insert("xl/workbook.xml".to_string(), new);
            Ok(map)
        },
        Err(e) => Err(Some(RewriteError::Recalc(e))),
    }
}

/// What is put into the new archive for the part at `place` of the old one: its new text, or a raw
/// copy.
pub open spec fn new_entry(bytes: Seq<u8>, changed: Texts, place: int) -> Entry {
    match lookup(changed.0, changed.1, part_names(bytes)->Ok_0[place]) {
        Some(new) => Entry::Data(part_names(bytes)->Ok_0[place], encode_utf8(new)),
        None => Entry::Copy(bytes, place),
    }
}

/// Why an entry cannot be put after others, if it cannot.
pub open spec fn entry_fault(entries: Seq<Entry>, entry: Entry) -> Option<Seq<char>> {
    match entry {
        Entry::Data(name, data) => data_fault(entries, name, data),
        Entry::Copy(bytes, place) => copy_error(entries, bytes, place),
    }
}

/// What is put into the new archive for the first `n` parts of the old one.
pub open spec fn new_entries(bytes: Seq<u8>, changed: Texts, n: nat) -> Result<
    Seq<Entry>,
    Seq<char>,
>
    decreases n,
{
    if n == 0 {
        Ok(Seq::empty())
    } else {
        match new_entries(bytes, changed, (n - 1) as nat) {
            Err(m) => Err(m),
            Ok(entries) => match content_at(bytes, n - 1, 0) {
                Err(m) => Err(m),
                Ok(_) => {
                    let entry = new_entry(bytes, changed, n - 1);
                    match entry_fault(entries, entry) {
                        Some(m) => Err(m),
                        None => Ok(entries.push(entry)),
                    }
                },
            },
        }
    }
}

/// The new archive: the parts of the old one in their order, those in `changed` with their new
/// texts.
pub open spec fn packed(bytes: Seq<u8>, changed: Texts) -> Result<Seq<u8>, Seq<char>> {
    match new_entries(bytes, changed, part_names(bytes)->Ok_0.len()) {
        Err(m) => Err(m),
        Ok(entries) => finished(entries),
    }
}

proof fn entry_errors_stay(bytes: Seq<u8>, changed: Texts, m: nat, n: nat)
    requires
        m <= n,
        new_entries(bytes, changed, m) is Err,
    ensures
        new_entries(bytes, changed, n) == new_entries(bytes, changed, m),
    decreases n,
{
    if m < n {
        entry_errors_stay(bytes, changed, m, (n - 1) as nat);
    }
}

/// Puts the part at `place` of the old archive into the new one.
fn put_part(
    w: &mut Writer,
    z: &mut zip::ZipArchive<std::io::Cursor<Vec<u8>>>,
    changed: &TextMap<String>,
    place: usize,
) -> (r: Result<(), String>)
    requires
        part_names(archive_bytes(*old(z))) is Ok,
        place < part_names(archive_bytes(*old(z)))->Ok_0.len(),
        changed.wf(),
    ensures
        archive_bytes(*final(z)) == archive_bytes(*old(z)),
        ({
            let entry = new_entry(
                archive_bytes(*old(z)),
                (changed.keys(), texts_of(changed.values())),
                place as int,
            );
            match content_at(archive_bytes(*old(z)), place as int, 0) {
                Err(m) => r matches Err(e) && e@ == m,
                Ok(_) => match entry_fault(entries_of(*old(w)), entry) {
                    Some(m) => r matches Err(e) && e@ == m,
                    None => r is Ok && entries_of(*final(w)) == entries_of(*old(w)).push(entry),
                },
            }
        }),
{
    let part: Part = match read_at(z, place, 0) {
        Ok(p) => p,
        Err(m) => {
            return Err(m);
        },
    };
    proof {
        lookup_texts(changed.keys(), changed.values(), part.name@);
    }
    match changed.get(part.name.as_str()) {
        Some(new) => put_data(w, part.name.as_str(), new.as_str().as_bytes()),
        None => copy_at(w, z, place),
    }
}

/// The new archive: the parts of the old one in their order, those in `changed` with their new
/// texts.
fn pack(z: &mut zip::ZipArchive<std::io::Cursor<Vec<u8>>>, changed: &TextMap<String>) -> (r: Result<
    Vec<u8>,
    String,
>)
    requires
        part_names(archive_bytes(*old(z))) is Ok,
        changed.wf(),
    ensures
        archive_bytes(*final(z)) == archive_bytes(*old(z)),
        packed(archive_bytes(*old(z)), (changed.keys(), texts_of(changed.values()))) == (match r {
            Ok(v) => Ok::<Seq<u8>, Seq<char>>(v@),
            Err(m) => Err(m@),
        }),
{
    let ghost bytes = archive_bytes(*z);
    let ghost texts = (changed.keys(), texts_of(changed.values()));
    let mut w: Writer = new_writer();
    let n: usize = part_count(z);
    let mut i: usize = 0;
    while i < n
        invariant
            bytes == archive_bytes(*old(z)),
            archive_bytes(*z) == bytes,
            part_names(bytes) is Ok,
            n == part_names(bytes)->Ok_0.len(),
            changed.wf(),
            texts == (changed.keys(), texts_of(changed.values())),
            i <= n,
            new_entries(bytes, texts, i as nat) == Ok::<Seq<Entry>, Seq<char>>(entries_of(w)),
        decreases n - i,
    {
        match put_part(&mut w, z, changed, i) {
            Ok(()) => {},
            Err(m) => {
                proof {
                    assert(new_entries(bytes, texts, (i + 1) as nat) == Err::<
                        Seq<Entry>,
                        Seq<char>,
                    >(m@));
                    entry_errors_stay(bytes, texts, (i + 1) as nat, n as nat);
                }
                return Err(m);
            },
        }
        i = i + 1;
    }
    finish_archive(w)
}

/// Why the part at `place` of the old archive is not right in the new one, if it is not.
pub open spec fn part_fault(
    bytes: Seq<u8>,
    new: Seq<u8>,
    changed: Texts,
    place: int,
) -> Option<RewriteErrorView> {
    let name = part_names(bytes)->Ok_0[place];
    match content_at(bytes, place, ALL as nat) {
        Err(m) => Some(RewriteErrorView::Archive(m)),
        Ok((_, was)) => match content_named(new, name, ALL as nat) {
            Err(m) => Some(RewriteErrorView::Archive(m)),
            Ok((_, Err(m))) => Some(RewriteErrorView::Archive(m)),
            Ok((_, Ok(data))) => match lookup(changed.0, changed.1, name) {
                Some(text) => if data != encode_utf8(text) {
                    Some(RewriteErrorView::Changed(name))
                } else {
                    match parsed(text) {
                        Err(e) => Some(e),
                        Ok(_) => None,
                    }
                },
                None => match was {
                    Err(m) => Some(RewriteErrorView::Archive(m)),
                    Ok(old_data) => if old_data != data {
                        Some(RewriteErrorView::Lost(name))
                    } else {
                        None
                    },
                },
            },
        },
    }
}

/// Why the first of the first `n` parts of the old archive that is not right in the new one is
/// not.
pub open spec fn first_part_fault(
    bytes: Seq<u8>,
    new: Seq<u8>,
    changed: Texts,
    n: nat,
) -> Option<RewriteErrorView>
    decreases n,
{
    if n == 0 {
        None
    } else {
        match first_part_fault(bytes, new, changed, (n - 1) as nat) {
            Some(e) => Some(e),
            None => part_fault(bytes, new, changed, n - 1),
        }
    }
}

/// Why the new archive is not right, if it is not: it has as many parts as the old one, those in
/// `changed` with their new texts and the others as they were.
pub open spec fn rewrite_fault(bytes: Seq<u8>, new: Seq<u8>, changed: Texts) -> Option<
    RewriteErrorView,
> {
    match part_names(new) {
        Err(m) => Some(RewriteErrorView::Archive(m)),
        Ok(names) => if names.len() != part_names(bytes)->Ok_0.len() {
            Some(RewriteErrorView::Count)
        } else {
            first_part_fault(bytes, new, changed, names.len())
        },
    }
}

proof fn part_faults_stay(bytes: Seq<u8>, new: Seq<u8>, changed: Texts, m: nat, n: nat)
    requires
        m <= n,
        first_part_fault(bytes, new, changed, m) is Some,
    ensures
        first_part_fault(bytes, new, changed, n) == first_part_fault(bytes, new, changed, m),
    decreases n,
{
    if m < n {
        part_faults_stay(bytes, new, changed, m, (n - 1) as nat);
    }
}

/// Reads one part back.
fn check_part(
    z: &mut zip::ZipArchive<std::io::Cursor<Vec<u8>>>,
    new: &mut zip::ZipArchive<std::io::Cursor<Vec<u8>>>,
    changed: &TextMap<String>,
    place: usize,
) -> (r: Option<Option<RewriteError>>)
    requires
        part_names(archive_bytes(*old(z))) is Ok,
        place < part_names(archive_bytes(*old(z)))->Ok_0.len(),
        part_names(archive_bytes(*old(new))) is Ok,
        changed.wf(),
    ensures
        archive_bytes(*final(z)) == archive_bytes(*old(z)),
        archive_bytes(*final(new)) == archive_bytes(*old(new)),
        part_fault(
            archive_bytes(*old(z)),
            archive_bytes(*old(new)),
            (changed.keys(), texts_of(changed.values())),
            place as int,
        ) == (match r {
            Some(e) => Some(fault(e)),
            None => None,
        }),
{
    let was: Part = match read_at(z, place, ALL) {
        Ok(p) => p,
        Err(m) => {
            return Some(Some(RewriteError::Archive(m)));
        },
    };
    let is: Part = match read_named(new, was.name.as_str(), ALL) {
        Ok(p) => p,
        Err(m) => {
            return Some(Some(RewriteError::Archive(m)));
        },
    };
    let data: Vec<u8> = match is.data {
        Ok(v) => v,
        Err(m) => {
            return Some(Some(RewriteError::Archive(m)));
        },
    };
    proof {
        lookup_texts(changed.keys(), changed.values(), was.name@);
    }
    match changed.get(was.name.as_str()) {
        Some(text) => {
            if !same_bytes(data.as_slice(), text.as_str().as_bytes()) {
                return Some(Some(RewriteError::Changed(was.name)));
            }
            match parse(text.as_str()) {
                Ok(_) => None,
                Err(e) => Some(e),
            }
        },
        None => match was.data {
            Err(m) => Some(Some(RewriteError::Archive(m))),
            Ok(old_data) => if same_bytes(old_data.as_slice(), data.as_slice()) {
                None
            } else {
                Some(Some(RewriteError::Lost(was.name)))
            },
        },
    }
}

/// Reads every part of the new archive back.
fn check_parts(
    z: &mut zip::ZipArchive<std::io::Cursor<Vec<u8>>>,
    new: &[u8],
    changed: &TextMap<String>,
) -> (r: Option<Option<RewriteError>>)
    requires
        part_names(archive_bytes(*old(z))) is Ok,
        changed.wf(),
    ensures
        archive_bytes(*final(z)) == archive_bytes(*old(z)),
        rewrite_fault(
            archive_bytes(*old(z)),
            new@,
            (changed.keys(), texts_of(changed.values())),
        ) == (match r {
            Some(e) => Some(fault(e)),
            None => None,
        }),
{
    let ghost bytes = archive_bytes(*z);
    let ghost texts = (changed.keys(), texts_of(changed.values()));
    let mut y = match open_archive(new) {
        Ok(y) => y,
        Err(m) => {
            return Some(Some(RewriteError::Archive(m)));
        },
    };
    let n: usize = part_count(z);
    if part_count(&y) != n {
        return Some(Some(RewriteError::Count));
    }
    let mut i: usize = 0;
    while i < n
        invariant
            bytes == archive_bytes(*old(z)),
            archive_bytes(*z) == bytes,
            archive_bytes(y) == new@,
            part_names(bytes) is Ok,
            part_names(new@) is Ok,
            n == part_names(bytes)->Ok_0.len(),
            n == part_names(new@)->Ok_0.len(),
            changed.wf(),
            texts == (changed.keys(), texts_of(changed.values())),
            i <= n,
            first_part_fault(bytes, new@, texts, i as nat) is None,
        decreases n - i,
    {
        match check_part(z, &mut y, changed, i) {
            Some(e) => {
                proof {
                    part_faults_stay(bytes, new@, texts, (i + 1) as nat, n as nat);
                }
                return Some(e);
            },
            None => {},
        }
        i = i + 1;
    }
    None
}

/// The workbook `bytes` with new rows for some of its worksheets, not yet read back, and the new
/// texts of the parts that change.
pub open spec fn prepared(
    bytes: Seq<u8>,
    names: Seq<Seq<char>>,
    tables: Seq<Seq<Seq<ValueView>>>,
) -> Result<(Seq<u8>, Texts), RewriteErrorView> {
    match part_names(bytes) {
        Err(m) => Err(RewriteErrorView::Archive(m)),
        Ok(_) => match changed_parts(bytes, names, tables) {
            Err(e) => Err(e),
            Ok(changed) => match packed(bytes, changed) {
                Err(m) => Err(RewriteErrorView::Archive(m)),
                Ok(new) => Ok((new, changed)),
            },
        },
    }
}

/// The workbook `bytes` with new rows for some of its worksheets, or why it cannot be made.
pub open spec fn rewritten(
    bytes: Seq<u8>,
    names: Seq<Seq<char>>,
    tables: Seq<Seq<Seq<ValueView>>>,
) -> Result<Seq<u8>, RewriteErrorView> {
    match prepared(bytes, names, tables) {
        Err(e) => Err(e),
        Ok((new, changed)) => match rewrite_fault(bytes, new, changed) {
            Some(e) => Err(e),
            None => Ok(new),
        },
    }
}

/// The workbook `bytes` with the rows in `sheets` in its worksheets, and the new texts of the parts
/// that change; `None` where nothing can be told.
pub fn prepare(bytes: &[u8], sheets: &TextMap<Vec<Vec<Value>>>) -> (r: Option<
    Result<(Vec<u8>, TextMap<String>), RewriteError>,
>)
    requires
        sheets.wf(),
    ensures
        ({
            let owed = prepared(bytes@, sheets.keys(), tables_view(sheets.values()));
            match r {
                None => owed == Err::<(Seq<u8>, Texts), RewriteErrorView>(RewriteErrorView::Beyond),
                Some(Ok((new, changed))) => changed.wf() && owed == Ok::<
                    (Seq<u8>, Texts),
                    RewriteErrorView,
                >((new@, (changed.keys(), texts_of(changed.values())))),
                Some(Err(e)) => owed == Err::<(Seq<u8>, Texts), RewriteErrorView>(e@),
            }
        }),
{
    let mut z = match open_archive(bytes) {
        Ok(z) => z,
        Err(m) => {
            return Some(Err(RewriteError::Archive(m)));
        },
    };
    let changed: TextMap<String> = match change_parts(&mut z, sheets) {
        Ok(map) => map,
        Err(Some(e)) => {
            return Some(Err(e));
        },
        Err(None) => {
            return None;
        },
    };
    match pack(&mut z, &changed) {
        Ok(new) => Some(Ok((new, changed))),
        Err(m) => Some(Err(RewriteError::Archive(m))),
    }
}

/// The workbook `bytes` with the rows in `sheets` in its worksheets; `None` where nothing can be told.
/// Every part of the new archive was read back: the changed ones hold their new texts, and all others
/// are as they were.
pub fn rewrite(bytes: &[u8], sheets: &TextMap<Vec<Vec<Value>>>) -> (r: Option<
    Result<Vec<u8>, RewriteError>,
>)
    requires
        sheets.wf(),
    ensures
        ({
            let owed = rewritten(bytes@, sheets.keys(), tables_view(sheets.values()));
            match r {
                None => owed == Err::<Seq<u8>, RewriteErrorView>(RewriteErrorView::Beyond),
                Some(Ok(v)) => owed == Ok::<Seq<u8>, RewriteErrorView>(v@),
                Some(Err(e)) => owed == Err::<Seq<u8>, RewriteErrorView>(e@),
            }
        }),
{
    let (new, changed) = match prepare(bytes, sheets) {
        Some(Ok(p)) => p,
        Some(Err(e)) => {
            return Some(Err(e));
        },
        None => {
            return None;
        },
    };
    match check_rewrite(bytes, new.as_slice(), &changed) {
        Some(Err(e)) => Some(Err(e)),
        Some(Ok(())) => Some(Ok(new)),
        None => None,
    }
}

/// Why the archive `new` is not right for the archive `bytes`, if it is not.
pub open spec fn read_back_fault(bytes: Seq<u8>, new: Seq<u8>, changed: Texts) -> Option<
    RewriteErrorView,
> {
    match part_names(bytes) {
        Err(m) => Some(RewriteErrorView::Archive(m)),
        Ok(_) => rewrite_fault(bytes, new, changed),
    }
}

/// Reads every part of the archive `new` back: those in `changed` must hold their new texts, and
/// all others must be as they are in `bytes`; `None` where nothing can be told.
pub fn check_rewrite(bytes: &[u8], new: &[u8], changed: &TextMap<String>) -> (r: Option<
    Result<(), RewriteError>,
>)
    requires
        changed.wf(),
    ensures
        ({
            let owed = read_back_fault(
                bytes@,
                new@,
                (changed.keys(), texts_of(changed.values())),
            );
            match r {
                None => owed == Some(RewriteErrorView::Beyond),
                Some(Ok(())) => owed is None,
                Some(Err(e)) => owed == Some(e@),
            }
        }),
{
    let mut z = match open_archive(bytes) {
        Ok(z) => z,
        Err(m) => {
            return Some(Err(RewriteError::Archive(m)));
        },
    };
    match check_parts(&mut z, new, changed) {
        None => Some(Ok(())),
        Some(Some(e)) => Some(Err(e)),
        Some(None) => None,
    }
}

/// What an archive that was read back without a fault holds: as many parts as the old one, and
/// under the name of each old part the new text where the part changed, and otherwise the very
/// bytes that it held.
pub proof fn checked_parts_are_right(bytes: Seq<u8>, new: Seq<u8>, changed: Texts, place: int)
    requires
        rewrite_fault(bytes, new, changed) is None,
        0 <= place < part_names(bytes)->Ok_0.len(),
    ensures
        ({
            let name = part_names(bytes)->Ok_0[place];
            &&& part_names(new) matches Ok(l) && l.len() == part_names(bytes)->Ok_0.len()
            &&& match lookup(changed.0, changed.1, name) {
                Some(text) => content_named(new, name, ALL as nat) matches Ok((_, Ok(data))) && data
                    == encode_utf8(text),
                None => content_named(new, name, ALL as nat) matches Ok((_, Ok(data)))
                    && content_at(bytes, place, ALL as nat) matches Ok((_, Ok(was))) && was
                    == data,
            }
        }),
{
    no_part_fault(bytes, new, changed, part_names(new)->Ok_0.len(), place);
}

/// What a rewritten workbook holds: under the name of each part that does not change the very bytes
/// that it held.
pub proof fn other_parts_are_kept(
    bytes: Seq<u8>,
    names: Seq<Seq<char>>,
    tables: Seq<Seq<Seq<ValueView>>>,
    place: int,
)
    requires
        rewritten(bytes, names, tables) is Ok,
        0 <= place < part_names(bytes)->Ok_0.len(),
        ({
            let changed = changed_parts(bytes, names, tables)->Ok_0;
            lookup(changed.0, changed.1, part_names(bytes)->Ok_0[place]) is None
        }),
    ensures
        content_named(
            rewritten(bytes, names, tables)->Ok_0,
            part_names(bytes)->Ok_0[place],
            ALL as nat,
        ) matches Ok((_, Ok(data))) && content_at(bytes, place, ALL as nat) matches Ok(
            (_, Ok(was)),
        ) && was == data,
{
    checked_parts_are_right(
        bytes,
        rewritten(bytes, names, tables)->Ok_0,
        changed_parts(bytes, names, tables)->Ok_0,
        place,
    );
}

/// The part that a worksheet is in.
pub open spec fn path_in(worksheets: Texts, name: Seq<char>) -> Option<Seq<char>> {
    lookup(worksheets.0, worksheets.1, name)
}

/// The parts that change stand in the order of their names.
proof fn new_sheets_are_ordered(
    bytes: Seq<u8>,
    worksheets: Texts,
    names: Seq<Seq<char>>,
    tables: Seq<Seq<Seq<ValueView>>>,
    n: nat,
)
    requires
        new_sheets(bytes, worksheets, names, tables, n) is Ok,
    ensures
        ({
            let map = new_sheets(bytes, worksheets, names, tables, n)->Ok_0;
            ascending(map.0) && map.0.len() == map.1.len()
        }),
    decreases n,
{
    if n > 0 {
        new_sheets_are_ordered(bytes, worksheets, names, tables, (n - 1) as nat);
        let map = new_sheets(bytes, worksheets, names, tables, (n - 1) as nat)->Ok_0;
        let (path, new) = new_sheet(bytes, worksheets, names[n - 1], tables[n - 1])->Ok_0;
        what_is_put_is_found(map.0, map.1, path, new, path);
    }
}

/// The new text of a worksheet is found under the name of its part, where no later worksheet is in
/// the same part.
proof fn new_sheet_is_found(
    bytes: Seq<u8>,
    worksheets: Texts,
    names: Seq<Seq<char>>,
    tables: Seq<Seq<Seq<ValueView>>>,
    n: nat,
    i: int,
)
    requires
        0 <= i < n,
        new_sheets(bytes, worksheets, names, tables, n) is Ok,
        forall|j: int|
            i < j < n ==> path_in(worksheets, #[trigger] names[j]) != path_in(worksheets, names[i]),
    ensures
        ({
            let map = new_sheets(bytes, worksheets, names, tables, n)->Ok_0;
            new_sheet(bytes, worksheets, names[i], tables[i]) matches Ok((path, new)) && lookup(
                map.0,
                map.1,
                path,
            ) == Some(new)
        }),
    decreases n,
{
    new_sheets_are_ordered(bytes, worksheets, names, tables, (n - 1) as nat);
    let map = new_sheets(bytes, worksheets, names, tables, (n - 1) as nat)->Ok_0;
    let (path, new) = new_sheet(bytes, worksheets, names[n - 1], tables[n - 1])->Ok_0;
    if i < n - 1 {
        new_sheet_is_found(bytes, worksheets, names, tables, (n - 1) as nat, i);
        let (other, _) = new_sheet(bytes, worksheets, names[i], tables[i])->Ok_0;
        assert(path_in(worksheets, names[n - 1]) != path_in(worksheets, names[i]));
        what_is_put_is_found(map.0, map.1, path, new, other);
    } else {
        what_is_put_is_found(map.0, map.1, path, new, path);
    }
}

/// A changed part is read back with its new text.
proof fn changed_part_is_read_back(bytes: Seq<u8>, new: Seq<u8>, changed: Texts, name: Seq<char>)
    requires
        rewrite_fault(bytes, new, changed) is None,
        part_text(bytes, name) is Ok,
        lookup(changed.0, changed.1, name) is Some,
    ensures
        part_text(new, name) == Ok::<Seq<char>, Seq<char>>(
            lookup(changed.0, changed.1, name)->Some_0,
        ),
{
    let names = part_names(bytes)->Ok_0;
    let text = lookup(changed.0, changed.1, name)->Some_0;
    named_parts_are_found(names, name);
    let place = choose|k: int| 0 <= k < names.len() && names[k] == name;
    checked_parts_are_right(bytes, new, changed, place);
    vstd::utf8::encode_utf8_valid_utf8(text);
    vstd::utf8::encode_utf8_decode_utf8(text);
}

/// What is filled in is read back: in the rewritten workbook the part that a worksheet of the plan is
/// in holds the old text with the rows of the plan in it, where that part is of no later worksheet of
/// the plan and not the workbook part.
pub proof fn filled_worksheets_are_read_back(
    bytes: Seq<u8>,
    names: Seq<Seq<char>>,
    tables: Seq<Seq<Seq<ValueView>>>,
    i: int,
)
    requires
        rewritten(bytes, names, tables) is Ok,
        0 <= i < names.len(),
        ({
            let worksheets = workbook_map(bytes)->Ok_0;
            &&& path_in(worksheets, names[i]) != Some("xl/workbook.xml"@)
            &&& forall|j: int|
                i < j < names.len() ==> path_in(worksheets, #[trigger] names[j]) != path_in(
                    worksheets,
                    names[i],
                )
        }),
    ensures
        path_in(workbook_map(bytes)->Ok_0, names[i]) matches Some(path) && part_text(bytes, path)
            matches Ok(xml) && patched(xml, tables[i]) matches Ok(filled) && part_text(
            rewritten(bytes, names, tables)->Ok_0,
            path,
        ) == Ok::<Seq<char>, Seq<char>>(filled),
{
    let worksheets = workbook_map(bytes)->Ok_0;
    let new = rewritten(bytes, names, tables)->Ok_0;
    let changed = changed_parts(bytes, names, tables)->Ok_0;
    let map = new_sheets(bytes, worksheets, names, tables, names.len())->Ok_0;
    new_sheets_are_ordered(bytes, worksheets, names, tables, names.len());
    new_sheet_is_found(bytes, worksheets, names, tables, names.len(), i);
    let (path, _) = new_sheet(bytes, worksheets, names[i], tables[i])->Ok_0;
    let book = recalculated(part_text(bytes, "xl/workbook.xml"@)->Ok_0)->Ok_0;
    what_is_put_is_found(map.0, map.1, "xl/workbook.xml"@, book, path);
    changed_part_is_read_back(bytes, new, changed, path);
}

/// The workbook part of the rewritten workbook asks for a recalculation.
pub proof fn recalculation_is_read_back(
    bytes: Seq<u8>,
    names: Seq<Seq<char>>,
    tables: Seq<Seq<Seq<ValueView>>>,
)
    requires
        rewritten(bytes, names, tables) is Ok,
    ensures
        part_text(bytes, "xl/workbook.xml"@) matches Ok(book) && recalculated(book) matches Ok(asking)
            && part_text(rewritten(bytes, names, tables)->Ok_0, "xl/workbook.xml"@) == Ok::<
            Seq<char>,
            Seq<char>,
        >(asking),
{
    let worksheets = workbook_map(bytes)->Ok_0;
    let new = rewritten(bytes, names, tables)->Ok_0;
    let changed = changed_parts(bytes, names, tables)->Ok_0;
    let map = new_sheets(bytes, worksheets, names, tables, names.len())->Ok_0;
    new_sheets_are_ordered(bytes, worksheets, names, tables, names.len());
    let book = recalculated(part_text(bytes, "xl/workbook.xml"@)->Ok_0)->Ok_0;
    what_is_put_is_found(map.0, map.1, "xl/workbook.xml"@, book, "xl/workbook.xml"@);
    changed_part_is_read_back(bytes, new, changed, "xl/workbook.xml"@);
}

proof fn no_part_fault(bytes: Seq<u8>, new: Seq<u8>, changed: Texts, n: nat, place: int)
    requires
        first_part_fault(bytes, new, changed, n) is None,
        0 <= place < n,
    ensures
        part_fault(bytes, new, changed, place) is None,
    decreases n,
{
    if place < n - 1 {
        no_part_fault(bytes, new, changed, (n - 1) as nat, place);
    }
}

/// Only the parts of the worksheets of a plan, and the workbook part, change.
pub proof fn only_planned_parts_change(
    bytes: Seq<u8>,
    names: Seq<Seq<char>>,
    tables: Seq<Seq<Seq<ValueView>>>,
    part: Seq<char>,
)
    requires
        changed_parts(bytes, names, tables) is Ok,
        part != "xl/workbook.xml"@,
        forall|i: int|
            0 <= i < names.len() ==> path_in(workbook_map(bytes)->Ok_0, #[trigger] names[i]) != Some(
                part,
            ),
    ensures
        ({
            let changed = changed_parts(bytes, names, tables)->Ok_0;
            lookup(changed.0, changed.1, part) is None
        }),
{
    let worksheets = workbook_map(bytes)->Ok_0;
    let map = new_sheets(bytes, worksheets, names, tables, names.len())->Ok_0;
    new_sheets_are_ordered(bytes, worksheets, names, tables, names.len());
    other_parts_are_not_new(bytes, worksheets, names, tables, names.len(), part);
    let book = recalculated(part_text(bytes, "xl/workbook.xml"@)->Ok_0)->Ok_0;
    what_is_put_is_found(map.0, map.1, "xl/workbook.xml"@, book, part);
}

proof fn other_parts_are_not_new(
    bytes: Seq<u8>,
    worksheets: Texts,
    names: Seq<Seq<char>>,
    tables: Seq<Seq<Seq<ValueView>>>,
    n: nat,
    part: Seq<char>,
)
    requires
        n <= names.len(),
        new_sheets(bytes, worksheets, names, tables, n) is Ok,
        forall|i: int|
            0 <= i < names.len() ==> path_in(worksheets, #[trigger] names[i]) != Some(part),
    ensures
        ({
            let map = new_sheets(bytes, worksheets, names, tables, n)->Ok_0;
            lookup(map.0, map.1, part) is None
        }),
    decreases n,
{
    if n == 0 {
        lookup_nothing(Seq::<Seq<char>>::empty(), Seq::<Seq<char>>::empty(), part);
    } else {
        let m = (n - 1) as nat;
        other_parts_are_not_new(bytes, worksheets, names, tables, m, part);
        new_sheets_are_ordered(bytes, worksheets, names, tables, m);
        let map = new_sheets(bytes, worksheets, names, tables, m)->Ok_0;
        let (path, new) = new_sheet(bytes, worksheets, names[n - 1], tables[n - 1])->Ok_0;
        assert(path_in(worksheets, names[n - 1]) == Some(path));
        what_is_put_is_found(map.0, map.1, path, new, part);
    }
}

/// The worksheets of a workbook are listed by the names that its workbook part gives them, each once and
/// in order.
pub proof fn worksheets_are_listed(bytes: Seq<u8>, name: Seq<char>)
    requires
        sheet_name_list(bytes) is Ok,
    ensures
        ({
            let list = sheet_name_list(bytes)->Ok_0;
            &&& ascending(list)
            &&& part_text(bytes, "xl/workbook.xml"@) matches Ok(book) && xml_nodes(book) matches Ok(
                nodes,
            ) && (list.contains(name) <==> exists|i: int| #[trigger] names_sheet(nodes, i, name))
        }),
{
    let book = part_text(bytes, "xl/workbook.xml"@)->Ok_0;
    let relations = part_text(bytes, "xl/_rels/workbook.xml.rels"@)->Ok_0;
    let nodes = xml_nodes(book)->Ok_0;
    let rels = xml_nodes(relations)->Ok_0;
    worksheets_have_their_parts(nodes, rels, name);
    let (keys, values) = workbook_map(bytes)->Ok_0;
    if keys.contains(name) {
        let i = choose|i: int| 0 <= i < keys.len() && keys[i] == name;
        lookup_at(keys, values, i);
    } else {
        lookup_nothing(keys, values, name);
    }
}

/// A new workbook is refused because it is no archive, because it has another number of parts, or
/// because of the first part that is not as it should be, and for no other reason.
pub proof fn faults_of_new_workbooks_are_real(bytes: Seq<u8>, new: Seq<u8>, changed: Texts)
    requires
        rewrite_fault(bytes, new, changed) is Some,
    ensures
        match rewrite_fault(bytes, new, changed)->Some_0 {
            RewriteErrorView::Count => part_names(new) matches Ok(l) && l.len() != part_names(
                bytes,
            )->Ok_0.len(),
            RewriteErrorView::Changed(name) => {
                &&& part_names(bytes)->Ok_0.contains(name)
                &&& lookup(changed.0, changed.1, name) matches Some(text) && content_named(
                    new,
                    name,
                    ALL as nat,
                ) matches Ok((_, Ok(data))) && data != encode_utf8(text)
            },
            RewriteErrorView::Lost(name) => {
                &&& lookup(changed.0, changed.1, name) is None
                &&& exists|i: int|
                    0 <= i < part_names(bytes)->Ok_0.len() && #[trigger] part_names(bytes)->Ok_0[i]
                        == name && (content_at(bytes, i, ALL as nat) matches Ok((_, Ok(was)))
                        && content_named(new, name, ALL as nat) matches Ok((_, Ok(data))) && was
                        != data)
            },
            _ => true,
        },
{
    if let Ok(l) = part_names(new) {
        if l.len() == part_names(bytes)->Ok_0.len() {
            let i = fault_is_of_a_part(bytes, new, changed, l.len());
            assert(part_names(bytes)->Ok_0[i] == part_names(bytes)->Ok_0[i]);
            let name = part_names(bytes)->Ok_0[i];
            assert(part_names(bytes)->Ok_0.contains(name));
            if let Some(text) = lookup(changed.0, changed.1, name) {
                assert(!(parsed(text) matches Err(RewriteErrorView::Changed(_))));
            }
        }
    }
}

proof fn fault_is_of_a_part(bytes: Seq<u8>, new: Seq<u8>, changed: Texts, n: nat) -> (i: int)
    requires
        first_part_fault(bytes, new, changed, n) is Some,
    ensures
        0 <= i < n,
        part_fault(bytes, new, changed, i) == first_part_fault(bytes, new, changed, n),
        forall|j: int| 0 <= j < i ==> #[trigger] part_fault(bytes, new, changed, j) is None,
    decreases n,
{
    if first_part_fault(bytes, new, changed, (n - 1) as nat) is Some {
        fault_is_of_a_part(bytes, new, changed, (n - 1) as nat)
    } else {
        assert forall|j: int| 0 <= j < n - 1 implies #[trigger] part_fault(bytes, new, changed, j)
            is None by {
            no_part_fault(bytes, new, changed, (n - 1) as nat, j);
        }
        n - 1
    }
}

/// The text of a part is what its bytes encode, all of them.
pub proof fn texts_are_whole_parts(bytes: Seq<u8>, name: Seq<char>)
    ensures
        match (part_text(bytes, name), content_named(bytes, name, 18446744073709551615)) {
            (Ok(s), Ok((_, Ok(data)))) => encode_utf8(s) == data,
            (Ok(_), _) => false,
            (Err(m), Ok((_, Ok(data)))) => !valid_utf8(data),
            (Err(m), Ok((_, Err(e)))) => m == e,
            (Err(m), Err(e)) => m == e,
        },
{
    if let Ok((_, Ok(data))) = content_named(bytes, name, 18446744073709551615) {
        if valid_utf8(data) {
            vstd::utf8::decode_utf8_encode_utf8(data);
        }
    }
}

/// The new archive is given the parts of the old one in their order, each once: a part that changes with
/// its name and its new text, and any other as a copy.
pub proof fn parts_keep_their_order(bytes: Seq<u8>, changed: Texts, n: nat, i: int)
    requires
        new_entries(bytes, changed, n) is Ok,
        0 <= i < n,
    ensures
        ({
            let entries = new_entries(bytes, changed, n)->Ok_0;
            let name = part_names(bytes)->Ok_0[i];
            &&& entries.len() == n
            &&& match lookup(changed.0, changed.1, name) {
                Some(text) => entries[i] == Entry::Data(name, encode_utf8(text)),
                None => entries[i] == Entry::Copy(bytes, i),
            }
        }),
    decreases n,
{
    let m = (n - 1) as nat;
    if m > 0 {
        parts_keep_their_order(
            bytes,
            changed,
            m,
            if i < m {
                i
            } else {
                0
            },
        );
    } else {
        assert(new_entries(bytes, changed, 0)->Ok_0.len() == 0);
    }
}

/// The worksheets of a workbook, and the parts that they are in, are those that its workbook part and the
/// relations of it give.
pub proof fn worksheets_are_those_of_the_workbook_part(bytes: Seq<u8>, name: Seq<char>)
    requires
        workbook_map(bytes) is Ok,
    ensures
        part_text(bytes, "xl/workbook.xml"@) matches Ok(book) && part_text(
            bytes,
            "xl/_rels/workbook.xml.rels"@,
        ) matches Ok(relations) && xml_nodes(book) matches Ok(nodes) && xml_nodes(relations)
            matches Ok(rels) && match path_in(workbook_map(bytes)->Ok_0, name) {
            None => forall|i: int| !#[trigger] names_sheet(nodes, i, name),
            Some(path) => exists|i: int| #[trigger]
                names_sheet(nodes, i, name) && (forall|j: int|
                    i < j ==> !#[trigger] names_sheet(nodes, j, name)) && leads_to(
                    nodes[i],
                    rels,
                    path,
                ),
        },
{
    let book = part_text(bytes, "xl/workbook.xml"@)->Ok_0;
    let relations = part_text(bytes, "xl/_rels/workbook.xml.rels"@)->Ok_0;
    worksheets_have_their_parts(xml_nodes(book)->Ok_0, xml_nodes(relations)->Ok_0, name);
}

/// A worksheet of a plan is filled in its part; that it is gone, that its part cannot be read, and why it
/// cannot be filled is told.
pub proof fn worksheets_of_a_plan_are_filled(
    bytes: Seq<u8>,
    worksheets: Texts,
    name: Seq<char>,
    rows: Seq<Seq<ValueView>>,
)
    ensures
        match path_in(worksheets, name) {
            None => new_sheet(bytes, worksheets, name, rows) == Err::<
                (Seq<char>, Seq<char>),
                RewriteErrorView,
            >(RewriteErrorView::Gone),
            Some(path) => match part_text(bytes, path) {
                Err(m) => new_sheet(bytes, worksheets, name, rows) == Err::<
                    (Seq<char>, Seq<char>),
                    RewriteErrorView,
                >(RewriteErrorView::Archive(m)),
                Ok(xml) => patchable(xml, rows) ==> match patched(xml, rows) {
                    Err(e) => new_sheet(bytes, worksheets, name, rows) == Err::<
                        (Seq<char>, Seq<char>),
                        RewriteErrorView,
                    >(RewriteErrorView::Sheet(e)),
                    Ok(new) => new_sheet(bytes, worksheets, name, rows) == Ok::<
                        (Seq<char>, Seq<char>),
                        RewriteErrorView,
                    >((path, new)),
                },
            },
        },
{
}

/// What is said of a workbook that is not rewritten: the words are fixed, and what they are
/// about stands in them as it is.
pub proof fn faults_of_workbooks_are_worded(error: RewriteErrorView)
    ensures
        match error {
            RewriteErrorView::Archive(m) => error.words() == m,
            RewriteErrorView::Xml(m) => error.words() == m,
            RewriteErrorView::Worksheets(e) => error.words() == e.words(),
            RewriteErrorView::Gone => error.words() == "目标工作表消失"@,
            RewriteErrorView::Sheet(e) => error.words() == e.words(),
            RewriteErrorView::Beyond => error.words().len() == 0,
            RewriteErrorView::Recalc(e) => error.words() == e.words(),
            RewriteErrorView::Count => error.words() == "保存校验失败：文件部件数量变化"@,
            RewriteErrorView::Changed(n) => stands_between(
                error.words(),
                "写入校验失败："@,
                n,
                Seq::<char>::empty(),
            ),
            RewriteErrorView::Lost(n) => stands_between(
                error.words(),
                "模板保留校验失败："@,
                n,
                Seq::<char>::empty(),
            ),
        },
{
}

} // verus!
