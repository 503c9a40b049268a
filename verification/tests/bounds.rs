//! What is refused before outside code sees it, and what is left when something was refused.

use avt_replenishment::identify::{identify, IdentifyError};
use avt_replenishment::inspector::{Inspector, Stage};
use avt_replenishment::map::TextMap;
use avt_replenishment::nesting::nesting_of;
use avt_replenishment::package::extract_program;
use avt_replenishment::plan::Plan;
use avt_replenishment::rewrite::{rewrite, sheet_names, RewriteError};
use avt_replenishment::save::{Event, SaveError, Saver, Waiting};
use avt_replenishment::sheet::try_patch_sheet;
use avt_replenishment::value::Value;
use avt_replenishment::workbook::recalc;
use avt_replenishment::xml::{is_reachable, try_read_xml, MAX_NESTING};
use std::io::{Cursor, Write};
use zip::write::FileOptions;
use zip::ZipWriter;

const LOCKED: &str = "unsupported Zip archive: Password required to decrypt file";
const PROGRAM: &str = "AVT-Replenishment-Windows-x64/AVT-Replenishment.exe";

fn header(flags: u16, name: &str, extra: &[u8]) -> Vec<u8> {
    let mut v = Vec::new();
    v.extend(20u16.to_le_bytes());
    v.extend(flags.to_le_bytes());
    v.extend([0u8; 6]);
    v.extend([0u8; 12]);
    v.extend((name.len() as u16).to_le_bytes());
    v.extend((extra.len() as u16).to_le_bytes());
    v
}

/// An archive with an empty part that says that it was encrypted, by a record or by its flag.
fn archive(flags: u16, name: &str, extra: &[u8]) -> Vec<u8> {
    let mut v = b"PK\x03\x04".to_vec();
    v.extend(header(flags, name, &[]));
    v.extend(name.as_bytes());
    let start = v.len();
    v.extend(b"PK\x01\x02");
    v.extend(20u16.to_le_bytes());
    v.extend(header(flags, name, extra));
    v.extend([0u8; 14]);
    v.extend(name.as_bytes());
    v.extend(extra);
    let size = v.len() - start;
    v.extend(b"PK\x05\x06\0\0\0\0\x01\0\x01\0");
    v.extend((size as u32).to_le_bytes());
    v.extend((start as u32).to_le_bytes());
    v.extend([0u8; 2]);
    v
}

const RECORD: [u8; 11] = [0x01, 0x99, 7, 0, 1, 0, 0x41, 0x45, 3, 0, 0];

fn archive_message(bytes: &[u8]) -> Option<String> {
    match sheet_names(bytes) {
        Some(Err(RewriteError::Archive(m))) => Some(m),
        _ => None,
    }
}

#[test]
fn locked_parts_are_not_opened() {
    let book = archive(0, "xl/workbook.xml", &RECORD);
    assert_eq!(archive_message(&book).unwrap(), LOCKED);
    assert!(matches!(
        rewrite(&book, &TextMap::new()),
        Some(Err(RewriteError::Archive(m))) if m == LOCKED
    ));
    let package = archive(0, PROGRAM, &RECORD);
    assert!(extract_program(&package).err().unwrap().message().contains(LOCKED));
}

#[test]
fn encrypted_parts_are_not_opened() {
    assert_eq!(archive_message(&archive(1, "xl/workbook.xml", &[])).unwrap(), LOCKED);
    assert_eq!(archive_message(&archive(1, "xl/workbook.xml", &RECORD)).unwrap(), LOCKED);
}

#[test]
fn plain_parts_are_opened() {
    assert!(matches!(
        sheet_names(&archive(0, "xl/workbook.xml", &[])),
        Some(Err(RewriteError::Archive(m))) if m == "specified file not found in archive"
    ));
}

fn deep(n: usize) -> String {
    format!("{}{}", "<a>".repeat(n), "</a>".repeat(n))
}

#[test]
fn nesting_is_told_from_the_tags() {
    assert_eq!(nesting_of(""), 0);
    assert_eq!(nesting_of("<a/>"), 1);
    assert_eq!(nesting_of("<a b='>' c=\"/\"><b/></a>"), 2);
    assert_eq!(nesting_of("<?xml version=\"1.0\"?><a><!-- <b><c> --><![CDATA[<d><e>]]></a>"), 1);
    assert_eq!(nesting_of("<a><b></b><c><d/></c></a>"), 3);
    assert_eq!(nesting_of(&deep(40)), 40);
}

/// A workbook whose parts are as deep as given.
fn deep_book(book: usize, relations: usize, sheet: usize) -> Vec<u8> {
    let inside = |n: usize| deep(n - 1);
    let mut z = ZipWriter::new(Cursor::new(Vec::new()));
    let ns = "http://schemas.openxmlformats.org/officeDocument/2006/relationships";
    for (name, text) in [
        (
            "xl/workbook.xml",
            format!("<workbook xmlns:r=\"{ns}\"><sheet name=\"a\" r:id=\"1\"/>{}</workbook>", inside(book)),
        ),
        (
            "xl/_rels/workbook.xml.rels",
            format!("<r><x Id=\"1\" Target=\"s.xml\"/>{}</r>", inside(relations)),
        ),
        ("xl/s.xml", format!("<s><sheetData/>{}</s>", inside(sheet))),
    ] {
        z.start_file(name, FileOptions::default()).unwrap();
        z.write_all(text.as_bytes()).unwrap();
    }
    z.finish().unwrap().into_inner()
}

fn one_sheet() -> TextMap<Vec<Vec<Value>>> {
    let mut map = TextMap::new();
    map.insert("a".to_string(), Vec::new());
    map
}

#[test]
fn a_dimension_within_the_data_may_leave_too_little() {
    let fine = "<s><sheetData><dimension ref=\"A1\"/></sheetData></s>";
    let shrinking = "<s><sheetData><dimension ref=\"A1:XFD1048576\"/></sheetData></s>";
    let apart = "<s><dimension ref=\"A1:XFD1048576\"/><sheetData/></s>";
    assert!(try_patch_sheet(fine, &[]).unwrap().is_ok());
    assert!(try_patch_sheet(shrinking, &[]).is_none());
    assert!(try_patch_sheet(apart, &[]).unwrap().is_ok());
}

#[test]
fn nothing_is_told_of_deep_documents() {
    let (most, more) = (deep(MAX_NESTING), deep(MAX_NESTING + 1));
    assert_eq!(try_read_xml(&most).unwrap().ok().unwrap().len(), MAX_NESTING + 1);
    assert!(try_read_xml(&more).is_none() && !is_reachable(&more));
    assert!(is_reachable(&most) && recalc(&most).is_err());
    assert!(try_patch_sheet(&most, &[]).unwrap().is_err());
    assert!(try_patch_sheet(&more, &[]).is_none());
    assert!(try_patch_sheet(&deep(100_000), &[]).is_none());
}

#[test]
fn nothing_is_told_of_workbooks_with_deep_parts() {
    let n = MAX_NESTING;
    let fine = deep_book(n, n, n);
    assert!(rewrite(&fine, &one_sheet()).unwrap().is_ok());
    assert!(sheet_names(&deep_book(n + 1, n, n)).is_none());
    assert!(sheet_names(&deep_book(n, n + 1, n)).is_none());
    assert!(sheet_names(&deep_book(n, n, n + 1)).unwrap().is_ok());
    assert!(rewrite(&deep_book(n, n, n + 1), &one_sheet()).is_none());
    assert!(rewrite(&deep_book(n, n, n + 1), &TextMap::new()).unwrap().is_ok());
    let name = "AVT-US-20260824全站点通用补货计划.xlsx";
    let mut inspector = Inspector::new("t", name, "r", "AVT-US").ok().unwrap();
    assert!(inspector.take_target(&deep_book(n + 1, n, n)).is_none());
    assert_eq!(inspector.stage, Stage::Refused);
}

#[test]
fn dates_are_in_ascii() {
    let name = |date: &str| format!("AVT-US-{date}全站点通用补货计划.xlsx");
    assert_eq!(identify(&name("20260824"), "AVT-US").ok().unwrap().date, "20260824");
    for date in ["２０２６０８２４", "2026082४", "٢0260824", "20260230"] {
        let r = identify(&name(date), "AVT-US");
        assert!(matches!(r, Err(IdentifyError::Date(_))), "{date}");
    }
}

fn plan() -> Plan {
    Plan {
        target: "t".to_string(),
        station: "US".to_string(),
        code: "US".to_string(),
        date: "20260824".to_string(),
        root: "r".to_string(),
        sources: Vec::new(),
        warnings: Vec::new(),
        target_hash: "h".to_string(),
        sheets: TextMap::new(),
    }
}

#[test]
fn nothing_follows_on_an_error() {
    let plan = plan();
    let mut saver = Saver::new();
    assert!(saver.step(&plan, false, Event::Hash("h".to_string())).unwrap().is_ok());
    assert!(matches!(saver.step(&plan, false, Event::Lock(true)), Some(Err(SaveError::Locked))));
    assert_eq!(saver.waiting, Waiting::Over);
    assert!(matches!(saver.step(&plan, false, Event::Replaced), Some(Err(SaveError::OutOfTurn))));
}

#[test]
fn refused_inspections_are_over() {
    let name = "AVT-US-20260824全站点通用补货计划.xlsx";
    let mut inspector = Inspector::new("t", name, "r", "AVT-US").ok().unwrap();
    assert!(inspector.take_target(b"no archive").unwrap().is_err());
    assert_eq!(inspector.stage, Stage::Refused);
}
