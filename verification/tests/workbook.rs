use avt_replenishment::map::TextMap;
use avt_replenishment::number::Number;
use avt_replenishment::rewrite::{check_rewrite, prepare, rewrite, sheet_names, RewriteError};
use avt_replenishment::value::Value;
use avt_replenishment::workbook::{mappings, recalc, recalc_nodes, MapError};
use avt_replenishment::xml::{XmlAttribute, XmlNode};
use std::io::{Cursor, Read, Write};
use zip::write::FileOptions;
use zip::{CompressionMethod, ZipArchive, ZipWriter};

const BOOK: &str = "<workbook xmlns:r=\"http://schemas.openxmlformats.org/officeDocument/2006/relationships\"><sheets><sheet name=\"b\" r:id=\"r2\"/><sheet name=\"a\" r:id=\"r1\"/></sheets></workbook>";
const RELATIONS: &str = "<Relationships><Relationship Id=\"r1\" Target=\"/xl/one.xml\"/><Relationship Id=\"r2\" Target=\"two.xml\"/></Relationships>";
const SHEET: &str = "<worksheet><sheetData/></worksheet>";

fn pack(parts: &[(&str, &[u8])]) -> Vec<u8> {
    let mut z = ZipWriter::new(Cursor::new(Vec::new()));
    for (name, data) in parts {
        let options = FileOptions::default().compression_method(CompressionMethod::Stored);
        z.start_file(*name, options).unwrap();
        z.write_all(data).unwrap();
    }
    z.finish().unwrap().into_inner()
}

fn book() -> Vec<u8> {
    pack(&[
        ("xl/workbook.xml", BOOK.as_bytes()),
        ("xl/_rels/workbook.xml.rels", RELATIONS.as_bytes()),
        ("xl/one.xml", SHEET.as_bytes()),
        ("xl/two.xml", SHEET.as_bytes()),
        ("raw.bin", &[0, 255, 1, 254]),
    ])
}

fn part(bytes: &[u8], name: &str) -> Vec<u8> {
    let mut zip = ZipArchive::new(Cursor::new(bytes)).unwrap();
    let mut v = Vec::new();
    zip.by_name(name).unwrap().read_to_end(&mut v).unwrap();
    v
}

fn sheets(name: &str) -> TextMap<Vec<Vec<Value>>> {
    let mut map = TextMap::new();
    map.insert(
        name.to_string(),
        vec![vec![Value::Number(Number::Finite("3".to_string()))]],
    );
    map
}

fn message(e: RewriteError) -> String {
    e.message()
}

#[test]
fn worksheets_are_named_in_order() {
    assert_eq!(sheet_names(&book()).unwrap().ok().unwrap(), ["a", "b"]);
}

#[test]
fn workbooks_that_cannot_be_read_are_refused() {
    assert!(sheet_names(b"no archive").unwrap().is_err());
    assert_eq!(
        message(sheet_names(&pack(&[("x", b"y")])).unwrap().err().unwrap()),
        "specified file not found in archive"
    );
    let invalid = pack(&[("xl/workbook.xml", &[0xff])]);
    assert_eq!(
        message(sheet_names(&invalid).unwrap().err().unwrap()),
        "stream did not contain valid UTF-8"
    );
    let broken = pack(&[
        ("xl/workbook.xml", b"<a>"),
        ("xl/_rels/workbook.xml.rels", RELATIONS.as_bytes()),
    ]);
    assert!(matches!(sheet_names(&broken), Some(Err(RewriteError::Xml(_)))));
}

#[test]
fn rewriting_keeps_what_it_does_not_change() {
    let old = book();
    let new = rewrite(&old, &sheets("b")).unwrap().ok().unwrap();
    assert_ne!(new, old);
    assert_eq!(part(&new, "raw.bin"), [0, 255, 1, 254]);
    assert_eq!(part(&new, "xl/one.xml"), SHEET.as_bytes());
    assert_eq!(
        String::from_utf8(part(&new, "xl/two.xml")).unwrap(),
        "<worksheet><sheetData><row r=\"1\"><c r=\"A1\" t=\"n\"><v>3</v></c></row></sheetData></worksheet>"
    );
    assert!(String::from_utf8(part(&new, "xl/workbook.xml"))
        .unwrap()
        .contains("fullCalcOnLoad=\"1\""));
    let order: Vec<String> = {
        let mut zip = ZipArchive::new(Cursor::new(&new)).unwrap();
        (0..zip.len()).map(|i| zip.by_index(i).unwrap().name().to_string()).collect()
    };
    assert_eq!(
        order,
        ["xl/workbook.xml", "xl/_rels/workbook.xml.rels", "xl/one.xml", "xl/two.xml", "raw.bin"]
    );
}

#[test]
fn a_worksheet_that_is_gone_is_refused() {
    assert_eq!(message(rewrite(&book(), &sheets("c")).unwrap().err().unwrap()), "目标工作表消失");
}

#[test]
fn a_sheet_that_cannot_be_filled_stops_the_rewriting() {
    let mut map = TextMap::new();
    map.insert("a".to_string(), vec![vec![Value::Number(Number::NotFinite)]]);
    assert_eq!(message(rewrite(&book(), &map).unwrap().err().unwrap()), "不能写入非有限数值");
}

#[test]
fn every_part_is_read_back() {
    let old = book();
    let (new, changed) = prepare(&old, &sheets("b")).unwrap().ok().unwrap();
    assert!(matches!(check_rewrite(&old, &new, &changed), Some(Ok(()))));
    assert_eq!(message(check_rewrite(&old, &old, &changed).unwrap().err().unwrap()), "写入校验失败：xl/workbook.xml");
    let fewer = pack(&[("xl/workbook.xml", BOOK.as_bytes())]);
    assert_eq!(
        message(check_rewrite(&old, &fewer, &changed).unwrap().err().unwrap()),
        "保存校验失败：文件部件数量变化"
    );
    let nothing: TextMap<String> = TextMap::new();
    let other = pack(&[
        ("xl/workbook.xml", BOOK.as_bytes()),
        ("xl/_rels/workbook.xml.rels", RELATIONS.as_bytes()),
        ("xl/one.xml", SHEET.as_bytes()),
        ("xl/two.xml", SHEET.as_bytes()),
        ("raw.bin", &[0, 255, 1, 253]),
    ]);
    assert_eq!(message(check_rewrite(&old, &other, &nothing).unwrap().err().unwrap()), "模板保留校验失败：raw.bin");
    assert!(check_rewrite(b"", &other, &nothing).unwrap().is_err());
    assert!(check_rewrite(&old, b"", &nothing).unwrap().is_err());
}

#[test]
fn recalculation_is_asked_for() {
    let calc = "calcId=\"0\" calcMode=\"auto\" fullCalcOnLoad=\"1\" forceFullCalc=\"1\"/>";
    assert_eq!(
        recalc("<workbook><calcPr calcId=\"9\" iterate=\"1\"/><x/></workbook>").ok().unwrap(),
        format!("<workbook><calcPr iterate=\"1\" {calc}<x/></workbook>")
    );
    assert_eq!(
        recalc("<workbook><x/></workbook>").ok().unwrap(),
        format!("<workbook><x/><calcPr {calc}</workbook>")
    );
    assert_eq!(recalc("<workbook/>").err().unwrap().message(), "workbook closing tag missing");
    assert!(recalc("<workbook>").is_err());
    assert_eq!(
        recalc_nodes("é</workbook>", &vec![]).ok().unwrap(),
        format!("é<calcPr {calc}</workbook>")
    );
}

fn node(tag: &str, attributes: &[(Option<&str>, &str, &str)]) -> XmlNode {
    XmlNode {
        parent: None,
        tag: tag.to_string(),
        attributes: attributes
            .iter()
            .map(|(namespace, name, value)| XmlAttribute {
                namespace: namespace.map(|s| s.to_string()),
                name: name.to_string(),
                value: value.to_string(),
            })
            .collect(),
        start: 0,
        end: 0,
    }
}

#[test]
fn worksheets_lead_to_parts() {
    let ns = Some("http://schemas.openxmlformats.org/officeDocument/2006/relationships");
    let relations = vec![
        node("r", &[(None, "Id", "1"), (None, "Target", "//a/b.xml")]),
        node("r", &[(None, "Id", "2")]),
        node("r", &[(None, "Id", "1"), (None, "Target", "c.xml")]),
    ];
    let sheet = |attributes: &[(Option<&str>, &str, &str)]| vec![node("sheet", attributes)];
    let map = mappings(&sheet(&[(ns, "id", "1"), (None, "name", "n")]), &relations).ok().unwrap();
    assert_eq!(map.len(), 1);
    assert_eq!(map.get("n").unwrap(), "a/b.xml");
    let fault = |attributes: &[(Option<&str>, &str, &str)]| mappings(&sheet(attributes), &relations).err();
    assert_eq!(fault(&[(None, "id", "1")]), Some(MapError::NoRelation));
    assert_eq!(fault(&[(ns, "id", "2")]), Some(MapError::BadRelation));
    assert_eq!(fault(&[(ns, "id", "3")]), Some(MapError::BadRelation));
    assert_eq!(fault(&[(ns, "id", "1")]), Some(MapError::NoName));
    assert_eq!(MapError::NoName.message(), "工作表无名称");
    let twice = vec![
        node("sheet", &[(ns, "id", "1"), (None, "name", "n")]),
        node("sheet", &[(ns, "id", "1"), (None, "name", "m")]),
        node("sheet", &[(ns, "id", "1"), (None, "name", "n")]),
    ];
    assert_eq!(mappings(&twice, &relations).ok().unwrap().len(), 2);
}

#[test]
fn maps_are_in_the_order_of_their_keys() {
    let mut map = TextMap::new();
    for (k, v) in [("b", 1u8), ("a", 2), ("b", 3), ("", 4), ("ab", 5)] {
        map.insert(k.to_string(), v);
    }
    let entries: Vec<(String, u8)> =
        (0..map.len()).map(|i| (map.key(i).clone(), *map.value(i))).collect();
    assert_eq!(
        entries,
        [
            ("".to_string(), 4),
            ("a".to_string(), 2),
            ("ab".to_string(), 5),
            ("b".to_string(), 3)
        ]
    );
    assert_eq!(map.get("b"), Some(&3));
    assert_eq!(map.get("c"), None);
}
