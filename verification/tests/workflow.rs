//! Plans from the first look at a workbook to the filled one, on a disk that is held in memory.

use avt_replenishment::inspector::{Action, Inspector, Reading};
use avt_replenishment::number::Number;
use avt_replenishment::plan::{Outcome, Plan};
use avt_replenishment::report::{read_table, Content};
use avt_replenishment::save::{backup_name, lock_name, outcome, Event, Saver, Step};
use avt_replenishment::source::{file_stem, hash, Listed};
use avt_replenishment::value::Value;
use std::collections::{BTreeMap, BTreeSet};
use std::io::{Cursor, Read, Write};
use zip::write::FileOptions;
use zip::{ZipArchive, ZipWriter};

/// Files by their paths; the directories are those that the paths go through.
struct Disk {
    files: BTreeMap<String, Vec<u8>>,
}

impl Disk {
    fn is_dir(&self, path: &str) -> bool {
        let prefix = format!("{path}/");
        self.files.keys().any(|k| k.starts_with(&prefix))
    }

    fn list(&self, path: &str) -> Vec<Listed> {
        let prefix = format!("{path}/");
        let names: BTreeSet<(String, bool)> = self
            .files
            .keys()
            .filter_map(|k| k.strip_prefix(&prefix))
            .map(|rest| match rest.split_once('/') {
                Some((name, _)) => (name.to_string(), false),
                None => (rest.to_string(), true),
            })
            .collect();
        names
            .into_iter()
            .map(|(name, is_file)| Listed { name, is_file, modified: 0 })
            .collect()
    }
}

fn split(path: &str) -> (&str, &str) {
    path.rsplit_once('/').unwrap()
}

/// Carries an inspection through.
fn inspect(disk: &Disk, target: &str) -> Result<Plan, String> {
    let (root, name) = split(target);
    let (_, folder) = split(root);
    let mut inspector =
        Inspector::new(target, name, root, folder).map_err(|e| e.message())?;
    let mut action = inspector.take_target(&disk.files[target]).unwrap().map_err(|e| e.message())?;
    loop {
        action = match action {
            Action::List(names) => {
                let dir = format!("{root}/{}", names.join("/"));
                inspector.take_listing(&disk.list(&dir), disk.is_dir(&dir))
            }
            Action::Open(names, file) => {
                let path = format!("{root}/{}/{file}", names.join("/"));
                let bytes = disk.files[&path].clone();
                let fingerprint = hash(&bytes);
                inspector
                    .take_report(&Reading {
                        path,
                        content: Content::Bytes(bytes),
                        before: fingerprint.clone(),
                        after: fingerprint,
                        modified: "2026-08-24 08:00:00".to_string(),
                    })
                    .map_err(|e| e.message())?
            }
            Action::ReadTarget => {
                inspector.take_target_again(&disk.files[target]).map_err(|e| e.message())?
            }
            Action::Done => return Ok(inspector.into_plan()),
        };
    }
}

/// Carries a plan out.
fn execute(disk: &mut Disk, plan: &Plan, backup: bool) -> Result<Outcome, String> {
    let (root, name) = split(&plan.target);
    let mut saver = Saver::new();
    let mut step = Step::HashTarget;
    let mut beside: Vec<u8> = Vec::new();
    let mut copy: Option<String> = None;
    loop {
        let event = match step {
            Step::HashTarget => Event::Hash(hash(&disk.files[&plan.target])),
            Step::HashSource(i) => Event::Hash(hash(&disk.files[&plan.sources[i].path])),
            Step::CheckLock => {
                Event::Lock(disk.files.contains_key(&format!("{root}/{}", lock_name(name))))
            }
            Step::ReadTarget => Event::Bytes(disk.files[&plan.target].clone()),
            Step::WriteBeside(bytes) => {
                beside = bytes.clone();
                Event::Bytes(bytes)
            }
            Step::Backup => {
                let path =
                    format!("{root}/{}", backup_name(&file_stem(name), "20260824_080000_1"));
                let bytes = disk.files[&plan.target].clone();
                let fingerprint = hash(&bytes);
                disk.files.insert(path.clone(), bytes);
                copy = Some(path);
                Event::Hash(fingerprint)
            }
            Step::Replace => {
                disk.files.insert(plan.target.clone(), beside.clone());
                Event::Replaced
            }
            Step::Done => return Ok(outcome(plan, copy)),
        };
        step = saver.step(plan, backup, event).unwrap().map_err(|e| e.message())?;
    }
}

fn template(code: &str) -> (String, Vec<u8>) {
    let mut z = ZipWriter::new(Cursor::new(Vec::new()));
    let sheets = [
        "FBA库存",
        "限制发货数量",
        "7天销",
        "14天销",
        "30天销",
        "60天销",
        "90天销",
        "补货汇总",
    ];
    let mut wb = String::from(
        r#"<workbook xmlns="http://schemas.openxmlformats.org/spreadsheetml/2006/main" xmlns:r="http://schemas.openxmlformats.org/officeDocument/2006/relationships"><sheets>"#,
    );
    let mut rel = String::from(
        r#"<Relationships xmlns="http://schemas.openxmlformats.org/package/2006/relationships">"#,
    );
    for (i, name) in sheets.iter().enumerate() {
        wb.push_str(&format!(
            "<sheet name=\"{name}\" sheetId=\"{}\" r:id=\"rId{}\"/>",
            i + 1,
            i + 1
        ));
        rel.push_str(&format!(
            "<Relationship Id=\"rId{}\" Target=\"worksheets/sheet{}.xml\"/>",
            i + 1,
            i + 1
        ));
        z.start_file(format!("xl/worksheets/sheet{}.xml", i + 1), FileOptions::default())
            .unwrap();
        z.write_all(br#"<worksheet xmlns="http://schemas.openxmlformats.org/spreadsheetml/2006/main"><dimension ref="A1:A4"/><sheetData><row r="1"><c r="A1" t="inlineStr"><is><t>old</t></is></c></row><row r="4"><c r="A4"><f>SUM(A2:A3)</f><v>99</v></c></row></sheetData></worksheet>"#).unwrap();
    }
    wb.push_str("</sheets><calcPr iterate=\"1\" iterateCount=\"88\"/></workbook>");
    rel.push_str("</Relationships>");
    let parts: [(&str, &[u8]); 3] = [
        ("xl/workbook.xml", wb.as_bytes()),
        ("xl/_rels/workbook.xml.rels", rel.as_bytes()),
        ("xl/externalLinks/externalLink1.xml", b"external-untouched"),
    ];
    for (name, data) in parts {
        z.start_file(name, FileOptions::default()).unwrap();
        z.write_all(data).unwrap();
    }
    let name = format!("AVT-{code}-20260824-- 全站点通用补货计划.xlsx");
    (name, z.finish().unwrap().into_inner())
}

fn report(width: usize, marker: &str) -> Vec<u8> {
    let mut w = csv::Writer::from_writer(Vec::new());
    w.write_record((0..width).map(|i| format!("Column{i}"))).unwrap();
    let mut row = vec!["23.71%".to_string(); width];
    row[0] = "001234".into();
    row[1] = marker.into();
    row[2] = "=1+1".into();
    row[3] = "1,185".into();
    row[if width == 15 { 11 } else { 17 }] = "£2,052.55".into();
    w.write_record(row).unwrap();
    w.into_inner().unwrap()
}

fn setup(code: &str) -> (Disk, String) {
    let (name, bytes) = template(code);
    let target = format!("/data/AVT-{code}/{name}");
    let mut files = BTreeMap::new();
    files.insert(target.clone(), bytes);
    (Disk { files }, target)
}

fn put(disk: &mut Disk, target: &str, path: &str, bytes: Vec<u8>) {
    let (root, _) = split(target);
    disk.files.insert(format!("{root}/{path}"), bytes);
}

fn rows<'a>(plan: &'a Plan, sheet: &str) -> &'a Vec<Vec<Value>> {
    plan.sheet(sheet).unwrap()
}

fn number(value: &Value) -> f64 {
    match value {
        Value::Number(Number::Finite(s)) => s.parse().unwrap(),
        other => panic!("{other:?}"),
    }
}

fn part(bytes: &[u8], name: &str) -> String {
    let mut zip = ZipArchive::new(Cursor::new(bytes)).unwrap();
    let mut s = String::new();
    zip.by_name(name).unwrap().read_to_string(&mut s).unwrap();
    s
}

#[test]
fn replacement_and_backup_preserve_unrelated_parts() {
    let (mut disk, target) = setup("UK");
    put(&mut disk, &target, "业务报告/20260824/AVT-UK-7T-20260824.csv", report(15, "UK"));
    let before = hash(&disk.files[&target]);
    let plan = inspect(&disk, &target).unwrap();
    let sheet = rows(&plan, "7天销");
    assert_eq!(number(&sheet[1][3]), 1185.0);
    assert_eq!(sheet[1][0], Value::Text("001234".into()));
    assert_eq!(sheet[1][4], Value::Text("23.71%".into()));
    assert_eq!(sheet[1][11], Value::Text("£2,052.55".into()));
    let result = execute(&mut disk, &plan, true).unwrap();
    assert_eq!(hash(&disk.files[result.backup.as_ref().unwrap()]), before);
    let bytes = disk.files[&target].clone();
    assert!(part(&bytes, "xl/worksheets/sheet8.xml").contains("<f>SUM(A2:A3)</f>"));
    let sheet = part(&bytes, "xl/worksheets/sheet3.xml");
    assert!(!sheet.contains("SUM("));
    assert!(sheet.contains("£2,052.55"));
    assert!(part(&bytes, "xl/workbook.xml").contains("iterateCount=\"88\""));
    assert_eq!(part(&bytes, "xl/externalLinks/externalLink1.xml"), "external-untouched");
    assert!(execute(&mut disk, &plan, false).is_err());
}

#[test]
fn us_mx_and_eu_order_and_gaps() {
    let (mut disk, target) = setup("US");
    put(&mut disk, &target, "业务报告/20260824/AVT-US-7T-20260824.csv", report(21, "US"));
    put(&mut disk, &target, "业务报告/20260824/MX/AVT-MX-7T-20260824.csv", report(21, "MX"));
    let p = inspect(&disk, &target).unwrap();
    let sheet = rows(&p, "7天销");
    assert_eq!(sheet.len(), 5);
    assert!(sheet[2].is_empty() && sheet[3].is_empty());
    assert_eq!(sheet[4][1], Value::Text("MX".into()));
    let (mut disk, target) = setup("FR");
    put(&mut disk, &target, "业务报告/20260824/FR/AVT-FR-7T-20260824.csv", report(15, "FR"));
    put(&mut disk, &target, "业务报告/20260824/DE/AVT-DE-7T-20260824.csv", report(15, "DE"));
    let p = inspect(&disk, &target).unwrap();
    assert_eq!(p.station, "EU");
    let sheet = rows(&p, "7天销");
    assert_eq!(sheet.len(), 6);
    assert_eq!(sheet[0][16], Value::Text("DE".into()));
    assert_eq!(sheet[4][16], Value::Text("FR".into()));
}

#[test]
fn source_mutation_blocks_overwrite() {
    let (mut disk, target) = setup("JP");
    put(&mut disk, &target, "业务报告/20260824/AVT-JP-7T-20260824.csv", report(21, "JP"));
    let p = inspect(&disk, &target).unwrap();
    let before = hash(&disk.files[&target]);
    put(&mut disk, &target, "业务报告/20260824/AVT-JP-7T-20260824.csv", b"changed".to_vec());
    assert!(execute(&mut disk, &p, false).is_err());
    assert_eq!(hash(&disk.files[&target]), before);
}

#[test]
fn rejects_cross_station_and_wrong_width() {
    let (mut disk, target) = setup("CA");
    put(&mut disk, &target, "业务报告/20260824/AVT-US-7T-20260824.csv", report(21, "US"));
    assert!(inspect(&disk, &target).is_err());
    put(&mut disk, &target, "业务报告/20260824/AVT-CA-7T-20260824.csv", report(15, "CA"));
    assert!(inspect(&disk, &target).err().unwrap().contains("21"));
}

#[test]
fn backup_off_and_lock_detection() {
    let (mut disk, target) = setup("CA");
    put(&mut disk, &target, "业务报告/20260824/AVT-CA-7T-20260824.csv", report(21, "CA"));
    let plan = inspect(&disk, &target).unwrap();
    let before = hash(&disk.files[&target]);
    let (root, name) = split(&target);
    let lock = format!("{root}/~${name}");
    disk.files.insert(lock.clone(), Vec::new());
    assert!(execute(&mut disk, &plan, false).is_err());
    assert_eq!(hash(&disk.files[&target]), before);
    disk.files.remove(&lock);
    let result = execute(&mut disk, &plan, false).unwrap();
    assert!(result.backup.is_none());
    assert!(!disk.list(root).iter().any(|e| e.name.contains("backup")));
}

#[test]
fn delimited_encoding_and_quoted_text() {
    let text = "識別\t数量\r\n\"商品,名前\"\t1,185\r\n";
    let bytes: Vec<u8> = [0xff, 0xfe]
        .into_iter()
        .chain(text.encode_utf16().flat_map(u16::to_le_bytes))
        .collect();
    let (table, encoding) =
        read_table("test.txt", &Content::Bytes(bytes), "JP").ok().unwrap();
    assert_eq!(encoding, "UTF-16LE");
    assert_eq!(table[1][0], Value::Text("商品,名前".into()));
    let (encoded, _, errors) = encoding_rs::SHIFT_JIS.encode(text);
    assert!(!errors);
    let (table, encoding) =
        read_table("test.txt", &Content::Bytes(encoded.into_owned()), "JP").ok().unwrap();
    assert_eq!(encoding, "Shift_JIS");
    assert_eq!(table[1][0], Value::Text("商品,名前".into()));
}

#[test]
fn filling_leaves_no_local_records_with_either_backup_setting() {
    for backup in [false, true] {
        let (mut disk, target) = setup("UK");
        put(&mut disk, &target, "业务报告/20260824/AVT-UK-7T-20260824.csv", report(15, "UK"));
        let before: BTreeSet<String> = disk.files.keys().cloned().collect();
        let plan = inspect(&disk, &target).unwrap();
        let result = execute(&mut disk, &plan, backup).unwrap();
        let after: BTreeSet<String> = disk.files.keys().cloned().collect();
        let added: BTreeSet<String> = after.difference(&before).cloned().collect();
        let expected: BTreeSet<String> = result.backup.into_iter().collect();
        assert_eq!(added, expected, "Only an explicitly selected XLSX backup may be created");
    }
}

#[test]
fn outcomes_count_sheets_and_conversions() {
    let (mut disk, target) = setup("UK");
    put(&mut disk, &target, "业务报告/20260824/AVT-UK-7T-20260824.csv", report(15, "UK"));
    put(&mut disk, &target, "FBA库存/stock.csv", b"a,b\n1,2\n".to_vec());
    let plan = inspect(&disk, &target).unwrap();
    assert_eq!(plan.sources.len(), 2);
    assert_eq!(plan.sources[1].rows, 1);
    assert_eq!(plan.sources[1].columns, 15);
    assert_eq!(plan.sources[1].converted, 1);
    assert_eq!(plan.sources[1].encoding, "UTF-8");
    let result = execute(&mut disk, &plan, false).unwrap();
    assert_eq!((result.sheets, result.converted), (2, 1));
    assert!(result.message.starts_with("填充完成。"));
}

#[test]
fn missing_sources_are_warned_of() {
    let (mut disk, target) = setup("US");
    put(&mut disk, &target, "业务报告/20260824/MX/AVT-MX-7T-20260824.csv", report(21, "MX"));
    let plan = inspect(&disk, &target).unwrap();
    assert_eq!(plan.warnings[0], "缺少 FBA库存 源文件，该工作表将保留原数据。");
    assert_eq!(plan.warnings[1], "缺少 限制发货数量 源文件，该工作表将保留原数据。");
    assert_eq!(plan.warnings[2], "7天销 缺少 US，仅使用 MX 报告（沿用原脚本规则）。");
    assert_eq!(plan.warnings[3], "MX 缺少 14天报告，此周期不追加 MX。");
    assert_eq!(plan.warnings[4], "缺少 14天销 源文件，该工作表将保留原数据。");
    assert_eq!(rows(&plan, "7天销").len(), 2);
}

#[test]
fn countries_without_a_report_are_warned_of() {
    let (mut disk, target) = setup("DE");
    put(&mut disk, &target, "业务报告/20260824/DE/AVT-DE-7T-20260824.csv", report(15, "DE"));
    put(&mut disk, &target, "业务报告/20260824/FR/note.md", Vec::new());
    let plan = inspect(&disk, &target).unwrap();
    assert!(plan.warnings.contains(&"FR 缺少 7天报告，此周期未包含该国。".to_string()));
    assert!(!plan.warnings.iter().any(|w| w.starts_with("IT")));
    assert_eq!(rows(&plan, "7天销")[0].len(), 17);
}

#[test]
fn nothing_to_fill_is_refused() {
    let (disk, target) = setup("UK");
    let e = inspect(&disk, &target).err().unwrap();
    assert!(e.starts_with("未找到可填充数据。"));
    assert!(e.ends_with("/data/AVT-UK"));
}

#[test]
fn a_worksheet_that_is_not_there_is_refused() {
    let mut z = ZipWriter::new(Cursor::new(Vec::new()));
    z.start_file("xl/workbook.xml", FileOptions::default()).unwrap();
    z.write_all(b"<workbook></workbook>").unwrap();
    z.start_file("xl/_rels/workbook.xml.rels", FileOptions::default()).unwrap();
    z.write_all(b"<Relationships/>").unwrap();
    let (mut disk, target) = setup("UK");
    disk.files.insert(target.clone(), z.finish().unwrap().into_inner());
    put(&mut disk, &target, "业务报告/20260824/AVT-UK-7T-20260824.csv", report(15, "UK"));
    let e = inspect(&disk, &target).err().unwrap();
    assert_eq!(e, "目标文件缺少工作表：7天销，未修改原表");
}

#[test]
fn a_workbook_that_changes_is_not_overwritten() {
    let (mut disk, target) = setup("UK");
    put(&mut disk, &target, "业务报告/20260824/AVT-UK-7T-20260824.csv", report(15, "UK"));
    let plan = inspect(&disk, &target).unwrap();
    disk.files.insert(target.clone(), b"other".to_vec());
    let e = execute(&mut disk, &plan, true).err().unwrap();
    assert_eq!(e, "补货表在识别后已变化，请重新识别再填充");
    assert_eq!(disk.files[&target], b"other".to_vec());
}

#[test]
fn what_was_not_asked_for_stops_the_filling() {
    let (mut disk, target) = setup("UK");
    put(&mut disk, &target, "业务报告/20260824/AVT-UK-7T-20260824.csv", report(15, "UK"));
    let plan = inspect(&disk, &target).unwrap();
    let mut saver = Saver::new();
    assert!(saver.step(&plan, false, Event::Replaced).unwrap().is_err());
    let mut saver = Saver::new();
    let good = plan.target_hash.clone();
    assert!(matches!(saver.step(&plan, true, Event::Hash(good.clone())), Some(Ok(Step::HashSource(0)))));
    let source = plan.sources[0].hash.clone();
    assert!(matches!(saver.step(&plan, true, Event::Hash(source)), Some(Ok(Step::CheckLock))));
    assert!(matches!(saver.step(&plan, true, Event::Lock(false)), Some(Ok(Step::ReadTarget))));
    let bytes = disk.files[&target].clone();
    let new = match saver.step(&plan, true, Event::Bytes(bytes.clone())) {
        Some(Ok(Step::WriteBeside(new))) => new,
        _ => panic!(),
    };
    assert_ne!(new, bytes);
    assert!(matches!(saver.step(&plan, true, Event::Bytes(new)), Some(Ok(Step::HashTarget))));
    assert!(matches!(saver.step(&plan, true, Event::Hash(good.clone())), Some(Ok(Step::Backup))));
    let e = saver.step(&plan, true, Event::Hash("00".to_string())).unwrap().err().unwrap();
    assert_eq!(e.message(), "备份校验失败，未覆盖原表");
}

#[test]
fn a_workbook_that_is_not_read_back_stops_the_filling() {
    let (mut disk, target) = setup("UK");
    put(&mut disk, &target, "业务报告/20260824/AVT-UK-7T-20260824.csv", report(15, "UK"));
    let plan = inspect(&disk, &target).unwrap();
    let mut saver = Saver::new();
    saver.step(&plan, false, Event::Hash(plan.target_hash.clone())).unwrap().ok().unwrap();
    saver.step(&plan, false, Event::Hash(plan.sources[0].hash.clone())).unwrap().ok().unwrap();
    saver.step(&plan, false, Event::Lock(false)).unwrap().ok().unwrap();
    let bytes = disk.files[&target].clone();
    saver.step(&plan, false, Event::Bytes(bytes.clone())).unwrap().ok().unwrap();
    let e = saver.step(&plan, false, Event::Bytes(bytes)).unwrap().err().unwrap();
    assert_eq!(e.message(), "写入校验失败：xl/worksheets/sheet3.xml");
}

#[test]
fn every_worksheet_is_filled_or_reported() {
    for (code, path, width) in [
        ("US", "业务报告/20260824/AVT-US-14T-20260824.csv", 21),
        ("US", "业务报告/20260824/MX/AVT-MX-30T-20260824.csv", 21),
        ("DE", "业务报告/20260824/FR/AVT-FR-90T-20260824.csv", 15),
        ("UK", "FBA库存/stock.csv", 15),
    ] {
        let (mut disk, target) = setup(code);
        put(&mut disk, &target, path, report(width, code));
        let plan = inspect(&disk, &target).unwrap();
        let mut filled = 0;
        for sheet in ["FBA库存", "限制发货数量", "7天销", "14天销", "30天销", "60天销", "90天销"] {
            let warning = format!("缺少 {sheet} 源文件，该工作表将保留原数据。");
            let count = plan.warnings.iter().filter(|w| **w == warning).count();
            filled += plan.sheet(sheet).is_some() as usize;
            assert_eq!(count, plan.sheet(sheet).is_none() as usize, "{path} {sheet}");
        }
        assert_eq!(filled, 1);
    }
}
