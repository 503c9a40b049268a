use avt_replenishment::identify::{check_station, identify};
use avt_replenishment::load::{load, load_table};
use avt_replenishment::number::Number;
use avt_replenishment::report::{
    accept, decode, excel_table, pick_table, read_table, Charset, Content, ExcelCell,
};
use avt_replenishment::source::{
    extension, file_stem, files, hash, hex, is_excel, is_source, latest, report_file, Listed,
};
use avt_replenishment::station::{eu, periods, station};
use avt_replenishment::value::Value;

fn text(s: &str) -> Value {
    Value::Text(s.to_string())
}

fn number(s: &str) -> Value {
    Value::Number(Number::Finite(s.to_string()))
}

fn decoded(bytes: &[u8], code: &str) -> (String, String) {
    match decode(bytes, code) {
        Ok(r) => r,
        Err(e) => panic!("{}", e.message()),
    }
}

#[test]
fn encodings_are_told_apart() {
    assert_eq!(decoded("é".as_bytes(), "US"), ("é".to_string(), "UTF-8".to_string()));
    assert_eq!(
        decoded("\u{feff}\u{feff}a\u{feff}".as_bytes(), "US"),
        ("a\u{feff}".to_string(), "UTF-8".to_string())
    );
    assert_eq!(
        decoded(&[0xfe, 0xff, 0x4e, 0x2d], "US"),
        ("中".to_string(), "UTF-16BE".to_string())
    );
    assert_eq!(
        decoded(&[0xff, 0xfe, 0x2d, 0x4e], "US"),
        ("中".to_string(), "UTF-16LE".to_string())
    );
    assert_eq!(decoded(&[0xd6, 0xd0], "US"), ("中".to_string(), "GBK".to_string()));
    assert_eq!(decoded(&[0x93, 0xfa], "JP"), ("日".to_string(), "Shift_JIS".to_string()));
    assert_eq!(decoded(&[0xe9, 0x20], "US"), ("é ".to_string(), "windows-1252".to_string()));
}

#[test]
fn malformed_texts_are_refused() {
    assert_eq!(decode(&[0xff, 0xfe, 0x00], "US").err().unwrap().message(), "UTF-16 编码损坏");
    let marked = [0xef, 0xbb, 0xbf, 0xff];
    assert!(decode(&marked, "US").is_err());
    assert_eq!(decoded(&[0x81, 0xff, 0x00], "US").1, "windows-1252");
    assert_eq!(
        decode(&[0xff, 0x20, 0x80], "JP").err().unwrap().message(),
        "无法可靠识别文件编码，请将源报告另存为 UTF-8 CSV 或 XLSX"
    );
}

#[test]
fn only_well_formed_texts_are_accepted() {
    assert_eq!(
        accept(Charset::Gbk, "a".to_string(), false),
        Some(("a".to_string(), "GBK".to_string()))
    );
    assert_eq!(accept(Charset::Gbk, "a".to_string(), true), None);
    assert_eq!(Charset::ShiftJis.name(), "Shift_JIS");
}

fn records(rows: &[&[&str]]) -> Option<Vec<Vec<String>>> {
    Some(rows.iter().map(|r| r.iter().map(|s| s.to_string()).collect()).collect())
}

#[test]
fn the_widest_split_is_taken() {
    let one = records(&[&["a"], &["b"]]);
    let two = records(&[&["a", ""], &["c", "d"]]);
    let other = records(&[&["x", "y"], &["z", "w"]]);
    let short = records(&[&["a", "b", "c"]]);
    let table = pick_table(&vec![one.clone(), two, other, short.clone(), None]).unwrap();
    assert_eq!(table, [vec![text("a"), Value::Blank], vec![text("c"), text("d")]]);
    assert_eq!(pick_table(&vec![one, short, None]), None);
}

#[test]
fn delimiters_are_found() {
    for text_file in ["a\tb\n1\t2\n", "a,b\n1,2\n", "a;b\n1;2\n", "a|b\n1|2\n"] {
        let content = Content::Bytes(text_file.as_bytes().to_vec());
        let (table, encoding) = read_table("f.csv", &content, "US").ok().unwrap();
        assert_eq!(table, [vec![text("a"), text("b")], vec![text("1"), text("2")]]);
        assert_eq!(encoding, "UTF-8");
    }
    let content = Content::Bytes(b"a\nb\n".to_vec());
    assert_eq!(
        read_table("f.csv", &content, "US").err().unwrap().message(),
        "无法解析多列表格，可能存在编码、引号或分隔符问题：f.csv"
    );
    let uneven = Content::Bytes(b"a,b\n1,2,3\n".to_vec());
    assert!(read_table("f.csv", &uneven, "US").is_err());
}

#[test]
fn workbooks_are_read_cell_by_cell() {
    let cells = vec![vec![
        ExcelCell::Empty,
        ExcelCell::Number("1.5".to_string()),
        ExcelCell::Number("NaN".to_string()),
        ExcelCell::Text("".to_string()),
    ]];
    let table = excel_table(&cells).ok().unwrap();
    assert_eq!(
        table,
        [vec![Value::Blank, number("1.5"), Value::Number(Number::NotFinite), text("")]]
    );
    let (table, encoding) = read_table("f.xlsx", &Content::Excel(cells), "US").ok().unwrap();
    assert_eq!((table.len(), encoding.as_str()), (1, "Excel"));
    let bad = Content::Excel(vec![vec![ExcelCell::Error("Div0".to_string())]]);
    assert_eq!(
        read_table("f.xlsx", &bad, "US").err().unwrap().message(),
        "源文件包含错误单元格：Div0"
    );
    for (content, message) in [
        (Content::Unopened("m".to_string()), "无法读取源 Excel: m"),
        (Content::NoSheet, "源文件没有工作表"),
        (Content::Unread("m".to_string()), "m"),
    ] {
        assert_eq!(read_table("f.xlsx", &content, "US").err().unwrap().message(), message);
    }
}

#[test]
fn file_names_have_extensions_and_stems() {
    for (name, e, s) in [
        ("a.b.TXT", "txt", "a.b"),
        (".hidden", "", ".hidden"),
        ("none", "", "none"),
        ("end.", "", "end"),
        ("..txt", "txt", "."),
    ] {
        assert_eq!(extension(name), e);
        assert_eq!(file_stem(name), s);
    }
    assert!(is_excel("a.XLS") && is_excel("a.xlsx") && !is_excel("a.csv"));
}

fn entry(name: &str, is_file: bool, modified: i128) -> Listed {
    Listed { name: name.to_string(), is_file, modified }
}

#[test]
fn sources_are_picked_from_a_directory() {
    let entries = vec![
        entry("a.csv", true, 5),
        entry("~$a.xlsx", true, 9),
        entry(".b.csv", true, 9),
        entry("My BACKUP.csv", true, 9),
        entry("bac\u{212a}up.csv", true, 9),
        entry("备份.csv", true, 9),
        entry("c.md", true, 9),
        entry("d.csv", false, 9),
        entry("b.TSV", true, 5),
        entry("z.txt", true, -1),
    ];
    let places = files(&entries);
    assert_eq!(places, [0, 8, 9]);
    let choice = latest(&entries, &places, "库存");
    assert_eq!(choice.place, Some(8));
    assert_eq!(
        choice.warning.unwrap(),
        "库存有 3 个候选文件，按修改时间选取最新文件，请核对。"
    );
    let choice = latest(&entries, &vec![], "库存");
    assert!(choice.place.is_none() && choice.warning.is_none());
    assert!(is_source("x.csv", "x.csv") && !is_source("x.csv", "~$x.csv"));
}

#[test]
fn sales_reports_go_by_their_names() {
    let entries = vec![
        entry("avt-uk-7t-20260824.CSV", true, 1),
        entry("AVT-UK-7T-20260824.xlsx", true, 2),
        entry("AVT-UK-14T-20260824.csv", true, 3),
        entry("AVT-UK-7T-20260825.csv", true, 4),
    ];
    let choice = report_file(&entries, "UK", "7", "20260824");
    assert_eq!(choice.place, Some(1));
    assert!(choice.warning.unwrap().starts_with("UK 7天销有 2 个候选文件"));
    assert_eq!(report_file(&entries, "UK", "30", "20260824").place, None);
}

#[test]
fn fingerprints_are_hexadecimal() {
    assert_eq!(hex(&[0, 15, 16, 255]), "000f10ff");
    assert_eq!(
        hash(b"abc"),
        "ba7816bf8f01cfea414140de5dae2223b00361a396177a9cb410ff61f20015ad"
    );
}

#[test]
fn stations_belong_to_countries() {
    assert_eq!(eu().len(), 24);
    assert_eq!(periods(), ["7", "14", "30", "60", "90"]);
    for code in eu() {
        assert_eq!(station(code), Some("EU"));
    }
    for code in ["US", "CA", "UK", "JP"] {
        assert_eq!(station(code), Some(code));
    }
    assert_eq!(station("EU"), Some("EU"));
    assert_eq!(station("MX"), None);
    assert_eq!(station("us"), None);
}

fn refusal(name: &str, folder: &str) -> String {
    identify(name, folder).err().unwrap().message()
}

#[test]
fn plans_are_told_by_their_names() {
    let p = identify("avt-fr-20240229 x 全站点通用补货计划.XLSX", "EU").ok().unwrap();
    assert_eq!((p.station.as_str(), p.code.as_str(), p.date.as_str()), ("EU", "FR", "20240229"));
    assert!(identify("AVT-US-20260824全站点通用补货计划.xlsx", "avt-us").is_ok());
    assert!(identify("AVT-US-20260824全站点通用补货计划.xlsx", "anything").is_ok());
    assert_eq!(
        refusal("AVT-US-20260824全站点通用补货计划.xls", ""),
        "补货计划必须为 .xlsx；源数据支持 CSV、TXT、TSV、XLS、XLSX"
    );
    for name in [
        "AVT-US-2026082全站点通用补货计划.xlsx",
        "AVT-USA-20260824全站点通用补货计划.xlsx",
        "AVT-US-20260824\n全站点通用补货计划.xlsx",
        "AVT-US-20260824全站点通用补货计划 .xlsx",
        "AV-US-20260824全站点通用补货计划.xlsx",
        "x.xlsx",
    ] {
        assert_eq!(refusal(name, ""), "文件名应为 AVT-站点-YYYYMMDD…全站点通用补货计划.xlsx");
    }
    for date in ["20230229", "20261301", "20260431", "20260800", "２０２６０８２４"] {
        let name = format!("AVT-US-{date}全站点通用补货计划.xlsx");
        assert!(refusal(&name, "").starts_with("补货表日期无效: "));
    }
    assert_eq!(refusal("AVT-XX-20260824全站点通用补货计划.xlsx", ""), "不支持此站点");
    assert_eq!(refusal("AVT-U\u{17f}-20260824全站点通用补货计划.xlsx", ""), "不支持此站点");
    assert_eq!(
        refusal("AVT-US-20260824全站点通用补货计划.xlsx", "avt-de"),
        "文件名站点 US 与目录 AVT-DE 不一致"
    );
    assert_eq!(check_station("DE", "FR").ok().unwrap(), "EU");
}

fn table(rows: &[&[&str]]) -> Vec<Vec<Value>> {
    rows.iter()
        .map(|r| r.iter().map(|s| if s.is_empty() { Value::Blank } else { text(s) }).collect())
        .collect()
}

#[test]
fn loading_converts_numeric_columns_only() {
    let row: Vec<&str> = vec!["1", "2", "3", "4", "5", "6", "7", "8", "9", "10", "11"];
    let blank: Vec<&str> = vec![""; 11];
    let rows = table(&[&row, &row, &blank, &[]]);
    let l = load_table("US", "p", "FBA库存", false, rows.clone(), "UTF-8".to_string()).ok().unwrap();
    assert_eq!((l.rows.len(), l.columns, l.converted), (2, 11, 0));
    assert_eq!(l.rows[0][8], text("9"));
    assert_eq!(l.rows[1][5], text("6"));
    assert_eq!(l.rows[1][6], number("7"));
    let l = load_table("CA", "p", "FBA库存", false, rows.clone(), "UTF-8".to_string()).ok().unwrap();
    assert_eq!(l.rows[1][5], number("6"));
    let l = load_table("CA", "p", "限制发货数量", false, rows, "UTF-8".to_string()).ok().unwrap();
    assert_eq!(l.rows[1][8], text("9"));
    assert_eq!(l.rows[1][9], number("10"));
}

#[test]
fn loading_counts_the_conversions_of_sales() {
    let row: Vec<&str> = vec!["1.185"; 15];
    let rows = table(&[&row, &row, &row]);
    let l = load_table("UK", "p", "7天销", true, rows, "UTF-8".to_string()).ok().unwrap();
    assert_eq!(l.converted, 12);
    assert_eq!(l.rows[2][3], number("1185"));
    assert_eq!(l.rows[2][4], text("1.185"));
}

#[test]
fn reports_without_rows_or_of_another_width_are_refused() {
    let e = load_table("UK", "p", "7天销", true, table(&[&["a"], &[""]]), String::new());
    assert_eq!(e.err().unwrap().message(), "源文件没有数据行：p");
    let e = load_table("UK", "p", "7天销", true, table(&[&["a"], &["b"]]), String::new());
    assert_eq!(
        e.err().unwrap().message(),
        "p 应为 15 列，实际 1 列。固定列转换已停止，请使用与模板列数一致的报告。"
    );
    let e = load("UK", "p", "7天销", "UK", true, &Content::NoSheet);
    assert_eq!(e.err().unwrap().message(), "读取 p 失败: 源文件没有工作表");
}
