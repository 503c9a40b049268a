use avt_replenishment::column::{col_name, col_number};
use avt_replenishment::edit::{edits, try_edits, Edit};
use avt_replenishment::escape::esc;
use avt_replenishment::number::Number;
use avt_replenishment::sheet::{
    can_patch, is_too_large, patch_sheet, sheet_edits, try_patch_sheet,
};
use avt_replenishment::value::Value;
use avt_replenishment::xml::{attribute, find_tag, XmlAttribute, XmlNode};

fn number(s: &str) -> Value {
    Value::Number(Number::Finite(s.to_string()))
}

fn text(s: &str) -> Value {
    Value::Text(s.to_string())
}

fn patched(xml: &str, rows: &[Vec<Value>]) -> String {
    assert!(can_patch(xml, rows));
    match patch_sheet(xml, rows) {
        Ok(s) => s,
        Err(e) => panic!("{}", e.message()),
    }
}

fn failure(xml: &str, rows: &[Vec<Value>]) -> String {
    assert!(can_patch(xml, rows));
    patch_sheet(xml, rows).err().unwrap().message()
}

#[test]
fn patch_preserves_layout_and_removes_tail() {
    let xml = r#"<worksheet xmlns="http://schemas.openxmlformats.org/spreadsheetml/2006/main"><dimension ref="A1:B3"/><cols><col min="1" max="1" width="20"/></cols><sheetData><row r="1"><c r="A1" t="str"><v>old</v></c></row><row r="2" ht="25"><c r="A2" s="2"><v>9</v></c></row><row r="3"><c r="A3" s="2"><v>999</v></c></row></sheetData><autoFilter ref="A1:B3"/></worksheet>"#;
    let patched = patched(
        xml,
        &[vec![text("SKU")], vec![number("1185"), text("=1+1 & <x>")]],
    );
    assert!(patched.contains("<cols><col min=\"1\" max=\"1\" width=\"20\"/></cols>"));
    assert!(patched.contains("ht=\"25\""));
    assert!(patched.contains("<v>1185</v>"));
    assert!(!patched.contains("999"));
    assert!(patched.contains("=1+1 &amp; &lt;x&gt;"));
}

#[test]
fn a_patched_sheet_is_written_exactly() {
    let xml = "<w><dimension ref=\"A1\"/><sheetData><row r=\"2\" spans=\"1:1\" ht=\"9\"><c r=\"B2\" s=\"4\"/></row><row r=\"3\"><c r=\"A3\" s=\"1\"><v>7</v></c></row></sheetData><tail/></w>";
    let rows = vec![vec![text("é"), number("-1.5")], vec![Value::Blank, text("\"q\"")]];
    assert_eq!(
        patched(xml, &rows),
        "<w><dimension ref=\"A1:B3\"/><sheetData><row r=\"1\"><c r=\"A1\" t=\"inlineStr\"><is><t xml:space=\"preserve\">é</t></is></c><c r=\"B1\" s=\"4\" t=\"n\"><v>-1.5</v></c></row><row r=\"2\" ht=\"9\"><c r=\"B2\" s=\"4\" t=\"inlineStr\"><is><t xml:space=\"preserve\">&quot;q&quot;</t></is></c></row><row r=\"3\"><c r=\"A3\" s=\"1\"/></row></sheetData><tail/></w>"
    );
}

#[test]
fn later_rows_and_cells_with_the_same_place_count() {
    let xml = "<w><sheetData><row r=\"1\" a=\"1\"><c r=\"A1\" s=\"1\"/><c r=\"A1\" s=\"2\"/></row><row r=\"1\" a=\"2\"/></sheetData></w>";
    assert_eq!(
        patched(xml, &[]),
        "<w><sheetData><row r=\"1\" a=\"2\"><c r=\"A1\" s=\"2\"/></row></sheetData></w>"
    );
}

#[test]
fn what_cannot_be_written_is_refused() {
    let xml = "<w><sheetData/></w>";
    assert_eq!(failure(xml, &[vec![Value::Number(Number::NotFinite)]]), "不能写入非有限数值");
    assert_eq!(failure(xml, &[vec![text("a\u{1}")]]), "源报告包含 XML 不允许的控制字符");
    assert_eq!(failure(xml, &[vec![text("\u{ffff}")]]), "源报告包含 XML 不允许的控制字符");
    assert_eq!(failure("<w/>", &[]), "工作表没有 sheetData");
    assert_eq!(failure("<w><sheetData><row/></sheetData></w>", &[]), "row missing r");
    assert_eq!(
        failure("<w><sheetData><row r=\"\"/></sheetData></w>", &[]),
        "cannot parse integer from empty string"
    );
    assert_eq!(
        failure("<w><sheetData><row r=\"-1\"/></sheetData></w>", &[]),
        "invalid digit found in string"
    );
    assert_eq!(
        failure("<w><sheetData><row r=\"99999999999999999999999x\"/></sheetData></w>", &[]),
        "number too large to fit in target type"
    );
    assert!(!failure("<w>", &[]).is_empty());
    let wide = vec![vec![Value::Blank; 16_385]];
    assert!(is_too_large(&wide));
    assert_eq!(failure(xml, &wide), "源数据超出 Excel 工作表行列限制");
    assert!(patched(xml, &[vec![text("a\tb\nc\r")]]).contains("a\tb\nc&#13;"));
}

#[test]
fn a_sheet_that_is_no_longer_xml_is_refused() {
    let xml = "<w><sheetData><row r=\"1\"><c r=\"A1\" s=\"&lt;\"/></row></sheetData></w>";
    assert!(failure(xml, &[]).starts_with("生成的工作表 XML 无效: "));
}

#[test]
fn a_dimension_within_the_sheet_data_may_not_be_replaceable() {
    let xml = "<w><sheetData><dimension ref=\"A1:ZZ99999\"/></sheetData></w>";
    let rows = [vec![text("x")]];
    assert!(!can_patch("<sheetData><dimension ref=\"A1:ZZ99999\"/></sheetData>", &rows));
    assert!(try_patch_sheet("<sheetData><dimension ref=\"A1:ZZ99999\"/></sheetData>", &rows).is_none());
    assert!(matches!(try_patch_sheet(xml, &rows), None | Some(Err(_))));
    assert!(matches!(try_patch_sheet("<w><sheetData/></w>", &rows), Some(Ok(_))));
}

fn node(parent: Option<usize>, tag: &str, attributes: &[(&str, &str)], start: usize, end: usize) -> XmlNode {
    XmlNode {
        parent,
        tag: tag.to_string(),
        attributes: attributes
            .iter()
            .map(|(name, value)| XmlAttribute {
                namespace: None,
                name: name.to_string(),
                value: value.to_string(),
            })
            .collect(),
        start,
        end,
    }
}

#[test]
fn sheet_edits_go_by_the_nodes() {
    let nodes = vec![
        node(None, "", &[], 0, 50),
        node(Some(0), "sheetData", &[], 3, 40),
        node(Some(1), "row", &[("r", "1")], 10, 30),
        node(Some(2), "c", &[("r", "C1"), ("s", "5")], 12, 20),
    ];
    let parts = sheet_edits(&nodes, &[]).ok().unwrap();
    assert_eq!(parts.len(), 1);
    assert_eq!((parts[0].start, parts[0].end), (3, 40));
    assert_eq!(
        parts[0].text,
        "<sheetData><row r=\"1\"><c r=\"C1\" s=\"5\"/></row></sheetData>"
    );
    assert_eq!(find_tag(&nodes, "row"), Some(2));
    assert_eq!(find_tag(&nodes, "dimension"), None);
    assert_eq!(attribute(&nodes[3], None, "s").unwrap(), "5");
    assert!(attribute(&nodes[3], Some("n"), "s").is_none());
}

#[test]
fn columns_have_letters() {
    for (n, s) in [(0, ""), (1, "A"), (26, "Z"), (27, "AA"), (702, "ZZ"), (703, "AAA"), (16_384, "XFD")] {
        assert_eq!(col_name(n), s);
        assert_eq!(col_number(&format!("{s}12")), n);
    }
    assert_eq!(col_number("ab7"), 28);
    assert_eq!(col_number("12"), 0);
    assert_eq!(col_number(&col_name(usize::MAX)), usize::MAX);
}

#[test]
fn text_is_escaped() {
    assert_eq!(esc("a&b<c>d\"e\r'"), "a&amp;b&lt;c&gt;d&quot;e&#13;'");
    assert_eq!(esc("&amp;"), "&amp;amp;");
    assert_eq!(esc(""), "");
}

fn edit(start: usize, end: usize, text: &str) -> Edit {
    Edit { start, end, text: text.to_string() }
}

#[test]
fn edits_are_made_from_the_back() {
    assert_eq!(edits("0123456789", vec![edit(1, 3, "a"), edit(5, 6, "bcd")]), "0a34bcd6789");
    assert_eq!(edits("0123456789", vec![edit(5, 6, "bcd"), edit(1, 3, "a")]), "0a34bcd6789");
    assert_eq!(edits("ab", vec![edit(1, 1, "x"), edit(1, 1, "y")]), "ayxb");
    assert_eq!(try_edits("é", vec![edit(1, 2, "")]), None);
    assert_eq!(try_edits("ab", vec![edit(1, 3, "")]), None);
    assert_eq!(try_edits("ab", vec![]), Some("ab".to_string()));
}

#[test]
fn filling_a_second_time_changes_nothing() {
    let sheets = [
        "<w><dimension ref=\"A1\"/><sheetData><row r=\"2\" spans=\"1:1\" ht=\"9&lt;\"><c r=\"B2\" s=\"4\"/><c r=\"A2\"/></row><row r=\"7\"><c r=\"E7\" s=\"1\"><v>7</v></c></row></sheetData><tail/></w>",
        "<w><sheetData/><dimension ref=\"A1\"/></w>",
        "<w><sheetData><row r=\"3\" a=\"1\"/><row r=\"3\" a=\"2\"><c r=\"C3\" s=\"9\"/></row></sheetData></w>",
    ];
    let tables = [
        vec![],
        vec![vec![text("é"), number("-1.5")], vec![Value::Blank, text("\"q\" & \r\n")]],
        vec![vec![], vec![text(""), text("x"), Value::Blank], vec![], vec![number("1")], vec![]],
    ];
    for xml in sheets {
        for rows in &tables {
            let once = patched(xml, rows);
            assert_eq!(patched(&once, rows), once);
        }
    }
}

#[test]
fn disjoint_edits_may_be_listed_in_any_order() {
    let all = [(0, 2, "A"), (2, 2, "B"), (4, 7, ""), (9, 10, "CDE")];
    let list = |order: [usize; 4]| order.iter().map(|&i| edit(all[i].0, all[i].1, all[i].2)).collect();
    for order in [[0, 1, 2, 3], [3, 2, 1, 0], [2, 0, 3, 1], [1, 3, 0, 2]] {
        assert_eq!(edits("0123456789", list(order)), "AB2378CDE");
    }
}
