//! The workbook part: which part each worksheet is in, and asking for a recalculation.

use crate::edit::{
    edited, edits, edits_view, fits, head, single_edit_keeps_the_rest, tail, Edit, EditView,
};
use crate::escape::{attributes_text, attrs, names};
use crate::map::{
    ascending, keys_with, lookup, lookup_nothing, rank_bounds, values_with, what_is_put_is_found,
    TextMap,
};
use crate::text::{chars, is_at, part, same, stands_at, text, texts_of};
use crate::xml::{
    attribute, attribute_of, find_tag, first_tagged, first_tagged_is_tagged, nodes_view,
    parse_xml, placed, reachable, xml_nodes, NodeView, XmlNode,
};
use vstd::prelude::*;
use vstd::string::StringExecFns;

verus! {

/// Why the worksheets of a workbook cannot be told.
#[derive(Clone, Copy, Debug, PartialEq, Eq, Structural)]
pub enum MapError {
    /// A worksheet names no relation.
    NoRelation,
    /// The relation that a worksheet names is not there, or leads nowhere.
    BadRelation,
    /// A worksheet has no name.
    NoName,
}

impl MapError {
    /// The error in words.
    pub open spec fn words(self) -> Seq<char> {
        match self {
            MapError::NoRelation => "工作表缺少关系 ID"@,
            MapError::BadRelation => "工作表关系无效"@,
            MapError::NoName => "工作表无名称"@,
        }
    }

    /// The error in words.
    pub fn message(&self) -> (r: String)
        ensures
            r@ == self.words(),
    {
        match self {
            MapError::NoRelation => "工作表缺少关系 ID".to_string(),
            MapError::BadRelation => "工作表关系无效".to_string(),
            MapError::NoName => "工作表无名称".to_string(),
        }
    }
}

/// The place of the first node with the given identifier.
pub open spec fn first_with_id(nodes: Seq<NodeView>, id: Seq<char>) -> Option<int>
    decreases nodes.len(),
{
    if nodes.len() == 0 {
        None
    } else {
        match first_with_id(nodes.drop_last(), id) {
            Some(i) => Some(i),
            None => if attribute_of(nodes.last().attributes, None, "Id"@) == Some(id) {
                Some(nodes.len() - 1)
            } else {
                None
            },
        }
    }
}

/// `s` without the slashes that it starts with.
pub open spec fn without_slashes(s: Seq<char>) -> Seq<char>
    decreases s.len(),
{
    if s.len() > 0 && s[0] == '/' {
        without_slashes(s.drop_first())
    } else {
        s
    }
}

/// The name of the part that a relation leads to.
pub open spec fn part_path(target: Seq<char>) -> Seq<char> {
    if target.len() > 0 && target[0] == '/' {
        without_slashes(target)
    } else {
        "xl/"@ + target
    }
}

/// The name of a worksheet and of the part it is in.
pub open spec fn sheet_entry(sheet: NodeView, relations: Seq<NodeView>) -> Result<
    (Seq<char>, Seq<char>),
    MapError,
> {
    match attribute_of(
        sheet.attributes,
        Some("http://schemas.openxmlformats.org/officeDocument/2006/relationships"@),
        "id"@,
    ) {
        None => Err(MapError::NoRelation),
        Some(id) => match first_with_id(relations, id) {
            None => Err(MapError::BadRelation),
            Some(i) => match attribute_of(relations[i].attributes, None, "Target"@) {
                None => Err(MapError::BadRelation),
                Some(target) => match attribute_of(sheet.attributes, None, "name"@) {
                    None => Err(MapError::NoName),
                    Some(name) => Ok((name, part_path(target))),
                },
            },
        },
    }
}

/// The worksheets among the first `n` nodes of a workbook, each with the part it is in: the names
/// in order, and the parts in the order of the names. Of worksheets with the same name the last
/// one counts.
pub open spec fn sheet_map(
    nodes: Seq<NodeView>,
    relations: Seq<NodeView>,
    n: nat,
) -> Result<(Seq<Seq<char>>, Seq<Seq<char>>), MapError>
    decreases n,
{
    if n == 0 {
        Ok((Seq::empty(), Seq::empty()))
    } else {
        match sheet_map(nodes, relations, (n - 1) as nat) {
            Err(e) => Err(e),
            Ok((keys, values)) => if nodes[n - 1].tag == "sheet"@ {
                match sheet_entry(nodes[n - 1], relations) {
                    Err(e) => Err(e),
                    Ok((name, path)) => Ok(
                        (keys_with(keys, name), values_with(keys, values, name, path)),
                    ),
                }
            } else {
                Ok((keys, values))
            },
        }
    }
}

/// The place of the first node with the given identifier.
fn find_id(nodes: &Vec<XmlNode>, id: &str) -> (r: Option<usize>)
    ensures
        first_with_id(nodes_view(nodes@), id@) == (match r {
            Some(i) => Some(i as int),
            None => None,
        }),
        r matches Some(i) ==> i < nodes.len(),
{
    let ghost v = nodes_view(nodes@);
    let mut i: usize = 0;
    while i < nodes.len()
        invariant
            v == nodes_view(nodes@),
            i <= nodes.len(),
            first_with_id(v.take(i as int), id@) is None,
        decreases nodes.len() - i,
    {
        assert(v.take(i + 1).drop_last() =~= v.take(i as int));
        assert(v[i as int] == nodes@[i as int]@);
        match attribute(&nodes[i], None, "Id") {
            Some(s) => {
                if same(s.as_str(), id) {
                    proof {
                        first_with_id_stays(v, id@, i + 1);
                    }
                    return Some(i);
                }
            },
            None => {},
        }
        i = i + 1;
    }
    assert(v.take(v.len() as int) =~= v);
    None
}

proof fn first_with_id_stays(nodes: Seq<NodeView>, id: Seq<char>, n: int)
    requires
        0 <= n <= nodes.len(),
        first_with_id(nodes.take(n), id) is Some,
    ensures
        first_with_id(nodes, id) == first_with_id(nodes.take(n), id),
    decreases nodes.len() - n,
{
    if n < nodes.len() {
        assert(nodes.take(n + 1).drop_last() =~= nodes.take(n));
        first_with_id_stays(nodes, id, n + 1);
    } else {
        assert(nodes.take(n) =~= nodes);
    }
}

/// The name of the part that a relation leads to.
fn path_of(target: &str) -> (r: String)
    ensures
        r@ == part_path(target@),
{
    let x: Vec<char> = chars(target);
    if x.len() > 0 && x[0] == '/' {
        let mut i: usize = 0;
        assert(x@.subrange(0, x@.len() as int) =~= x@);
        while i < x.len() && x[i] == '/'
            invariant
                x@ == target@,
                i <= x.len(),
                without_slashes(target@) == without_slashes(
                    x@.subrange(i as int, x@.len() as int),
                ),
            decreases x.len() - i,
        {
            assert(x@.subrange(i as int, x@.len() as int).drop_first() =~= x@.subrange(
                i + 1,
                x@.len() as int,
            ));
            i = i + 1;
        }
        let rest: Vec<char> = part(x.as_slice(), i, x.len());
        text(&rest)
    } else {
        let mut r: String = "xl/".to_string();
        r.append(target);
        r
    }
}

/// The name of a worksheet and of the part it is in.
fn entry_of(sheet: &XmlNode, relations: &Vec<XmlNode>) -> (r: Result<(String, String), MapError>)
    ensures
        sheet_entry(sheet@, nodes_view(relations@)) == (match r {
            Ok((name, path)) => Ok::<(Seq<char>, Seq<char>), MapError>((name@, path@)),
            Err(e) => Err(e),
        }),
{
    let id: &String = match attribute(
        sheet,
        Some("http://schemas.openxmlformats.org/officeDocument/2006/relationships"),
        "id",
    ) {
        Some(s) => s,
        None => {
            return Err(MapError::NoRelation);
        },
    };
    let i: usize = match find_id(relations, id.as_str()) {
        Some(i) => i,
        None => {
            return Err(MapError::BadRelation);
        },
    };
    assert(nodes_view(relations@)[i as int] == relations@[i as int]@);
    let target: &String = match attribute(&relations[i], None, "Target") {
        Some(s) => s,
        None => {
            return Err(MapError::BadRelation);
        },
    };
    let name: &String = match attribute(sheet, None, "name") {
        Some(s) => s,
        None => {
            return Err(MapError::NoName);
        },
    };
    Ok((name.clone(), path_of(target.as_str())))
}

proof fn map_errors_stay(nodes: Seq<NodeView>, relations: Seq<NodeView>, m: nat, n: nat)
    requires
        m <= n,
        sheet_map(nodes, relations, m) is Err,
    ensures
        sheet_map(nodes, relations, n) == sheet_map(nodes, relations, m),
    decreases n,
{
    if m < n {
        map_errors_stay(nodes, relations, m, (n - 1) as nat);
    }
}

/// The part that each worksheet of a workbook is in, from the nodes of the workbook part and of
/// its relations.
pub fn mappings(nodes: &Vec<XmlNode>, relations: &Vec<XmlNode>) -> (r: Result<
    TextMap<String>,
    MapError,
>)
    ensures
        match r {
            Ok(map) => map.wf() && sheet_map(
                nodes_view(nodes@),
                nodes_view(relations@),
                nodes@.len(),
            ) == Ok::<(Seq<Seq<char>>, Seq<Seq<char>>), MapError>(
                (map.keys(), texts_of(map.values())),
            ),
            Err(e) => sheet_map(nodes_view(nodes@), nodes_view(relations@), nodes@.len()) == Err::<
                (Seq<Seq<char>>, Seq<Seq<char>>),
                MapError,
            >(e),
        },
{
    let ghost v = nodes_view(nodes@);
    let ghost rel = nodes_view(relations@);
    let mut map: TextMap<String> = TextMap::new();
    assert(texts_of(map.values()) =~= Seq::<Seq<char>>::empty());
    let mut i: usize = 0;
    while i < nodes.len()
        invariant
            v == nodes_view(nodes@),
            rel == nodes_view(relations@),
            i <= nodes.len(),
            map.wf(),
            sheet_map(v, rel, i as nat) == Ok::<(Seq<Seq<char>>, Seq<Seq<char>>), MapError>(
                (map.keys(), texts_of(map.values())),
            ),
        decreases nodes.len() - i,
    {
        assert(v[i as int] == nodes@[i as int]@);
        if same(nodes[i].tag.as_str(), "sheet") {
            match entry_of(&nodes[i], relations) {
                Ok((name, path)) => {
                    let ghost keys = map.keys();
                    let ghost values = map.values();
                    map.insert(name, path);
                    proof {
                        rank_bounds(keys, name@);
                    }
                    assert(texts_of(map.values()) =~= values_with(
                        keys,
                        texts_of(values),
                        name@,
                        path@,
                    ));
                },
                Err(e) => {
                    proof {
                        map_errors_stay(v, rel, (i + 1) as nat, nodes@.len());
                    }
                    return Err(e);
                },
            }
        }
        i = i + 1;
    }
    Ok(map)
}

/// Why a recalculation cannot be asked for.
pub enum RecalcError {
    /// The workbook part is no XML, with the message of the parser.
    Xml(String),
    /// The workbook part has no closing tag.
    NotClosed,
}

/// Why a recalculation cannot be asked for, in contracts.
pub enum RecalcErrorView {
    Xml(Seq<char>),
    NotClosed,
}

impl View for RecalcError {
    type V = RecalcErrorView;

    open spec fn view(&self) -> RecalcErrorView {
        match self {
            RecalcError::Xml(m) => RecalcErrorView::Xml(m@),
            RecalcError::NotClosed => RecalcErrorView::NotClosed,
        }
    }
}

impl RecalcErrorView {
    /// The error in words.
    pub open spec fn words(self) -> Seq<char> {
        match self {
            RecalcErrorView::Xml(m) => m,
            RecalcErrorView::NotClosed => "workbook closing tag missing"@,
        }
    }
}

impl RecalcError {
    /// The error in words.
    pub fn message(&self) -> (r: String)
        ensures
            r@ == self@.words(),
    {
        match self {
            RecalcError::Xml(m) => m.clone(),
            RecalcError::NotClosed => "workbook closing tag missing".to_string(),
        }
    }
}

/// The last place up to `i` where `p` stands in `s`.
pub open spec fn last_from(s: Seq<char>, p: Seq<char>, i: int) -> Option<int>
    decreases i + 1,
{
    if i < 0 {
        None
    } else if stands_at(s, p, i) {
        Some(i)
    } else {
        last_from(s, p, i - 1)
    }
}

/// The settings that ask for a full recalculation.
pub open spec fn calc_text(attributes: Seq<char>) -> Seq<char> {
    "<calcPr"@ + attributes
        + " calcId=\"0\" calcMode=\"auto\" fullCalcOnLoad=\"1\" forceFullCalc=\"1\"/>"@
}

/// The replacement of the calculation settings, which keeps the others of them.
pub open spec fn calc_edit(node: NodeView) -> EditView {
    EditView {
        start: node.start,
        end: node.end,
        text: calc_text(
            attributes_text(
                node.attributes,
                seq!["calcId"@, "calcMode"@, "fullCalcOnLoad"@, "forceFullCalc"@],
            ),
        ),
    }
}

/// The workbook part `xml`, with the given nodes, once it asks for a recalculation: in its
/// calculation settings, or in new ones before its closing tag.
pub open spec fn recalculating(xml: Seq<char>, nodes: Seq<NodeView>) -> Result<
    Seq<char>,
    RecalcErrorView,
> {
    match first_tagged(nodes, "calcPr"@) {
        Some(i) => Ok(edited(xml, seq![calc_edit(nodes[i])])),
        None => match last_from(xml, "</workbook>"@, xml.len() as int) {
            Some(i) => Ok(xml.take(i) + calc_text(Seq::empty()) + xml.skip(i)),
            None => Err(RecalcErrorView::NotClosed),
        },
    }
}

/// The last place where `p` stands in `s`.
fn find_last(s: &[char], p: &[char]) -> (r: Option<usize>)
    ensures
        last_from(s@, p@, s@.len() as int) == (match r {
            Some(i) => Some(i as int),
            None => None,
        }),
        r matches Some(i) ==> i <= s.len(),
{
    let mut i: usize = s.len();
    loop
        invariant
            i <= s.len(),
            last_from(s@, p@, s@.len() as int) == last_from(s@, p@, i as int),
        decreases i,
    {
        if is_at(s, p, i) {
            return Some(i);
        }
        if i == 0 {
            assert(last_from(s@, p@, -1) is None);
            return None;
        }
        i = i - 1;
    }
}

/// The workbook part `xml`, with the given nodes, once it asks for a recalculation.
pub fn recalc_nodes(xml: &str, nodes: &Vec<XmlNode>) -> (r: Result<String, RecalcError>)
    requires
        first_tagged(nodes_view(nodes@), "calcPr"@) matches Some(i) ==> fits(
            xml@,
            calc_edit(nodes_view(nodes@)[i]),
        ),
    ensures
        recalculating(xml@, nodes_view(nodes@)) == (match r {
            Ok(s) => Ok::<Seq<char>, RecalcErrorView>(s@),
            Err(e) => Err(e@),
        }),
{
    match find_tag(nodes, "calcPr") {
        Some(i) => {
            let skip: Vec<&str> = vec!["calcId", "calcMode", "fullCalcOnLoad", "forceFullCalc"];
            let kept: String = attrs(&nodes[i].attributes, skip.as_slice());
            assert(names(skip@) =~= seq![
                "calcId"@,
                "calcMode"@,
                "fullCalcOnLoad"@,
                "forceFullCalc"@,
            ]);
            let mut new_text: String = "<calcPr".to_string();
            new_text.append(kept.as_str());
            new_text.append(
                " calcId=\"0\" calcMode=\"auto\" fullCalcOnLoad=\"1\" forceFullCalc=\"1\"/>",
            );
            assert(nodes_view(nodes@)[i as int] == nodes@[i as int]@);
            let mut parts: Vec<Edit> = Vec::new();
            parts.push(Edit { start: nodes[i].start, end: nodes[i].end, text: new_text });
            proof {
                assert(edits_view(parts@) =~= seq![calc_edit(nodes_view(nodes@)[i as int])]);
                single_edit_keeps_the_rest(xml@, calc_edit(nodes_view(nodes@)[i as int]));
            }
            Ok(edits(xml, parts))
        },
        None => {
            let x: Vec<char> = chars(xml);
            let p: Vec<char> = chars("</workbook>");
            match find_last(x.as_slice(), p.as_slice()) {
                None => Err(RecalcError::NotClosed),
                Some(i) => {
                    let front: Vec<char> = part(x.as_slice(), 0, i);
                    let back: Vec<char> = part(x.as_slice(), i, x.len());
                    let mut r: String = text(&front);
                    r.append("<calcPr");
                    r.append(
                        " calcId=\"0\" calcMode=\"auto\" fullCalcOnLoad=\"1\" forceFullCalc=\"1\"/>",
                    );
                    let end: String = text(&back);
                    r.append(end.as_str());
                    assert(r@ =~= xml@.take(i as int) + calc_text(Seq::empty()) + xml@.skip(
                        i as int,
                    ));
                    Ok(r)
                },
            }
        },
    }
}

/// The workbook part `xml` once it asks for a recalculation, or why it cannot be made.
pub open spec fn recalculated(xml: Seq<char>) -> Result<Seq<char>, RecalcErrorView> {
    match xml_nodes(xml) {
        Err(m) => Err(RecalcErrorView::Xml(m)),
        Ok(nodes) => recalculating(xml, nodes),
    }
}

/// The workbook part `xml` once it asks for a recalculation.
pub fn recalc(xml: &str) -> (r: Result<String, RecalcError>)
    requires
        reachable(xml@),
    ensures
        recalculated(xml@) == (match r {
            Ok(s) => Ok::<Seq<char>, RecalcErrorView>(s@),
            Err(e) => Err(e@),
        }),
{
    match parse_xml(xml) {
        Err(m) => Err(RecalcError::Xml(m)),
        Ok(nodes) => {
            proof {
                reveal_strlit("calcPr");
                match first_tagged(nodes_view(nodes@), "calcPr"@) {
                    Some(i) => {
                        first_tagged_is_tagged(nodes_view(nodes@), "calcPr"@);
                        assert(nodes_view(nodes@)[i] == nodes@[i]@);
                        assert(placed(xml@, nodes@[i]@));
                    },
                    None => {},
                }
            }
            recalc_nodes(xml, &nodes)
        },
    }
}

/// Asking for a recalculation keeps everything outside of the calculation settings.
pub proof fn recalculation_keeps_the_rest(xml: Seq<char>, nodes: Seq<NodeView>)
    requires
        first_tagged(nodes, "calcPr"@) matches Some(i) ==> placed(xml, nodes[i]),
        recalculating(xml, nodes) is Ok,
    ensures
        ({
            let new = recalculating(xml, nodes)->Ok_0;
            match first_tagged(nodes, "calcPr"@) {
                Some(i) => new == head(xml, nodes[i].start) + calc_edit(nodes[i]).text + tail(
                    xml,
                    nodes[i].end,
                ),
                None => exists|i: int|
                    0 <= i <= xml.len() && new == #[trigger] xml.take(i) + calc_text(Seq::empty())
                        + xml.skip(i),
            }
        }),
{
    match first_tagged(nodes, "calcPr"@) {
        Some(i) => {
            single_edit_keeps_the_rest(xml, calc_edit(nodes[i]));
        },
        None => {
            last_from_bounds(xml, "</workbook>"@, xml.len() as int);
            let i = last_from(xml, "</workbook>"@, xml.len() as int)->Some_0;
            assert(xml.take(i) + calc_text(Seq::empty()) + xml.skip(i) == recalculating(
                xml,
                nodes,
            )->Ok_0);
        },
    }
}

proof fn last_from_bounds(s: Seq<char>, p: Seq<char>, i: int)
    ensures
        last_from(s, p, i) matches Some(k) ==> 0 <= k <= i && stands_at(s, p, k),
    decreases i + 1,
{
    if i >= 0 && !stands_at(s, p, i) {
        last_from_bounds(s, p, i - 1);
    }
}

/// A relation leads to a part under `xl/`, or, where it starts with a slash, to the part that is named
/// behind its slashes.
pub proof fn relations_lead_to_parts(target: Seq<char>, n: int)
    requires
        0 <= n <= target.len(),
        forall|i: int| 0 <= i < n ==> target[i] == '/',
        n < target.len() ==> target[n] != '/',
    ensures
        n == 0 ==> part_path(target) == seq!['x', 'l', '/'] + target,
        n > 0 ==> part_path(target) == target.subrange(n, target.len() as int),
{
    reveal_strlit("xl/");
    assert("xl/"@ =~= seq!['x', 'l', '/']);
    slashes_are_left_out(target, n);
}

proof fn slashes_are_left_out(s: Seq<char>, n: int)
    requires
        0 <= n <= s.len(),
        forall|i: int| 0 <= i < n ==> s[i] == '/',
        n < s.len() ==> s[n] != '/',
    ensures
        without_slashes(s) == s.subrange(n, s.len() as int),
    decreases n,
{
    if n > 0 {
        let rest = s.drop_first();
        assert forall|i: int| 0 <= i < n - 1 implies rest[i] == '/' by {
            assert(s[i + 1] == '/');
        }
        slashes_are_left_out(rest, n - 1);
        assert(rest.subrange(n - 1, rest.len() as int) =~= s.subrange(n, s.len() as int));
    } else {
        assert(s.subrange(0, s.len() as int) =~= s);
    }
}

/// The relation that is found is the first one with the identifier.
pub proof fn the_first_relation_is_found(nodes: Seq<NodeView>, id: Seq<char>)
    ensures
        match first_with_id(nodes, id) {
            Some(i) => 0 <= i < nodes.len() && attribute_of(nodes[i].attributes, None, "Id"@) == Some(
                id,
            ) && forall|j: int|
                0 <= j < i ==> attribute_of((#[trigger] nodes[j]).attributes, None, "Id"@) != Some(
                    id,
                ),
            None => forall|j: int|
                0 <= j < nodes.len() ==> attribute_of((#[trigger] nodes[j]).attributes, None, "Id"@)
                    != Some(id),
        },
    decreases nodes.len(),
{
    if nodes.len() > 0 {
        let rest = nodes.drop_last();
        the_first_relation_is_found(rest, id);
        assert forall|j: int| 0 <= j < rest.len() implies rest[j] == #[trigger] nodes[j] by {
        }
        if first_with_id(rest, id) is None {
            assert(nodes[nodes.len() - 1] == nodes.last());
        }
    }
}

/// Whether node `i` is a worksheet with the given name.
pub open spec fn names_sheet(nodes: Seq<NodeView>, i: int, name: Seq<char>) -> bool {
    &&& 0 <= i < nodes.len()
    &&& nodes[i].tag == "sheet"@
    &&& attribute_of(nodes[i].attributes, None, "name"@) == Some(name)
}

/// The part of a worksheet is the one that its relation leads to: of the last worksheet with its name,
/// the first relation with the identifier that the worksheet has in the namespace of relations. A name
/// has no part only where no worksheet has it.
pub proof fn worksheets_have_their_parts(
    nodes: Seq<NodeView>,
    relations: Seq<NodeView>,
    name: Seq<char>,
)
    requires
        sheet_map(nodes, relations, nodes.len()) is Ok,
    ensures
        ({
            let (keys, values) = sheet_map(nodes, relations, nodes.len())->Ok_0;
            &&& ascending(keys)
            &&& keys.len() == values.len()
            &&& match lookup(keys, values, name) {
                None => forall|i: int| !#[trigger] names_sheet(nodes, i, name),
                Some(path) => exists|i: int| #[trigger]
                    names_sheet(nodes, i, name) && (forall|j: int|
                        i < j ==> !#[trigger] names_sheet(nodes, j, name)) && leads_to(
                        nodes[i],
                        relations,
                        path,
                    ),
            }
        }),
{
    parts_up_to(nodes, relations, name, nodes.len());
    let (keys, values) = sheet_map(nodes, relations, nodes.len())->Ok_0;
    if let Some(path) = lookup(keys, values, name) {
        let i = choose|i: int|
            i < nodes.len() && #[trigger] names_sheet(nodes, i, name) && (forall|j: int|
                i < j < nodes.len() ==> !#[trigger] names_sheet(nodes, j, name)) && leads_to(
                nodes[i],
                relations,
                path,
            );
        assert(names_sheet(nodes, i, name));
    }
}

/// Whether the relation of a worksheet leads to a part.
pub open spec fn leads_to(sheet: NodeView, relations: Seq<NodeView>, path: Seq<char>) -> bool {
    attribute_of(
        sheet.attributes,
        Some("http://schemas.openxmlformats.org/officeDocument/2006/relationships"@),
        "id"@,
    ) matches Some(id) && first_with_id(relations, id) matches Some(k) && attribute_of(
        relations[k].attributes,
        None,
        "Target"@,
    ) matches Some(target) && path == part_path(target)
}

proof fn parts_up_to(
    nodes: Seq<NodeView>,
    relations: Seq<NodeView>,
    name: Seq<char>,
    n: nat,
)
    requires
        n <= nodes.len(),
        sheet_map(nodes, relations, n) is Ok,
    ensures
        ({
            let (keys, values) = sheet_map(nodes, relations, n)->Ok_0;
            &&& ascending(keys)
            &&& keys.len() == values.len()
            &&& match lookup(keys, values, name) {
                None => forall|i: int| i < n ==> !#[trigger] names_sheet(nodes, i, name),
                Some(path) => exists|i: int|
                    i < n && #[trigger] names_sheet(nodes, i, name) && (forall|j: int|
                        i < j < n ==> !#[trigger] names_sheet(nodes, j, name)) && leads_to(
                        nodes[i],
                        relations,
                        path,
                    ),
            }
        }),
    decreases n,
{
    if n == 0 {
        lookup_nothing(Seq::<Seq<char>>::empty(), Seq::<Seq<char>>::empty(), name);
    } else {
        let m = (n - 1) as nat;
        parts_up_to(nodes, relations, name, m);
        let (keys, values) = sheet_map(nodes, relations, m)->Ok_0;
        if nodes[n - 1].tag == "sheet"@ {
            let (own, path) = sheet_entry(nodes[n - 1], relations)->Ok_0;
            what_is_put_is_found(keys, values, own, path, name);
            if own == name {
                assert(names_sheet(nodes, n - 1, name));
                assert(leads_to(nodes[n - 1], relations, path));
            } else {
                assert(!names_sheet(nodes, n - 1, name));
            }
        } else {
            assert(!names_sheet(nodes, n - 1, name));
        }
        if !names_sheet(nodes, n - 1, name) {
            if let Some(p) = lookup(keys, values, name) {
                let i = choose|i: int|
                    i < m && #[trigger] names_sheet(nodes, i, name) && (forall|j: int|
                        i < j < m ==> !#[trigger] names_sheet(nodes, j, name)) && leads_to(
                        nodes[i],
                        relations,
                        p,
                    );
                assert(names_sheet(nodes, i, name));
                assert forall|j: int| i < j < n implies !#[trigger] names_sheet(nodes, j, name) by {
                }
            }
        }
    }
}

/// A workbook that asks for a recalculation has calculation settings that make it: the four that do are
/// set, in place of the ones that there were, and the others stay. Settings that were not there come
/// right before the last closing tag of the workbook; without one there is no place for them.
pub proof fn recalculation_is_asked_for(xml: Seq<char>, nodes: Seq<NodeView>)
    requires
        first_tagged(nodes, "calcPr"@) matches Some(i) ==> placed(xml, nodes[i]),
    ensures
        ({
            let set = " calcId=\"0\" calcMode=\"auto\" fullCalcOnLoad=\"1\" forceFullCalc=\"1\"/>"@;
            let own = seq!["calcId"@, "calcMode"@, "fullCalcOnLoad"@, "forceFullCalc"@];
            match first_tagged(nodes, "calcPr"@) {
                Some(i) => recalculating(xml, nodes) == Ok::<Seq<char>, RecalcErrorView>(
                    head(xml, nodes[i].start) + ("<calcPr"@ + attributes_text(
                        nodes[i].attributes,
                        own,
                    ) + set) + tail(xml, nodes[i].end),
                ),
                None => match recalculating(xml, nodes) {
                    Ok(new) => exists|k: int| #[trigger]
                        stands_at(xml, "</workbook>"@, k) && (forall|j: int|
                            k < j ==> !#[trigger] stands_at(xml, "</workbook>"@, j)) && new
                            == xml.subrange(0, k) + ("<calcPr"@ + set) + xml.subrange(
                            k,
                            xml.len() as int,
                        ),
                    Err(e) => e == RecalcErrorView::NotClosed && forall|k: int|
                        !#[trigger] stands_at(xml, "</workbook>"@, k),
                },
            }
        }),
{
    match first_tagged(nodes, "calcPr"@) {
        Some(i) => {
            single_edit_keeps_the_rest(xml, calc_edit(nodes[i]));
        },
        None => {
            last_from_is_last(xml, "</workbook>"@, xml.len() as int);
            if let Some(k) = last_from(xml, "</workbook>"@, xml.len() as int) {
                assert(xml.take(k) =~= xml.subrange(0, k));
                assert(xml.skip(k) =~= xml.subrange(k, xml.len() as int));
                assert(calc_text(Seq::empty()) =~= "<calcPr"@
                    + " calcId=\"0\" calcMode=\"auto\" fullCalcOnLoad=\"1\" forceFullCalc=\"1\"/>"@);
                assert(stands_at(xml, "</workbook>"@, k));
            }
        },
    }
}

proof fn last_from_is_last(s: Seq<char>, p: Seq<char>, i: int)
    ensures
        match last_from(s, p, i) {
            Some(k) => 0 <= k <= i && stands_at(s, p, k) && forall|j: int|
                k < j <= i ==> !#[trigger] stands_at(s, p, j),
            None => forall|j: int| j <= i ==> !#[trigger] stands_at(s, p, j),
        },
    decreases i + 1,
{
    if i >= 0 && !stands_at(s, p, i) {
        last_from_is_last(s, p, i - 1);
    }
}

/// Why the worksheets of a workbook cannot be told: the first worksheet that names no relation, whose
/// relation is not there or leads nowhere, or that has no name.
pub proof fn worksheets_without_parts_are_told(nodes: Seq<NodeView>, relations: Seq<NodeView>)
    ensures
        match sheet_map(nodes, relations, nodes.len()) {
            Ok(_) => forall|i: int|
                0 <= i < nodes.len() && (#[trigger] nodes[i]).tag == "sheet"@ ==> sheet_entry(
                    nodes[i],
                    relations,
                ) is Ok,
            Err(e) => exists|i: int|
                0 <= i < nodes.len() && (#[trigger] nodes[i]).tag == "sheet"@ && sheet_entry(
                    nodes[i],
                    relations,
                ) == Err::<(Seq<char>, Seq<char>), MapError>(e) && forall|j: int|
                    0 <= j < i && (#[trigger] nodes[j]).tag == "sheet"@ ==> sheet_entry(
                        nodes[j],
                        relations,
                    ) is Ok,
        },
{
    map_errors_up_to(nodes, relations, nodes.len());
}

proof fn map_errors_up_to(nodes: Seq<NodeView>, relations: Seq<NodeView>, n: nat)
    requires
        n <= nodes.len(),
    ensures
        match sheet_map(nodes, relations, n) {
            Ok(_) => forall|i: int|
                0 <= i < n && (#[trigger] nodes[i]).tag == "sheet"@ ==> sheet_entry(
                    nodes[i],
                    relations,
                ) is Ok,
            Err(e) => exists|i: int|
                0 <= i < n && (#[trigger] nodes[i]).tag == "sheet"@ && sheet_entry(
                    nodes[i],
                    relations,
                ) == Err::<(Seq<char>, Seq<char>), MapError>(e) && forall|j: int|
                    0 <= j < i && (#[trigger] nodes[j]).tag == "sheet"@ ==> sheet_entry(
                        nodes[j],
                        relations,
                    ) is Ok,
        },
    decreases n,
{
    if n > 0 {
        map_errors_up_to(nodes, relations, (n - 1) as nat);
        if sheet_map(nodes, relations, n) is Err && sheet_map(nodes, relations, (n - 1) as nat) is Ok {
            assert(nodes[n - 1].tag == "sheet"@);
        }
    }
}

/// What a worksheet lacks where it has no part: the identifier of a relation, the relation or its
/// target, or a name, looked for in this order.
pub proof fn what_worksheets_lack(sheet: NodeView, relations: Seq<NodeView>)
    ensures
        ({
            let id = attribute_of(
                sheet.attributes,
                Some("http://schemas.openxmlformats.org/officeDocument/2006/relationships"@),
                "id"@,
            );
            let name = attribute_of(sheet.attributes, None, "name"@);
            let entry = sheet_entry(sheet, relations);
            let relation = first_with_id(relations, id->Some_0);
            let target = attribute_of(relations[relation->Some_0].attributes, None, "Target"@);
            &&& id is None ==> entry == Err::<(Seq<char>, Seq<char>), MapError>(MapError::NoRelation)
            &&& id is Some && (relation is None || target is None) ==> entry == Err::<
                (Seq<char>, Seq<char>),
                MapError,
            >(MapError::BadRelation)
            &&& id is Some && relation is Some && target is Some && name is None ==> entry == Err::<
                (Seq<char>, Seq<char>),
                MapError,
            >(MapError::NoName)
            &&& id is Some && relation is Some && target is Some && name is Some ==> entry == Ok::<
                (Seq<char>, Seq<char>),
                MapError,
            >((name->Some_0, part_path(target->Some_0)))
        }),
{
}

/// What is said of worksheets that cannot be told: the words are fixed, and what they are
/// about stands in them as it is.
pub proof fn faults_of_relations_are_worded(error: MapError)
    ensures
        match error {
            MapError::NoRelation => error.words() == "工作表缺少关系 ID"@,
            MapError::BadRelation => error.words() == "工作表关系无效"@,
            MapError::NoName => error.words() == "工作表无名称"@,
        },
{
}

/// What is said of a workbook that cannot be marked: the words are fixed, and what they are
/// about stands in them as it is.
pub proof fn faults_of_marking_are_worded(error: RecalcErrorView)
    ensures
        match error {
            RecalcErrorView::Xml(m) => error.words() == m,
            RecalcErrorView::NotClosed => error.words() == "workbook closing tag missing"@,
        },
{
}

} // verus!
