//! XML documents as flat lists of nodes in document order.

use vstd::prelude::*;
use vstd::utf8::{encode_utf8, is_char_boundary};
use crate::nesting::{nesting, nesting_of};
use crate::text::same;

verus! {

/// An attribute of an element. Declarations of namespaces are not attributes.
pub struct XmlAttribute {
    pub namespace: Option<String>,
    pub name: String,
    pub value: String,
}

/// A node of a document. `parent` is the place of the node that holds it, `tag` the local name
/// of an element and empty for every other node. The node was written in the bytes of the
/// document from `start` up to `end`.
pub struct XmlNode {
    pub parent: Option<usize>,
    pub tag: String,
    pub attributes: Vec<XmlAttribute>,
    pub start: usize,
    pub end: usize,
}

/// What an attribute is in contracts.
pub struct AttributeView {
    pub namespace: Option<Seq<char>>,
    pub name: Seq<char>,
    pub value: Seq<char>,
}

/// What a node is in contracts.
pub struct NodeView {
    pub parent: Option<int>,
    pub tag: Seq<char>,
    pub attributes: Seq<AttributeView>,
    pub start: int,
    pub end: int,
}

/// The text that may stand in an optional string.
pub open spec fn optional(s: Option<String>) -> Option<Seq<char>> {
    match s {
        Some(t) => Some(t@),
        None => None,
    }
}

impl View for XmlAttribute {
    type V = AttributeView;

    open spec fn view(&self) -> AttributeView {
        AttributeView {
            namespace: optional(self.namespace),
            name: self.name@,
            value: self.value@,
        }
    }
}

impl View for XmlNode {
    type V = NodeView;

    open spec fn view(&self) -> NodeView {
        NodeView {
            parent: match self.parent {
                Some(p) => Some(p as int),
                None => None,
            },
            tag: self.tag@,
            attributes: Seq::new(self.attributes@.len(), |i: int| self.attributes@[i]@),
            start: self.start as int,
            end: self.end as int,
        }
    }
}

/// The nodes of a list, each by its view.
pub open spec fn nodes_view(nodes: Seq<XmlNode>) -> Seq<NodeView> {
    Seq::new(nodes.len(), |i: int| nodes[i]@)
}

/// The nodes that a text is parsed to, in document order, or the message of the error.
pub uninterp spec fn xml_nodes(text: Seq<char>) -> Result<Seq<NodeView>, Seq<char>>;

/// Whether the element `node` was written on whole characters of `text`, and on one at least.
pub open spec fn placed(text: Seq<char>, node: NodeView) -> bool {
    &&& node.start < node.end
    &&& is_char_boundary(encode_utf8(text), node.start)
    &&& is_char_boundary(encode_utf8(text), node.end)
}

/// Whether one of two nodes was written before the other.
pub open spec fn apart(a: NodeView, b: NodeView) -> bool {
    a.end <= b.start || b.end <= a.start
}

/// Whether the node `b` was written within `a`.
pub open spec fn within(a: NodeView, b: NodeView) -> bool {
    a.start < b.start && b.end <= a.end
}

/// How deep elements may be nested in a text that is parsed. The parser calls itself for every element
/// within another one, and this is as deep as the stack of a thread is sure to carry it.
pub const MAX_NESTING: usize = 256;

/// Whether a text can be parsed on the stack that there is.
pub open spec fn reachable(text: Seq<char>) -> bool {
    nesting(text) <= MAX_NESTING
}

/// `roxmltree::Document::parse`, with the nodes that `Document::descendants` walks: the result
/// is a function of the text. An element (a node with a tag) starts before it ends, and both on whole
/// characters of the text. Of two elements the later one starts behind the end of the earlier one or
/// lies within it. What the nodes of a given text are is not stated. The parser calls itself for every
/// element within another one, so that the stack bounds how deep they may be nested.
#[verifier::external_body]
pub(crate) fn parse_xml(text: &str) -> (r: Result<Vec<XmlNode>, String>)
    requires
        reachable(text@),
    ensures
        match r {
            Ok(nodes) => xml_nodes(text@) == Ok::<Seq<NodeView>, Seq<char>>(nodes_view(nodes@)),
            Err(message) => xml_nodes(text@) == Err::<Seq<NodeView>, Seq<char>>(message@),
        },
        r matches Ok(nodes) ==> forall|i: int|
            0 <= i < nodes@.len() && nodes@[i].tag@.len() > 0 ==> placed(
                text@,
                #[trigger] nodes@[i]@,
            ),
        r matches Ok(nodes) ==> forall|i: int, j: int|
            0 <= i < j < nodes@.len() && nodes@[i].tag@.len() > 0 && nodes@[j].tag@.len() > 0
                ==> nodes@[i].end <= nodes@[j].start || within(
                #[trigger] nodes@[i]@,
                #[trigger] nodes@[j]@,
            ),
{
    let doc = roxmltree::Document::parse(text).map_err(|e| e.to_string())?;
    Ok(doc.descendants().map(|n| XmlNode {
        parent: n.parent().map(|p| p.id().get_usize()),
        tag: n.tag_name().name().to_string(),
        attributes: n.attributes().map(|a| XmlAttribute {
            namespace: a.namespace().map(|s| s.to_string()),
            name: a.name().to_string(),
            value: a.value().to_string(),
        }).collect(),
        start: n.range().start,
        end: n.range().end,
    }).collect())
}

/// Whether a text can be parsed on the stack that there is.
pub fn is_reachable(text: &str) -> (r: bool)
    ensures
        r == reachable(text@),
{
    nesting_of(text) <= MAX_NESTING
}

/// The nodes that a text is parsed to, in document order; `None` where its elements are nested deeper
/// than the stack is sure to carry the parser.
pub fn try_read_xml(text: &str) -> (r: Option<Result<Vec<XmlNode>, String>>)
    ensures
        match r {
            None => !reachable(text@),
            Some(Ok(nodes)) => reachable(text@) && xml_nodes(text@) == Ok::<
                Seq<NodeView>,
                Seq<char>,
            >(nodes_view(nodes@)),
            Some(Err(message)) => reachable(text@) && xml_nodes(text@) == Err::<
                Seq<NodeView>,
                Seq<char>,
            >(message@),
        },
{
    if is_reachable(text) {
        Some(parse_xml(text))
    } else {
        None
    }
}

/// The place of the first node with the given tag.
pub open spec fn first_tagged(nodes: Seq<NodeView>, tag: Seq<char>) -> Option<int>
    decreases nodes.len(),
{
    if nodes.len() == 0 {
        None
    } else {
        match first_tagged(nodes.drop_last(), tag) {
            Some(i) => Some(i),
            None => if nodes.last().tag == tag {
                Some(nodes.len() - 1)
            } else {
                None
            },
        }
    }
}

/// The place of the first node with the given tag.
pub fn find_tag(nodes: &Vec<XmlNode>, tag: &str) -> (r: Option<usize>)
    ensures
        match r {
            Some(i) => i < nodes.len() && nodes@[i as int].tag@ == tag@ && first_tagged(
                nodes_view(nodes@),
                tag@,
            ) == Some(i as int),
            None => first_tagged(nodes_view(nodes@), tag@) is None,
        },
{
    let ghost v = nodes_view(nodes@);
    let mut i: usize = 0;
    while i < nodes.len()
        invariant
            v == nodes_view(nodes@),
            i <= nodes.len(),
            first_tagged(v.take(i as int), tag@) is None,
        decreases nodes.len() - i,
    {
        assert(v.take(i + 1).drop_last() =~= v.take(i as int));
        if same(nodes[i].tag.as_str(), tag) {
            proof {
                first_tagged_stays(v, tag@, i + 1);
            }
            return Some(i);
        }
        i = i + 1;
    }
    assert(v.take(v.len() as int) =~= v);
    None
}

/// What is found has the tag that was looked for.
pub proof fn first_tagged_is_tagged(nodes: Seq<NodeView>, tag: Seq<char>)
    requires
        first_tagged(nodes, tag) is Some,
    ensures
        0 <= first_tagged(nodes, tag)->Some_0 < nodes.len(),
        nodes[first_tagged(nodes, tag)->Some_0].tag == tag,
    decreases nodes.len(),
{
    if first_tagged(nodes.drop_last(), tag) is Some {
        first_tagged_is_tagged(nodes.drop_last(), tag);
    }
}

/// What is found among the first nodes is found among all of them.
proof fn first_tagged_stays(nodes: Seq<NodeView>, tag: Seq<char>, n: int)
    requires
        0 <= n <= nodes.len(),
        first_tagged(nodes.take(n), tag) is Some,
    ensures
        first_tagged(nodes, tag) == first_tagged(nodes.take(n), tag),
    decreases nodes.len() - n,
{
    if n < nodes.len() {
        assert(nodes.take(n + 1).drop_last() =~= nodes.take(n));
        first_tagged_stays(nodes, tag, n + 1);
    } else {
        assert(nodes.take(n) =~= nodes);
    }
}

/// The value of the first attribute with the given namespace and name.
pub open spec fn attribute_of(
    attributes: Seq<AttributeView>,
    namespace: Option<Seq<char>>,
    name: Seq<char>,
) -> Option<Seq<char>>
    decreases attributes.len(),
{
    if attributes.len() == 0 {
        None
    } else {
        match attribute_of(attributes.drop_last(), namespace, name) {
            Some(s) => Some(s),
            None => if attributes.last().namespace == namespace && attributes.last().name == name {
                Some(attributes.last().value)
            } else {
                None
            },
        }
    }
}

/// Whether the optional string holds the optional text.
fn same_optional(a: &Option<String>, b: Option<&str>) -> (r: bool)
    ensures
        r == (optional(*a) == (match b {
            Some(t) => Some(t@),
            None => None,
        })),
{
    match (a, b) {
        (Some(x), Some(y)) => same(x.as_str(), y),
        (None, None) => true,
        _ => false,
    }
}

/// The value of the first attribute of `node` with the given namespace and name.
pub fn attribute<'a>(node: &'a XmlNode, namespace: Option<&str>, name: &str) -> (r: Option<
    &'a String,
>)
    ensures
        attribute_of(
            node@.attributes,
            match namespace {
                Some(t) => Some(t@),
                None => None,
            },
            name@,
        ) == (match r {
            Some(s) => Some(s@),
            None => None,
        }),
{
    let ghost v = node@.attributes;
    let ghost ns: Option<Seq<char>> = match namespace {
        Some(t) => Some(t@),
        None => None,
    };
    let mut i: usize = 0;
    while i < node.attributes.len()
        invariant
            v == node@.attributes,
            ns == (match namespace {
                Some(t) => Some(t@),
                None => None,
            }),
            i <= node.attributes.len(),
            attribute_of(v.take(i as int), ns, name@) is None,
        decreases node.attributes.len() - i,
    {
        assert(v.take(i + 1).drop_last() =~= v.take(i as int));
        let a: &XmlAttribute = &node.attributes[i];
        assert(v[i as int] == a@);
        if same_optional(&a.namespace, namespace) && same(a.name.as_str(), name) {
            proof {
                attribute_of_stays(v, ns, name@, i + 1);
            }
            return Some(&a.value);
        }
        i = i + 1;
    }
    assert(v.take(v.len() as int) =~= v);
    None
}

/// What is found among the first attributes is found among all of them.
proof fn attribute_of_stays(
    attributes: Seq<AttributeView>,
    namespace: Option<Seq<char>>,
    name: Seq<char>,
    n: int,
)
    requires
        0 <= n <= attributes.len(),
        attribute_of(attributes.take(n), namespace, name) is Some,
    ensures
        attribute_of(attributes, namespace, name) == attribute_of(
            attributes.take(n),
            namespace,
            name,
        ),
    decreases attributes.len() - n,
{
    if n < attributes.len() {
        assert(attributes.take(n + 1).drop_last() =~= attributes.take(n));
        attribute_of_stays(attributes, namespace, name, n + 1);
    } else {
        assert(attributes.take(n) =~= attributes);
    }
}

/// What is found is the first node with the tag, and nothing is found only where no node has it.
pub proof fn the_first_tag_is_found(nodes: Seq<NodeView>, tag: Seq<char>)
    ensures
        match first_tagged(nodes, tag) {
            Some(i) => 0 <= i < nodes.len() && nodes[i].tag == tag && forall|j: int|
                0 <= j < i ==> (#[trigger] nodes[j]).tag != tag,
            None => forall|j: int| 0 <= j < nodes.len() ==> (#[trigger] nodes[j]).tag != tag,
        },
    decreases nodes.len(),
{
    if nodes.len() > 0 {
        let rest = nodes.drop_last();
        the_first_tag_is_found(rest, tag);
        match first_tagged(rest, tag) {
            Some(i) => {
                assert forall|j: int| 0 <= j < i implies (#[trigger] nodes[j]).tag != tag by {
                    assert(rest[j] == nodes[j]);
                }
            },
            None => {
                assert forall|j: int| 0 <= j < nodes.len() - 1 implies (#[trigger] nodes[j]).tag
                    != tag by {
                    assert(rest[j] == nodes[j]);
                }
            },
        }
    }
}

/// The value that is found is that of the first attribute with the namespace and the name, and nothing
/// is found only where no attribute has both.
pub proof fn the_first_attribute_is_found(
    attributes: Seq<AttributeView>,
    namespace: Option<Seq<char>>,
    name: Seq<char>,
)
    ensures
        match attribute_of(attributes, namespace, name) {
            Some(value) => exists|i: int|
                0 <= i < attributes.len() && (#[trigger] attributes[i]).namespace == namespace
                    && attributes[i].name == name && attributes[i].value == value && forall|j: int|
                    0 <= j < i ==> (#[trigger] attributes[j]).namespace != namespace
                        || attributes[j].name != name,
            None => forall|j: int|
                0 <= j < attributes.len() ==> (#[trigger] attributes[j]).namespace != namespace
                    || attributes[j].name != name,
        },
    decreases attributes.len(),
{
    if attributes.len() > 0 {
        let rest = attributes.drop_last();
        the_first_attribute_is_found(rest, namespace, name);
        match attribute_of(rest, namespace, name) {
            Some(value) => {
                let i = choose|i: int|
                    0 <= i < rest.len() && (#[trigger] rest[i]).namespace == namespace
                        && rest[i].name == name && rest[i].value == value && forall|j: int|
                        0 <= j < i ==> (#[trigger] rest[j]).namespace != namespace || rest[j].name
                            != name;
                assert(attributes[i] == rest[i]);
                assert forall|j: int| 0 <= j < i implies (#[trigger] attributes[j]).namespace
                    != namespace || attributes[j].name != name by {
                    assert(rest[j] == attributes[j]);
                }
            },
            None => {
                assert forall|j: int| 0 <= j < attributes.len() - 1 implies (
                #[trigger] attributes[j]).namespace != namespace || attributes[j].name != name by {
                    assert(rest[j] == attributes[j]);
                }
                let last = attributes.len() - 1;
                assert(attributes[last] == attributes.last());
            },
        }
    }
}

/// A node is seen as it is, with its attributes in their order.
pub proof fn nodes_are_seen_as_they_are(nodes: Seq<XmlNode>, i: int, j: int)
    requires
        0 <= i < nodes.len(),
    ensures
        nodes_view(nodes).len() == nodes.len(),
        nodes_view(nodes)[i].tag == nodes[i].tag@,
        nodes_view(nodes)[i].start == nodes[i].start,
        nodes_view(nodes)[i].end == nodes[i].end,
        match nodes[i].parent {
            Some(p) => nodes_view(nodes)[i].parent == Some(p as int),
            None => nodes_view(nodes)[i].parent is None,
        },
        nodes_view(nodes)[i].attributes.len() == nodes[i].attributes@.len(),
        0 <= j < nodes[i].attributes@.len() ==> {
            let a = nodes[i].attributes@[j];
            let v = nodes_view(nodes)[i].attributes[j];
            &&& v.name == a.name@
            &&& v.value == a.value@
            &&& match a.namespace {
                Some(s) => v.namespace == Some(s@),
                None => v.namespace is None,
            }
        },
{
}

} // verus!
