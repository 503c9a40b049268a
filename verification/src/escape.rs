//! Writing text into XML.

use crate::text::{chars, same};
use crate::xml::{AttributeView, XmlAttribute};
use vstd::prelude::*;
use vstd::string::StringExecFns;

verus! {

/// How a character is written in XML text and attribute values.
pub open spec fn escaped_char(c: char) -> Seq<char> {
    if c == '&' {
        "&amp;"@
    } else if c == '<' {
        "&lt;"@
    } else if c == '>' {
        "&gt;"@
    } else if c == '"' {
        "&quot;"@
    } else if c == '\r' {
        "&#13;"@
    } else {
        seq![c]
    }
}

/// How a text is written in XML text and attribute values.
pub open spec fn escaped(s: Seq<char>) -> Seq<char>
    decreases s.len(),
{
    if s.len() == 0 {
        Seq::empty()
    } else {
        escaped(s.drop_last()) + escaped_char(s.last())
    }
}

/// `s` as it is written in XML text and attribute values.
pub fn esc(s: &str) -> (r: String)
    ensures
        r@ == escaped(s@),
{
    let x: Vec<char> = chars(s);
    let mut r: String = String::new();
    let mut i: usize = 0;
    while i < x.len()
        invariant
            x@ == s@,
            i <= x.len(),
            r@ == escaped(x@.take(i as int)),
        decreases x.len() - i,
    {
        let c: char = x[i];
        assert(x@.take(i + 1).drop_last() =~= x@.take(i as int));
        if c == '&' {
            r.append("&amp;");
        } else if c == '<' {
            r.append("&lt;");
        } else if c == '>' {
            r.append("&gt;");
        } else if c == '"' {
            r.append("&quot;");
        } else if c == '\r' {
            r.append("&#13;");
        } else {
            r.push(c);
            assert(r@ =~= escaped(x@.take(i as int)) + seq![c]);
        }
        i = i + 1;
    }
    assert(x@.take(x@.len() as int) =~= x@);
    r
}

/// Whether `skip` holds `name`.
pub fn listed(skip: &[&str], name: &str) -> (r: bool)
    ensures
        r == names(skip@).contains(name@),
{
    let mut i: usize = 0;
    while i < skip.len()
        invariant
            i <= skip.len(),
            forall|j: int| 0 <= j < i ==> (#[trigger] names(skip@)[j]) != name@,
        decreases skip.len() - i,
    {
        if same(skip[i], name) {
            assert(names(skip@)[i as int] == name@);
            return true;
        }
        i = i + 1;
    }
    false
}

/// The texts of a list.
pub open spec fn names(v: Seq<&str>) -> Seq<Seq<char>> {
    Seq::new(v.len(), |i: int| v[i]@)
}

/// An attribute as it is written in a start tag.
pub open spec fn attribute_text(a: AttributeView) -> Seq<char> {
    " "@ + a.name + "=\""@ + escaped(a.value) + "\""@
}

/// The attributes as they are written in a start tag, but for those in a namespace and those
/// with a name in `skip`.
pub open spec fn attributes_text(attributes: Seq<AttributeView>, skip: Seq<Seq<char>>) -> Seq<char>
    decreases attributes.len(),
{
    if attributes.len() == 0 {
        Seq::empty()
    } else {
        let before = attributes_text(attributes.drop_last(), skip);
        let a = attributes.last();
        if a.namespace is None && !skip.contains(a.name) {
            before + attribute_text(a)
        } else {
            before
        }
    }
}

/// The attributes as they are written in a start tag, but for those in a namespace and those
/// with a name in `skip`.
pub fn attrs(attributes: &Vec<XmlAttribute>, skip: &[&str]) -> (r: String)
    ensures
        r@ == attributes_text(
            Seq::new(attributes@.len(), |i: int| attributes@[i]@),
            names(skip@),
        ),
{
    let ghost v = Seq::new(attributes@.len(), |i: int| attributes@[i]@);
    let mut r: String = String::new();
    let mut i: usize = 0;
    while i < attributes.len()
        invariant
            v == Seq::new(attributes@.len(), |i: int| attributes@[i]@),
            i <= attributes.len(),
            r@ == attributes_text(v.take(i as int), names(skip@)),
        decreases attributes.len() - i,
    {
        let a: &XmlAttribute = &attributes[i];
        assert(v.take(i + 1).drop_last() =~= v.take(i as int));
        assert(v[i as int] == a@);
        if a.namespace.is_none() && !listed(skip, a.name.as_str()) {
            let value: String = esc(a.value.as_str());
            let ghost before = r@;
            r.append(" ");
            r.append(a.name.as_str());
            r.append("=\"");
            r.append(value.as_str());
            r.append("\"");
            assert(r@ =~= before + attribute_text(a@));
        }
        i = i + 1;
    }
    assert(v.take(v.len() as int) =~= v);
    r
}

/// Escaped text holds no character that could end the text or the attribute value it stands in.
pub proof fn escaped_text_is_plain(s: Seq<char>, i: int)
    requires
        0 <= i < escaped(s).len(),
    ensures
        escaped(s)[i] != '<',
        escaped(s)[i] != '>',
        escaped(s)[i] != '"',
        escaped(s)[i] != '\r',
    decreases s.len(),
{
    if s.len() > 0 {
        let t = escaped(s.drop_last());
        if i < t.len() {
            escaped_text_is_plain(s.drop_last(), i);
        } else {
            reveal_strlit("&amp;");
            reveal_strlit("&lt;");
            reveal_strlit("&gt;");
            reveal_strlit("&quot;");
            reveal_strlit("&#13;");
            assert(escaped(s)[i] == escaped_char(s.last())[i - t.len()]);
        }
    }
}

/// The first character of a text is written first.
proof fn escaped_from_the_front(s: Seq<char>)
    requires
        s.len() > 0,
    ensures
        escaped(s) == escaped_char(s[0]) + escaped(s.drop_first()),
    decreases s.len(),
{
    if s.len() == 1 {
        assert(s.drop_last() =~= Seq::<char>::empty());
        assert(s.drop_first() =~= Seq::<char>::empty());
        assert(escaped(s.drop_last()) =~= Seq::<char>::empty());
        assert(escaped(s) =~= escaped_char(s[0]));
        assert(escaped_char(s[0]) + escaped(s.drop_first()) =~= escaped_char(s[0]));
    } else {
        escaped_from_the_front(s.drop_last());
        assert(s.drop_last().drop_first() =~= s.drop_first().drop_last());
        assert(escaped(s) =~= escaped_char(s[0]) + escaped(s.drop_first()));
    }
}

/// Two characters that are written in ways of which one starts the other are the same.
proof fn escaped_chars_differ(a: char, b: char, x: Seq<char>, y: Seq<char>)
    requires
        escaped_char(a) + x == escaped_char(b) + y,
    ensures
        a == b,
        x == y,
{
    reveal_strlit("&amp;");
    reveal_strlit("&lt;");
    reveal_strlit("&gt;");
    reveal_strlit("&quot;");
    reveal_strlit("&#13;");
    let l = escaped_char(a) + x;
    let r = escaped_char(b) + y;
    assert(l[0] == escaped_char(a)[0]);
    assert(r[0] == escaped_char(b)[0]);
    if l[0] == '&' {
        assert(l[1] == escaped_char(a)[1]);
        assert(r[1] == escaped_char(b)[1]);
    }
    assert(a == b);
    let n = escaped_char(a).len() as int;
    assert(x =~= l.skip(n));
    assert(y =~= r.skip(n));
}

/// Escaping loses nothing: texts that are written alike are the same.
pub proof fn escaping_loses_nothing(a: Seq<char>, b: Seq<char>)
    requires
        escaped(a) == escaped(b),
    ensures
        a == b,
    decreases a.len(),
{
    reveal_strlit("&amp;");
    reveal_strlit("&lt;");
    reveal_strlit("&gt;");
    reveal_strlit("&quot;");
    reveal_strlit("&#13;");
    if a.len() > 0 && b.len() > 0 {
        escaped_from_the_front(a);
        escaped_from_the_front(b);
        escaped_chars_differ(a[0], b[0], escaped(a.drop_first()), escaped(b.drop_first()));
        escaping_loses_nothing(a.drop_first(), b.drop_first());
        assert(a =~= seq![a[0]] + a.drop_first());
        assert(b =~= seq![b[0]] + b.drop_first());
    } else if a.len() > 0 {
        escaped_from_the_front(a);
        assert(escaped(a).len() > 0);
    } else if b.len() > 0 {
        escaped_from_the_front(b);
        assert(escaped(b).len() > 0);
    } else {
        assert(a =~= b);
    }
}

/// A text is escaped character by character: five characters by the names of XML, all others as they
/// are.
pub proof fn escaping_goes_by_characters(a: Seq<char>, c: char, b: Seq<char>)
    ensures
        escaped(a + b) == escaped(a) + escaped(b),
        escaped(seq!['&']) == seq!['&', 'a', 'm', 'p', ';'],
        escaped(seq!['<']) == seq!['&', 'l', 't', ';'],
        escaped(seq!['>']) == seq!['&', 'g', 't', ';'],
        escaped(seq!['"']) == seq!['&', 'q', 'u', 'o', 't', ';'],
        escaped(seq!['\r']) == seq!['&', '#', '1', '3', ';'],
        c != '&' && c != '<' && c != '>' && c != '"' && c != '\r' ==> escaped(seq![c]) == seq![c],
{
    escaped_parts(a, b);
    reveal_strlit("&amp;");
    reveal_strlit("&lt;");
    reveal_strlit("&gt;");
    reveal_strlit("&quot;");
    reveal_strlit("&#13;");
    escaped_alone('&');
    escaped_alone('<');
    escaped_alone('>');
    escaped_alone('"');
    escaped_alone('\r');
    escaped_alone(c);
    assert("&amp;"@ =~= seq!['&', 'a', 'm', 'p', ';']);
    assert("&lt;"@ =~= seq!['&', 'l', 't', ';']);
    assert("&gt;"@ =~= seq!['&', 'g', 't', ';']);
    assert("&quot;"@ =~= seq!['&', 'q', 'u', 'o', 't', ';']);
    assert("&#13;"@ =~= seq!['&', '#', '1', '3', ';']);
}

proof fn escaped_alone(c: char)
    ensures
        escaped(seq![c]) == escaped_char(c),
{
    let s = seq![c];
    assert(s.drop_last() =~= Seq::<char>::empty());
    assert(escaped(s.drop_last()) =~= Seq::<char>::empty());
    assert(escaped(s) =~= escaped_char(c));
}

proof fn escaped_parts(a: Seq<char>, b: Seq<char>)
    ensures
        escaped(a + b) == escaped(a) + escaped(b),
    decreases b.len(),
{
    if b.len() == 0 {
        assert(a + b =~= a);
        assert(escaped(a) + escaped(b) =~= escaped(a));
    } else {
        escaped_parts(a, b.drop_last());
        assert((a + b).drop_last() =~= a + b.drop_last());
        assert(escaped(a + b) =~= escaped(a) + escaped(b));
    }
}

/// Attributes are written one after the other, each with its name and its value; those in a namespace
/// and those to be skipped are left out.
pub proof fn attributes_are_written_one_by_one(
    before: Seq<AttributeView>,
    a: AttributeView,
    skip: Seq<Seq<char>>,
)
    ensures
        attributes_text(Seq::empty(), skip) == Seq::<char>::empty(),
        a.namespace is Some || skip.contains(a.name) ==> attributes_text(before.push(a), skip)
            == attributes_text(before, skip),
        a.namespace is None && !skip.contains(a.name) ==> attributes_text(before.push(a), skip)
            == attributes_text(before, skip) + seq![' '] + a.name + seq!['=', '"'] + escaped(a.value)
            + seq!['"'],
{
    reveal_strlit(" ");
    reveal_strlit("=\"");
    reveal_strlit("\"");
    assert(before.push(a).drop_last() =~= before);
    assert(" "@ =~= seq![' ']);
    assert("=\""@ =~= seq!['=', '"']);
    assert("\""@ =~= seq!['"']);
    if a.namespace is None && !skip.contains(a.name) {
        assert(attributes_text(before.push(a), skip) =~= attributes_text(before, skip) + seq![' ']
            + a.name + seq!['=', '"'] + escaped(a.value) + seq!['"']);
    }
}

} // verus!
