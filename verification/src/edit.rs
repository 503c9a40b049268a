//! Replacing parts of a text that are named by their places in its bytes.

use vstd::prelude::*;
use vstd::string::StringExecFns;
use vstd::utf8::{decode_utf8, encode_utf8, is_char_boundary, valid_utf8};

verus! {

/// The replacement of the bytes from `start` up to `end` by `text`.
pub struct Edit {
    pub start: usize,
    pub end: usize,
    pub text: String,
}

/// What a replacement is in contracts.
pub struct EditView {
    pub start: int,
    pub end: int,
    pub text: Seq<char>,
}

impl View for Edit {
    type V = EditView;

    open spec fn view(&self) -> EditView {
        EditView { start: self.start as int, end: self.end as int, text: self.text@ }
    }
}

/// The replacements of a list, each by its view.
pub open spec fn edits_view(parts: Seq<Edit>) -> Seq<EditView> {
    Seq::new(parts.len(), |i: int| parts[i]@)
}

/// The text in the first `i` bytes of `s`.
pub open spec fn head(s: Seq<char>, i: int) -> Seq<char> {
    decode_utf8(encode_utf8(s).subrange(0, i))
}

/// The text in the bytes of `s` from `i` on.
pub open spec fn tail(s: Seq<char>, i: int) -> Seq<char> {
    decode_utf8(encode_utf8(s).subrange(i, encode_utf8(s).len() as int))
}

/// Whether the replacement is of whole characters of `s`.
pub open spec fn fits(s: Seq<char>, part: EditView) -> bool {
    &&& part.start <= part.end
    &&& is_char_boundary(encode_utf8(s), part.start)
    &&& is_char_boundary(encode_utf8(s), part.end)
}

/// `s` with one replacement made.
pub open spec fn spliced(s: Seq<char>, part: EditView) -> Seq<char> {
    head(s, part.start) + part.text + tail(s, part.end)
}

/// Whether the replacement at `k` is the one that starts last, the first such where several do.
pub open spec fn leads(parts: Seq<EditView>, k: int) -> bool {
    &&& 0 <= k < parts.len()
    &&& forall|j: int| 0 <= j < parts.len() ==> (#[trigger] parts[j]).start <= parts[k].start
    &&& forall|j: int| 0 <= j < k ==> (#[trigger] parts[j]).start < parts[k].start
}

/// The place of the replacement that is made first.
pub open spec fn lead(parts: Seq<EditView>) -> int {
    choose|k: int| leads(parts, k)
}

/// `s` with all replacements made, those that start later first and, of those with the same
/// start, the ones that stand first in the list first.
pub open spec fn edited(s: Seq<char>, parts: Seq<EditView>) -> Seq<char>
    decreases parts.len(),
{
    if parts.len() == 0 || !leads(parts, lead(parts)) {
        s
    } else {
        edited(spliced(s, parts[lead(parts)]), parts.remove(lead(parts)))
    }
}

/// Whether each replacement is of whole characters when its turn comes.
pub open spec fn applicable(s: Seq<char>, parts: Seq<EditView>) -> bool
    decreases parts.len(),
{
    if parts.len() == 0 || !leads(parts, lead(parts)) {
        true
    } else {
        &&& fits(s, parts[lead(parts)])
        &&& applicable(spliced(s, parts[lead(parts)]), parts.remove(lead(parts)))
    }
}

/// `s` with one replacement made.
fn splice(s: &str, part: &Edit) -> (r: String)
    requires
        fits(s@, part@),
    ensures
        r@ == spliced(s@, part@),
{
    let (a, _rest) = s.split_at(part.start);
    let (_skipped, b) = s.split_at(part.end);
    proof {
        vstd::utf8::encode_utf8_decode_utf8(a@);
        vstd::utf8::encode_utf8_decode_utf8(b@);
    }
    let mut r: String = a.to_string();
    r.append(part.text.as_str());
    r.append(b);
    r
}

/// `xml` with all replacements made, unless one of them would split a character or leave the
/// text when its turn comes.
pub fn try_edits(xml: &str, parts: Vec<Edit>) -> (r: Option<String>)
    ensures
        match r {
            Some(s) => applicable(xml@, edits_view(parts@)) && s@ == edited(
                xml@,
                edits_view(parts@),
            ),
            None => !applicable(xml@, edits_view(parts@)),
        },
{
    let ghost all = edits_view(parts@);
    let mut rest: Vec<Edit> = parts;
    let mut out: String = xml.to_string();
    while rest.len() > 0
        invariant
            all == edits_view(parts@),
            edited(xml@, all) == edited(out@, edits_view(rest@)),
            applicable(xml@, all) == applicable(out@, edits_view(rest@)),
        decreases rest.len(),
    {
        let ghost view = edits_view(rest@);
        let mut k: usize = 0;
        let mut i: usize = 1;
        while i < rest.len()
            invariant
                k < i <= rest.len(),
                view == edits_view(rest@),
                forall|j: int| 0 <= j < i ==> (#[trigger] view[j]).start <= view[k as int].start,
                forall|j: int| 0 <= j < k ==> (#[trigger] view[j]).start < view[k as int].start,
            decreases rest.len() - i,
        {
            if rest[i].start > rest[k].start {
                k = i;
            }
            i = i + 1;
        }
        assert(leads(view, k as int));
        assert(lead(view) == k) by {
            let l = lead(view);
            assert(leads(view, l));
            assert(view[l].start <= view[k as int].start);
            assert(view[k as int].start <= view[l].start);
        }
        let part: Edit = rest.remove(k);
        assert(edits_view(rest@) =~= view.remove(k as int));
        if !(part.start <= part.end && out.as_str().is_char_boundary(part.start)
            && out.as_str().is_char_boundary(part.end)) {
            return None;
        }
        out = splice(out.as_str(), &part);
    }
    Some(out)
}

/// `xml` with all replacements made.
pub fn edits(xml: &str, parts: Vec<Edit>) -> (r: String)
    requires
        applicable(xml@, edits_view(parts@)),
    ensures
        r@ == edited(xml@, edits_view(parts@)),
{
    match try_edits(xml, parts) {
        Some(s) => s,
        None => String::new(),
    }
}

/// The text in the bytes of `s` from `i` up to `j`.
pub open spec fn between(s: Seq<char>, i: int, j: int) -> Seq<char> {
    decode_utf8(encode_utf8(s).subrange(i, j))
}

/// The bytes of two texts, one after the other.
proof fn encode_joins(a: Seq<char>, b: Seq<char>)
    ensures
        encode_utf8(a + b) == encode_utf8(a) + encode_utf8(b),
    decreases a.len(),
{
    if a.len() == 0 {
        assert(a + b =~= b);
        assert(encode_utf8(a) + encode_utf8(b) =~= encode_utf8(b));
    } else {
        assert((a + b).drop_first() =~= a.drop_first() + b);
        encode_joins(a.drop_first(), b);
        assert(encode_utf8(a + b) =~= encode_utf8(a) + encode_utf8(b));
    }
}

/// What follows valid bytes does not move the boundaries of the characters in them.
proof fn boundaries_stay(a: Seq<u8>, b: Seq<u8>, i: int)
    requires
        valid_utf8(a),
        valid_utf8(b),
        valid_utf8(a + b),
        0 <= i <= a.len(),
    ensures
        is_char_boundary(a + b, i) == is_char_boundary(a, i),
{
    if i < a.len() {
        vstd::utf8::is_char_boundary_iff_not_is_continuation_byte(a, i);
        vstd::utf8::is_char_boundary_iff_not_is_continuation_byte(a + b, i);
        assert((a + b)[i] == a[i]);
    } else {
        vstd::utf8::is_char_boundary_start_end_of_seq(a);
        if b.len() == 0 {
            assert(a + b =~= a);
        } else {
            vstd::utf8::is_char_boundary_iff_not_is_continuation_byte(b, 0);
            vstd::utf8::is_char_boundary_iff_not_is_continuation_byte(a + b, i);
            assert((a + b)[i] == b[0]);
        }
    }
}

/// A boundary of a character lies in the text.
proof fn boundary_inside(b: Seq<u8>, i: int)
    requires
        valid_utf8(b),
        is_char_boundary(b, i),
    ensures
        0 <= i <= b.len(),
{
}

/// After the later of two replacements, the earlier one still fits, and what stands between the
/// two is unchanged.
proof fn spliced_twice(s: Seq<char>, p: EditView, q: EditView)
    requires
        fits(s, p),
        fits(s, q),
        p.end <= q.start,
    ensures
        fits(spliced(s, q), p),
        spliced(spliced(s, q), p) == head(s, p.start) + p.text + between(s, p.end, q.start)
            + q.text + tail(s, q.end),
{
    let b = encode_utf8(s);
    let n = b.len() as int;
    vstd::utf8::encode_utf8_valid_utf8(s);
    boundary_inside(b, p.start);
    boundary_inside(b, p.end);
    boundary_inside(b, q.start);
    boundary_inside(b, q.end);
    let x = b.subrange(0, q.start);
    let z = b.subrange(q.end, n);
    vstd::utf8::valid_utf8_split(b, q.start);
    vstd::utf8::valid_utf8_split(b, q.end);
    vstd::utf8::decode_utf8_encode_utf8(x);
    vstd::utf8::decode_utf8_encode_utf8(z);
    let s1 = spliced(s, q);
    let y = encode_utf8(q.text) + z;
    encode_joins(head(s, q.start) + q.text, tail(s, q.end));
    encode_joins(head(s, q.start), q.text);
    encode_joins(q.text, tail(s, q.end));
    vstd::utf8::encode_utf8_valid_utf8(q.text + tail(s, q.end));
    vstd::utf8::encode_utf8_valid_utf8(s1);
    assert(encode_utf8(s1) =~= x + y);
    let rest = b.subrange(q.start, n);
    assert(x + rest =~= b);
    boundaries_stay(x, rest, p.start);
    boundaries_stay(x, rest, p.end);
    boundaries_stay(x, y, p.start);
    boundaries_stay(x, y, p.end);
    assert(fits(s1, p));
    assert(encode_utf8(s1).subrange(0, p.start) =~= b.subrange(0, p.start));
    let m = b.subrange(p.end, q.start);
    vstd::utf8::valid_utf8_split(x, p.end);
    assert(x.subrange(p.end, x.len() as int) =~= m);
    vstd::utf8::decode_utf8_encode_utf8(m);
    let after = between(s, p.end, q.start) + q.text + tail(s, q.end);
    encode_joins(between(s, p.end, q.start) + q.text, tail(s, q.end));
    encode_joins(between(s, p.end, q.start), q.text);
    assert(encode_utf8(s1).subrange(p.end, encode_utf8(s1).len() as int) =~= encode_utf8(after));
    vstd::utf8::encode_utf8_decode_utf8(after);
    assert(spliced(s1, p) =~= head(s, p.start) + p.text + between(s, p.end, q.start) + q.text
        + tail(s, q.end));
}

/// What stands between two boundaries of characters is whole characters.
proof fn between_is_valid(b: Seq<u8>, i: int, j: int)
    requires
        valid_utf8(b),
        is_char_boundary(b, i),
        is_char_boundary(b, j),
        i <= j,
    ensures
        0 <= i <= j <= b.len(),
        valid_utf8(b.subrange(i, j)),
{
    boundary_inside(b, i);
    boundary_inside(b, j);
    let x = b.subrange(0, j);
    let z = b.subrange(j, b.len() as int);
    vstd::utf8::valid_utf8_split(b, j);
    assert(x + z =~= b);
    boundaries_stay(x, z, i);
    vstd::utf8::valid_utf8_split(x, i);
    assert(x.subrange(i, j) =~= b.subrange(i, j));
}

/// What stands between two places is what stands between the first and one between them, and then
/// between that and the second.
pub proof fn between_joins(s: Seq<char>, i: int, j: int, k: int)
    requires
        is_char_boundary(encode_utf8(s), i),
        is_char_boundary(encode_utf8(s), j),
        is_char_boundary(encode_utf8(s), k),
        i <= j <= k,
    ensures
        between(s, i, j) + between(s, j, k) == between(s, i, k),
{
    let b = encode_utf8(s);
    vstd::utf8::encode_utf8_valid_utf8(s);
    between_is_valid(b, i, j);
    between_is_valid(b, j, k);
    let x = b.subrange(i, j);
    let y = b.subrange(j, k);
    vstd::utf8::decode_utf8_encode_utf8(x);
    vstd::utf8::decode_utf8_encode_utf8(y);
    encode_joins(between(s, i, j), between(s, j, k));
    assert(x + y =~= b.subrange(i, k));
    vstd::utf8::encode_utf8_decode_utf8(between(s, i, j) + between(s, j, k));
}

/// A text is what stands before a place, and what stands from there on.
pub proof fn parts_make_the_whole(s: Seq<char>, i: int)
    requires
        is_char_boundary(encode_utf8(s), i),
    ensures
        head(s, i) + tail(s, i) == s,
        head(s, i) == between(s, 0, i),
        tail(s, i) == between(s, i, encode_utf8(s).len() as int),
        is_char_boundary(encode_utf8(s), 0),
        is_char_boundary(encode_utf8(s), encode_utf8(s).len() as int),
        0 <= i <= encode_utf8(s).len(),
{
    let b = encode_utf8(s);
    let n = b.len() as int;
    vstd::utf8::encode_utf8_valid_utf8(s);
    vstd::utf8::is_char_boundary_start_end_of_seq(b);
    boundary_inside(b, i);
    between_joins(s, 0, i, n);
    assert(b.subrange(0, n) =~= b);
    vstd::utf8::encode_utf8_decode_utf8(s);
}

/// Two replacements of parts that do not overlap can be made, and everything outside of the two
/// parts stays as it was.
pub proof fn disjoint_edits_keep_the_rest(s: Seq<char>, p: EditView, q: EditView)
    requires
        fits(s, p),
        fits(s, q),
        p.end <= q.start,
        p.start < q.start,
    ensures
        applicable(s, seq![p, q]),
        applicable(s, seq![q, p]),
        edited(s, seq![p, q]) == head(s, p.start) + p.text + between(s, p.end, q.start) + q.text
            + tail(s, q.end),
        edited(s, seq![q, p]) == edited(s, seq![p, q]),
{
    spliced_twice(s, p, q);
    single_edit_keeps_the_rest(spliced(s, q), p);
    let one = seq![p];
    let pq = seq![p, q];
    assert(leads(pq, 1));
    assert(lead(pq) == 1) by {
        assert(leads(pq, lead(pq)));
        assert(pq[1].start <= pq[lead(pq)].start);
    }
    assert(pq.remove(1) =~= one);
    assert(applicable(s, pq) == applicable(spliced(s, q), one));
    assert(edited(s, pq) == edited(spliced(s, q), one));
    let qp = seq![q, p];
    assert(leads(qp, 0));
    assert(lead(qp) == 0) by {
        assert(leads(qp, lead(qp)));
        assert(qp[0].start <= qp[lead(qp)].start);
    }
    assert(qp.remove(0) =~= one);
    assert(applicable(s, qp) == applicable(spliced(s, q), one));
    assert(edited(s, qp) == edited(spliced(s, q), one));
}

/// A single replacement of whole characters can be made, and everything outside of it stays as
/// it was.
pub proof fn single_edit_keeps_the_rest(s: Seq<char>, p: EditView)
    requires
        fits(s, p),
    ensures
        applicable(s, seq![p]),
        edited(s, seq![p]) == head(s, p.start) + p.text + tail(s, p.end),
{
    let one = seq![p];
    assert(leads(one, 0));
    assert(lead(one) == 0);
    assert(one.remove(0) =~= Seq::<EditView>::empty());
    reveal_with_fuel(edited, 2);
    reveal_with_fuel(applicable, 2);
}

/// Whether no two replacements are of the same or of overlapping parts of a text, nor start at the
/// same place.
pub open spec fn disjoint(parts: Seq<EditView>) -> bool {
    forall|i: int, j: int|
        0 <= i < parts.len() && 0 <= j < parts.len() && i != j ==> (#[trigger] parts[i]).start
            != (#[trigger] parts[j]).start && (parts[i].end <= parts[j].start || parts[j].end
            <= parts[i].start)
}

/// Whether each replacement is of whole characters of `s`.
pub open spec fn all_fit(s: Seq<char>, parts: Seq<EditView>) -> bool {
    forall|i: int| 0 <= i < parts.len() ==> fits(s, #[trigger] parts[i])
}

/// The replacements in the order of the places where they start.
pub open spec fn in_order(parts: Seq<EditView>) -> Seq<EditView>
    decreases parts.len(),
{
    if parts.len() == 0 || !leads(parts, lead(parts)) {
        Seq::empty()
    } else {
        in_order(parts.remove(lead(parts))).push(parts[lead(parts)])
    }
}

/// The text in the first `end` bytes of `s`, with each of the replacements, which are in order, in
/// the place of what it replaces, and with everything else as it is.
pub open spec fn replaced(s: Seq<char>, order: Seq<EditView>, end: int) -> Seq<char>
    decreases order.len(),
{
    if order.len() == 0 {
        between(s, 0, end)
    } else {
        let last = order.last();
        replaced(s, order.drop_last(), last.start) + last.text + between(s, last.end, end)
    }
}

/// How many bytes the replacements take away, all together.
pub open spec fn taken(parts: Seq<EditView>) -> int
    decreases parts.len(),
{
    if parts.len() == 0 {
        0
    } else {
        taken(parts.drop_last()) + (parts.last().end - parts.last().start)
    }
}

/// How many bytes the replacements bring, all together.
pub open spec fn brought(parts: Seq<EditView>) -> int
    decreases parts.len(),
{
    if parts.len() == 0 {
        0
    } else {
        brought(parts.drop_last()) + encode_utf8(parts.last().text).len()
    }
}

proof fn one_leads(parts: Seq<EditView>)
    requires
        parts.len() > 0,
    ensures
        leads(parts, lead(parts)),
{
    let k = last_start(parts, parts.len());
    assert(leads(parts, k));
}

/// The place of the first of the replacements that start last, among the first `n` ones.
proof fn last_start(parts: Seq<EditView>, n: nat) -> (k: int)
    requires
        0 < n <= parts.len(),
    ensures
        0 <= k < n,
        forall|j: int| 0 <= j < n ==> (#[trigger] parts[j]).start <= parts[k].start,
        forall|j: int| 0 <= j < k ==> (#[trigger] parts[j]).start < parts[k].start,
    decreases n,
{
    if n == 1 {
        0
    } else {
        let k = last_start(parts, (n - 1) as nat);
        if parts[n - 1].start > parts[k].start {
            n - 1
        } else {
            k
        }
    }
}

proof fn the_rest_is_disjoint(s: Seq<char>, parts: Seq<EditView>)
    requires
        parts.len() > 0,
        disjoint(parts),
        all_fit(s, parts),
    ensures
        ({
            let k = lead(parts);
            let q = parts[k];
            let rest = parts.remove(k);
            &&& leads(parts, k)
            &&& disjoint(rest)
            &&& all_fit(s, rest)
            &&& all_fit(spliced(s, q), rest)
            &&& fits(s, q)
            &&& forall|i: int|
                0 <= i < rest.len() ==> (#[trigger] rest[i]).end <= q.start && rest[i].start
                    < q.start
        }),
{
    one_leads(parts);
    let k = lead(parts);
    let q = parts[k];
    let rest = parts.remove(k);
    assert forall|i: int, j: int|
        0 <= i < rest.len() && 0 <= j < rest.len() && i != j implies (#[trigger] rest[i]).start != (
    #[trigger] rest[j]).start && (rest[i].end <= rest[j].start || rest[j].end
        <= rest[i].start) by {
        let a = if i < k {
            i
        } else {
            i + 1
        };
        let b = if j < k {
            j
        } else {
            j + 1
        };
        assert(rest[i] == parts[a] && rest[j] == parts[b]);
    }
    assert forall|i: int| 0 <= i < rest.len() implies (#[trigger] rest[i]).end <= q.start
        && rest[i].start < q.start && fits(s, rest[i]) && fits(spliced(s, q), rest[i]) by {
        let a = if i < k {
            i
        } else {
            i + 1
        };
        assert(rest[i] == parts[a]);
        assert(fits(s, parts[a]) && fits(s, parts[k]));
        spliced_twice(s, parts[a], q);
    }
}

/// The bytes of a text with one replacement made.
proof fn spliced_bytes(s: Seq<char>, q: EditView)
    requires
        fits(s, q),
    ensures
        0 <= q.start <= q.end <= encode_utf8(s).len(),
        encode_utf8(spliced(s, q)) == encode_utf8(s).subrange(0, q.start) + encode_utf8(q.text)
            + encode_utf8(s).subrange(q.end, encode_utf8(s).len() as int),
{
    let b = encode_utf8(s);
    vstd::utf8::encode_utf8_valid_utf8(s);
    boundary_inside(b, q.start);
    boundary_inside(b, q.end);
    vstd::utf8::valid_utf8_split(b, q.start);
    vstd::utf8::valid_utf8_split(b, q.end);
    vstd::utf8::decode_utf8_encode_utf8(b.subrange(0, q.start));
    vstd::utf8::decode_utf8_encode_utf8(b.subrange(q.end, b.len() as int));
    encode_joins(head(s, q.start) + q.text, tail(s, q.end));
    encode_joins(head(s, q.start), q.text);
}

/// Before a replacement nothing changes.
proof fn replaced_before(s: Seq<char>, q: EditView, order: Seq<EditView>, end: int)
    requires
        fits(s, q),
        all_fit(s, order),
        ascending(order),
        0 <= end <= q.start,
        forall|i: int| 0 <= i < order.len() ==> (#[trigger] order[i]).end <= end,
    ensures
        replaced(spliced(s, q), order, end) == replaced(s, order, end),
    decreases order.len(),
{
    spliced_bytes(s, q);
    let b = encode_utf8(s);
    let c = encode_utf8(spliced(s, q));
    if order.len() == 0 {
        assert(c.subrange(0, end) =~= b.subrange(0, end));
    } else {
        let rest = order.drop_last();
        let last = order.last();
        assert(order[order.len() - 1] == last);
        assert(fits(s, last));
        vstd::utf8::encode_utf8_valid_utf8(s);
        boundary_inside(b, last.start);
        assert forall|i: int| 0 <= i < rest.len() implies (#[trigger] rest[i]).end <= last.start
            && fits(s, rest[i]) by {
            assert(rest[i] == order[i]);
        }
        assert(ascending(rest)) by {
            assert forall|i: int, j: int| 0 <= i < j < rest.len() implies (#[trigger] rest[i]).end
                <= (#[trigger] rest[j]).start by {
                assert(rest[i] == order[i] && rest[j] == order[j]);
            }
        }
        replaced_before(s, q, rest, last.start);
        assert(c.subrange(last.end, end) =~= b.subrange(last.end, end));
    }
}

/// Whether each replacement ends before the next one starts.
pub open spec fn ascending(order: Seq<EditView>) -> bool {
    forall|i: int, j: int|
        0 <= i < j < order.len() ==> (#[trigger] order[i]).end <= (#[trigger] order[j]).start
}

/// Behind the last replacement but one, the text with the last one made is that before it, the
/// replacement and that behind it.
proof fn replaced_behind(s: Seq<char>, q: EditView, i: int)
    requires
        fits(s, q),
        is_char_boundary(encode_utf8(s), i),
        0 <= i <= q.start,
    ensures
        between(spliced(s, q), i, encode_utf8(spliced(s, q)).len() as int) == between(
            s,
            i,
            q.start,
        ) + q.text + tail(s, q.end),
{
    spliced_bytes(s, q);
    let b = encode_utf8(s);
    let c = encode_utf8(spliced(s, q));
    let n = b.len() as int;
    vstd::utf8::encode_utf8_valid_utf8(s);
    vstd::utf8::is_char_boundary_start_end_of_seq(b);
    between_is_valid(b, i, q.start);
    between_is_valid(b, q.end, n);
    let x = b.subrange(i, q.start);
    let z = b.subrange(q.end, n);
    vstd::utf8::decode_utf8_encode_utf8(x);
    vstd::utf8::decode_utf8_encode_utf8(z);
    let after = between(s, i, q.start) + q.text + tail(s, q.end);
    encode_joins(between(s, i, q.start) + q.text, tail(s, q.end));
    encode_joins(between(s, i, q.start), q.text);
    assert(c.subrange(i, c.len() as int) =~= encode_utf8(after));
    vstd::utf8::encode_utf8_decode_utf8(after);
}

/// In order, the replacements are the same ones, and each ends before the next one starts.
pub proof fn order_is_ascending(s: Seq<char>, parts: Seq<EditView>)
    requires
        disjoint(parts),
        all_fit(s, parts),
    ensures
        in_order(parts).len() == parts.len(),
        in_order(parts).to_multiset() =~= parts.to_multiset(),
        all_fit(s, in_order(parts)),
        ascending(in_order(parts)),
        forall|p: EditView| #[trigger] in_order(parts).contains(p) <==> parts.contains(p),
    decreases parts.len(),
{
    parts.to_multiset_ensures();
    if parts.len() > 0 {
        the_rest_is_disjoint(s, parts);
        let k = lead(parts);
        let q = parts[k];
        let rest = parts.remove(k);
        order_is_ascending(s, rest);
        let front = in_order(rest);
        let order = in_order(parts);
        assert(order == front.push(q));
        front.to_multiset_ensures();
        order.to_multiset_ensures();
        assert(rest.to_multiset() =~= parts.to_multiset().remove(q));
        assert(order.to_multiset() =~= front.to_multiset().insert(q));
        assert(parts.to_multiset().contains(q));
        assert(order.to_multiset() =~= parts.to_multiset());
        assert forall|i: int| 0 <= i < front.len() implies (#[trigger] front[i]).end <= q.start
            && fits(s, front[i]) by {
            assert(front.contains(front[i]));
            assert(rest.contains(front[i]));
            let j = choose|j: int| 0 <= j < rest.len() && rest[j] == front[i];
            assert(rest[j].end <= q.start);
        }
        assert forall|i: int| 0 <= i < order.len() implies fits(s, #[trigger] order[i]) by {
            if i < front.len() {
                assert(order[i] == front[i]);
            }
        }
        assert forall|i: int, j: int| 0 <= i < j < order.len() implies (#[trigger] order[i]).end <= (
        #[trigger] order[j]).start by {
            if j < front.len() {
                assert(order[i] == front[i] && order[j] == front[j]);
            } else {
                assert(order[i] == front[i]);
            }
        }
        assert forall|p: EditView| #[trigger] order.contains(p) <==> parts.contains(p) by {
            assert(order.contains(p) <==> order.to_multiset().count(p) > 0);
            assert(parts.contains(p) <==> parts.to_multiset().count(p) > 0);
        }
    } else {
        assert(parts =~= Seq::empty());
    }
}

/// Any number of replacements of parts that do not overlap can be made, whatever order they are
/// listed in: each stands in the place of what it replaces, and everything else stays as it was. With
/// no replacement the text stays as it is. The bytes are as many as before, without those that are
/// taken away and with those that are brought.
pub proof fn edits_keep_the_rest(s: Seq<char>, parts: Seq<EditView>)
    requires
        disjoint(parts),
        all_fit(s, parts),
    ensures
        applicable(s, parts),
        edited(s, parts) == replaced(s, in_order(parts), encode_utf8(s).len() as int),
        parts.len() == 0 ==> edited(s, parts) == s,
        encode_utf8(edited(s, parts)).len() == encode_utf8(s).len() - taken(in_order(parts)) + brought(
            in_order(parts),
        ),
    decreases parts.len(),
{
    let b = encode_utf8(s);
    let n = b.len() as int;
    vstd::utf8::encode_utf8_valid_utf8(s);
    vstd::utf8::is_char_boundary_start_end_of_seq(b);
    if parts.len() == 0 {
        assert(b.subrange(0, n) =~= b);
        vstd::utf8::encode_utf8_decode_utf8(s);
    } else {
        the_rest_is_disjoint(s, parts);
        let k = lead(parts);
        let q = parts[k];
        let rest = parts.remove(k);
        let new = spliced(s, q);
        edits_keep_the_rest(new, rest);
        order_is_ascending(s, rest);
        let order = in_order(rest);
        spliced_bytes(s, q);
        assert(in_order(parts).drop_last() =~= order);
        assert(in_order(parts).last() == q);
        if order.len() == 0 {
            replaced_behind(s, q, 0);
            assert(edited(s, parts) == edited(new, rest));
            assert(replaced(s, order, q.start) == between(s, 0, q.start));
            assert(edited(s, parts) =~= replaced(s, in_order(parts), n));
        } else {
            let last = order.last();
            let front = order.drop_last();
            assert(order[order.len() - 1] == last);
            assert(fits(s, last));
            assert(order.contains(last));
            assert(rest.contains(last));
            let i = choose|i: int| 0 <= i < rest.len() && rest[i] == last;
            assert(rest[i].end <= q.start);
            boundary_inside(b, last.start);
            boundary_inside(b, last.end);
            assert forall|i: int| 0 <= i < front.len() implies (#[trigger] front[i]).end
                <= last.start && fits(s, front[i]) by {
                assert(front[i] == order[i]);
            }
            assert(ascending(front)) by {
                assert forall|i: int, j: int| 0 <= i < j < front.len() implies (
                #[trigger] front[i]).end <= (#[trigger] front[j]).start by {
                    assert(front[i] == order[i] && front[j] == order[j]);
                }
            }
            replaced_before(s, q, front, last.start);
            replaced_behind(s, q, last.end);
            assert(edited(s, parts) == edited(new, rest));
            assert(replaced(new, order, encode_utf8(new).len() as int) == replaced(
                new,
                front,
                last.start,
            ) + last.text + between(new, last.end, encode_utf8(new).len() as int));
            assert(replaced(s, order, q.start) == replaced(s, front, last.start) + last.text
                + between(s, last.end, q.start));
            assert(replaced(s, in_order(parts), n) == replaced(s, order, q.start) + q.text
                + between(s, q.end, n));
            assert(edited(s, parts) =~= replaced(s, in_order(parts), n));
        }
    }
}

/// The order in which replacements that do not overlap are listed does not matter.
pub proof fn listing_does_not_matter(s: Seq<char>, parts: Seq<EditView>, others: Seq<EditView>)
    requires
        disjoint(parts),
        parts.to_multiset() =~= others.to_multiset(),
    ensures
        edited(s, parts) == edited(s, others),
        applicable(s, parts) == applicable(s, others),
        in_order(parts) == in_order(others),
    decreases parts.len(),
{
    parts.to_multiset_ensures();
    others.to_multiset_ensures();
    assert(parts.len() == others.len());
    if parts.len() > 0 {
        one_leads(parts);
        one_leads(others);
        let k = lead(parts);
        let j = lead(others);
        let q = parts[k];
        let r = others[j];
        assert(others.to_multiset().count(r) > 0) by {
            assert(others.contains(r));
        }
        assert(parts.to_multiset().count(q) > 0) by {
            assert(parts.contains(q));
        }
        assert(parts.contains(r));
        assert(others.contains(q));
        let a = choose|a: int| 0 <= a < parts.len() && parts[a] == r;
        let c = choose|c: int| 0 <= c < others.len() && others[c] == q;
        assert(parts[a].start <= q.start);
        assert(others[c].start <= r.start);
        assert(a == k);
        assert(q == r);
        let rest = parts.remove(k);
        assert forall|i: int, l: int|
            0 <= i < rest.len() && 0 <= l < rest.len() && i != l implies (#[trigger] rest[i]).start
            != (#[trigger] rest[l]).start && (rest[i].end <= rest[l].start || rest[l].end
            <= rest[i].start) by {
            let x = if i < k {
                i
            } else {
                i + 1
            };
            let y = if l < k {
                l
            } else {
                l + 1
            };
            assert(rest[i] == parts[x] && rest[l] == parts[y]);
        }
        listing_does_not_matter(spliced(s, q), rest, others.remove(j));
    }
}

} // verus!
