//! Characters and strings: searching, trimming, letter case and numerals.

use vstd::prelude::*;
use vstd::utf8::{encode_utf8, valid_utf8};

verus! {

/// `String::push` appends one character.
pub assume_specification[ String::push ](s: &mut String, c: char)
    ensures
        final(s)@ == old(s)@.push(c),
;

/// `std::str::from_utf8`: the text that the bytes encode, if they are UTF-8.
#[verifier::external_body]
pub(crate) fn utf8_text(bytes: &[u8]) -> (r: Option<String>)
    ensures
        match r {
            Some(s) => valid_utf8(bytes@) && encode_utf8(s@) == bytes@,
            None => !valid_utf8(bytes@),
        },
{
    std::str::from_utf8(bytes).ok().map(|s| s.to_string())
}

/// The texts of a list.
pub open spec fn texts_of(v: Seq<String>) -> Seq<Seq<char>> {
    Seq::new(v.len(), |i: int| v[i]@)
}

/// Whether the two lists hold the same bytes.
pub fn same_bytes(a: &[u8], b: &[u8]) -> (r: bool)
    ensures
        r == (a@ == b@),
{
    if a.len() != b.len() {
        return false;
    }
    let mut i: usize = 0;
    while i < a.len()
        invariant
            a.len() == b.len(),
            i <= a.len(),
            forall|j: int| 0 <= j < i ==> a@[j] == b@[j],
        decreases a.len() - i,
    {
        if a[i] != b[i] {
            return false;
        }
        i = i + 1;
    }
    assert(a@ =~= b@);
    true
}

/// The characters of `s`, in order.
pub fn chars(s: &str) -> (v: Vec<char>)
    ensures
        v@ == s@,
{
    let mut v: Vec<char> = Vec::new();
    for c in it: s.chars()
        invariant
            it.seq() == s@,
            v@ == s@.take(it.index() as int),
    {
        v.push(c);
        assert(s@.take(it.index() as int + 1) =~= s@.take(it.index() as int).push(c));
    }
    assert(s@.take(s@.len() as int) =~= s@);
    v
}

/// The string made of the characters of `v`.
pub fn text(v: &Vec<char>) -> (s: String)
    ensures
        s@ == v@,
{
    let mut s: String = String::new();
    let mut i: usize = 0;
    while i < v.len()
        invariant
            i <= v.len(),
            s@ == v@.take(i as int),
        decreases v.len() - i,
    {
        s.push(v[i]);
        i = i + 1;
        assert(v@.take(i as int) =~= v@.take(i - 1).push(v@[i - 1]));
    }
    assert(v@.take(v@.len() as int) =~= v@);
    s
}

/// Whether the two strings hold the same characters.
pub fn same(a: &str, b: &str) -> (r: bool)
    ensures
        r == (a@ == b@),
{
    proof {
        vstd::utf8::encode_utf8_decode_utf8(a@);
        vstd::utf8::encode_utf8_decode_utf8(b@);
    }
    same_bytes(a.as_bytes(), b.as_bytes())
}

/// `0` to `9`.
pub open spec fn digit(c: char) -> bool {
    '0' <= c && c <= '9'
}

/// The number that an ASCII digit stands for.
pub open spec fn digit_value(c: char) -> nat {
    (c as u32 - '0' as u32) as nat
}

/// The ASCII lower case form of `c`; any other character is itself.
pub open spec fn lower_char(c: char) -> char {
    if 'A' <= c && c <= 'Z' {
        ((c as u32 + 32) as u32) as char
    } else {
        c
    }
}

/// The ASCII upper case form of `c`; any other character is itself.
pub open spec fn upper_char(c: char) -> char {
    if 'a' <= c && c <= 'z' {
        ((c as u32 - 32) as u32) as char
    } else {
        c
    }
}

/// `s` with its ASCII letters in lower case.
pub open spec fn lower(s: Seq<char>) -> Seq<char> {
    s.map_values(|c: char| lower_char(c))
}

/// `s` with its ASCII letters in upper case.
pub open spec fn upper(s: Seq<char>) -> Seq<char> {
    s.map_values(|c: char| upper_char(c))
}

/// The characters with the Unicode property White_Space.
pub open spec fn white(c: char) -> bool {
    let u = c as u32;
    ||| 0x9 <= u <= 0xd
    ||| u == 0x20
    ||| u == 0x85
    ||| u == 0xa0
    ||| u == 0x1680
    ||| 0x2000 <= u <= 0x200a
    ||| u == 0x2028
    ||| u == 0x2029
    ||| u == 0x202f
    ||| u == 0x205f
    ||| u == 0x3000
}

/// The control characters (general category Cc).
pub open spec fn control(c: char) -> bool {
    let u = c as u32;
    u <= 0x1f || 0x7f <= u <= 0x9f
}

/// `s` without the white space it starts with.
pub open spec fn trim_start(s: Seq<char>) -> Seq<char>
    decreases s.len(),
{
    if s.len() > 0 && white(s[0]) {
        trim_start(s.drop_first())
    } else {
        s
    }
}

/// `s` without the white space it ends with.
pub open spec fn trim_end(s: Seq<char>) -> Seq<char>
    decreases s.len(),
{
    if s.len() > 0 && white(s.last()) {
        trim_end(s.drop_last())
    } else {
        s
    }
}

/// `s` without the white space at its two ends.
pub open spec fn trimmed(s: Seq<char>) -> Seq<char> {
    trim_end(trim_start(s))
}

/// Whether `p` stands in `s` from position `i` on.
pub open spec fn stands_at(s: Seq<char>, p: Seq<char>, i: int) -> bool {
    0 <= i && i + p.len() <= s.len() && s.subrange(i, i + p.len()) == p
}

/// Whether `p` stands somewhere in `s`.
pub open spec fn holds(s: Seq<char>, p: Seq<char>) -> bool {
    exists|i: int| #[trigger] stands_at(s, p, i)
}

/// Whether `s` begins with `p`.
pub open spec fn begins(s: Seq<char>, p: Seq<char>) -> bool {
    stands_at(s, p, 0)
}

/// The decimal numeral of `n`, without leading zeros.
pub open spec fn numeral(n: nat) -> Seq<char>
    decreases n,
{
    if n < 10 {
        seq![digit_char(n)]
    } else {
        numeral(n / 10).push(digit_char(n % 10))
    }
}

/// The digit that stands for `d`.
pub open spec fn digit_char(d: nat) -> char {
    (('0' as u32 + d) as u32) as char
}

/// The number that a string of ASCII digits stands for.
pub open spec fn value(s: Seq<char>) -> nat
    decreases s.len(),
{
    if s.len() == 0 {
        0
    } else {
        value(s.drop_last()) * 10 + digit_value(s.last())
    }
}

/// One or more ASCII digits, and nothing else.
pub open spec fn digits(s: Seq<char>) -> bool {
    s.len() > 0 && forall|i: int| 0 <= i < s.len() ==> digit(#[trigger] s[i])
}

/// What an unsigned machine integer with the greatest value `max` is read from: digits,
/// after a plus sign or without one.
pub open spec fn read_unsigned(s: Seq<char>, max: nat) -> Option<nat> {
    let body = if s.len() > 0 && s[0] == '+' {
        s.drop_first()
    } else {
        s
    };
    if digits(body) && value(body) <= max {
        Some(value(body))
    } else {
        None
    }
}

/// Whether `a` stands before `b` in the order of their characters' code points.
pub open spec fn before(a: Seq<char>, b: Seq<char>) -> bool
    decreases a.len(),
{
    if b.len() == 0 {
        false
    } else if a.len() == 0 {
        true
    } else if a[0] != b[0] {
        a[0] < b[0]
    } else {
        before(a.drop_first(), b.drop_first())
    }
}

/// The order of texts is irreflexive, transitive and total.
pub proof fn before_is_an_order(a: Seq<char>, b: Seq<char>, c: Seq<char>)
    ensures
        !before(a, a),
        before(a, b) && before(b, c) ==> before(a, c),
        a != b ==> before(a, b) || before(b, a),
        !(before(a, b) && before(b, a)),
    decreases a.len() + b.len() + c.len(),
{
    if a.len() > 0 && b.len() > 0 && c.len() > 0 {
        before_is_an_order(a.drop_first(), b.drop_first(), c.drop_first());
    } else if a.len() > 0 && b.len() > 0 {
        before_is_an_order(a.drop_first(), b.drop_first(), c);
    } else if a.len() > 0 {
        before_is_an_order(a.drop_first(), b, c);
    }
    if a.len() > 0 && b.len() > 0 && a[0] == b[0] && a.drop_first() == b.drop_first() {
        assert(a =~= seq![a[0]] + a.drop_first());
        assert(b =~= seq![b[0]] + b.drop_first());
    }
    if a.len() == 0 && b.len() == 0 {
        assert(a =~= b);
    }
}

/// Whether `p` stands in `s` from position `i` on.
pub fn is_at(s: &[char], p: &[char], i: usize) -> (r: bool)
    ensures
        r == stands_at(s@, p@, i as int),
{
    if i > s.len() || p.len() > s.len() - i {
        return false;
    }
    let mut k: usize = 0;
    while k < p.len()
        invariant
            i + p.len() <= s.len(),
            k <= p.len(),
            forall|j: int| 0 <= j < k ==> s@[i + j] == p@[j],
        decreases p.len() - k,
    {
        if s[i + k] != p[k] {
            assert(s@.subrange(i as int, i + p@.len())[k as int] != p@[k as int]);
            return false;
        }
        k = k + 1;
    }
    assert(s@.subrange(i as int, i + p@.len()) =~= p@);
    true
}

/// Whether `p` stands somewhere in `s`.
pub fn has(s: &str, p: &str) -> (r: bool)
    ensures
        r == holds(s@, p@),
{
    let x: Vec<char> = chars(s);
    let y: Vec<char> = chars(p);
    let mut i: usize = 0;
    while i < x.len()
        invariant
            x@ == s@,
            y@ == p@,
            i <= x.len(),
            forall|j: int| 0 <= j < i ==> !stands_at(x@, y@, j),
        decreases x.len() - i,
    {
        if is_at(x.as_slice(), y.as_slice(), i) {
            return true;
        }
        i = i + 1;
    }
    is_at(x.as_slice(), y.as_slice(), x.len())
}

/// Whether `s` begins with `p`.
pub fn has_prefix(s: &str, p: &str) -> (r: bool)
    ensures
        r == begins(s@, p@),
{
    let x: Vec<char> = chars(s);
    let y: Vec<char> = chars(p);
    is_at(x.as_slice(), y.as_slice(), 0)
}

/// The characters of `v` from `from` up to `to`.
pub fn part(v: &[char], from: usize, to: usize) -> (r: Vec<char>)
    requires
        from <= to <= v.len(),
    ensures
        r@ == v@.subrange(from as int, to as int),
{
    let mut r: Vec<char> = Vec::new();
    let mut i: usize = from;
    while i < to
        invariant
            from <= i <= to <= v.len(),
            r@ == v@.subrange(from as int, i as int),
        decreases to - i,
    {
        r.push(v[i]);
        i = i + 1;
        assert(v@.subrange(from as int, i as int) =~= v@.subrange(from as int, i - 1).push(
            v@[i - 1],
        ));
    }
    r
}

/// `0` to `9`.
pub fn is_digit(c: char) -> (r: bool)
    ensures
        r == digit(c),
{
    '0' <= c && c <= '9'
}

/// Whether `s` is one or more ASCII digits, and nothing else.
pub fn is_digits(s: &[char]) -> (r: bool)
    ensures
        r == digits(s@),
{
    let mut i: usize = 0;
    while i < s.len()
        invariant
            i <= s.len(),
            forall|j: int| 0 <= j < i ==> digit(#[trigger] s@[j]),
        decreases s.len() - i,
    {
        if !is_digit(s[i]) {
            return false;
        }
        i = i + 1;
    }
    s.len() > 0
}

/// Whether `c` is white space.
pub fn is_white(c: char) -> (r: bool)
    ensures
        r == white(c),
{
    let u: u32 = c as u32;
    (0x9 <= u && u <= 0xd) || u == 0x20 || u == 0x85 || u == 0xa0 || u == 0x1680 || (0x2000 <= u
        && u <= 0x200a) || u == 0x2028 || u == 0x2029 || u == 0x202f || u == 0x205f || u == 0x3000
}

/// Whether `c` is a control character.
pub fn is_control(c: char) -> (r: bool)
    ensures
        r == control(c),
{
    let u: u32 = c as u32;
    u <= 0x1f || (0x7f <= u && u <= 0x9f)
}

/// The ASCII lower case form of `c`.
pub fn to_lower(c: char) -> (r: char)
    ensures
        r == lower_char(c),
{
    if 'A' <= c && c <= 'Z' {
        (c as u8 + 32) as char
    } else {
        c
    }
}

/// The ASCII upper case form of `c`.
pub fn to_upper(c: char) -> (r: char)
    ensures
        r == upper_char(c),
{
    if 'a' <= c && c <= 'z' {
        (c as u8 - 32) as char
    } else {
        c
    }
}

/// `s` with its ASCII letters in lower case.
pub fn lower_case(s: &str) -> (r: String)
    ensures
        r@ == lower(s@),
{
    let x: Vec<char> = chars(s);
    let mut r: String = String::new();
    let mut i: usize = 0;
    while i < x.len()
        invariant
            x@ == s@,
            i <= x.len(),
            r@ == lower(x@.take(i as int)),
        decreases x.len() - i,
    {
        r.push(to_lower(x[i]));
        i = i + 1;
        assert(lower(x@.take(i as int)) =~= lower(x@.take(i - 1)).push(lower_char(x@[i - 1])));
    }
    assert(x@.take(x@.len() as int) =~= x@);
    r
}

/// `s` with its ASCII letters in upper case.
pub fn upper_case(s: &str) -> (r: String)
    ensures
        r@ == upper(s@),
{
    let x: Vec<char> = chars(s);
    let mut r: String = String::new();
    let mut i: usize = 0;
    while i < x.len()
        invariant
            x@ == s@,
            i <= x.len(),
            r@ == upper(x@.take(i as int)),
        decreases x.len() - i,
    {
        r.push(to_upper(x[i]));
        i = i + 1;
        assert(upper(x@.take(i as int)) =~= upper(x@.take(i - 1)).push(upper_char(x@[i - 1])));
    }
    assert(x@.take(x@.len() as int) =~= x@);
    r
}

/// The characters of `s` without the white space at its two ends.
pub fn trim(s: &str) -> (r: Vec<char>)
    ensures
        r@ == trimmed(s@),
{
    let x: Vec<char> = chars(s);
    let mut from: usize = 0;
    assert(x@.subrange(0, x@.len() as int) =~= x@);
    while from < x.len() && is_white(x[from])
        invariant
            x@ == s@,
            from <= x.len(),
            trim_start(s@) == trim_start(x@.subrange(from as int, x@.len() as int)),
        decreases x.len() - from,
    {
        assert(x@.subrange(from as int, x@.len() as int).drop_first() =~= x@.subrange(
            from + 1,
            x@.len() as int,
        ));
        from = from + 1;
    }
    let ghost t = x@.subrange(from as int, x@.len() as int);
    assert(trim_start(s@) == t);
    let mut to: usize = x.len();
    while to > from && is_white(x[to - 1])
        invariant
            from <= to <= x.len(),
            trim_end(t) == trim_end(x@.subrange(from as int, to as int)),
        decreases to,
    {
        assert(x@.subrange(from as int, to as int).drop_last() =~= x@.subrange(
            from as int,
            to - 1,
        ));
        to = to - 1;
    }
    part(x.as_slice(), from, to)
}

/// The decimal numeral of `n`.
pub fn decimal(n: u64) -> (r: String)
    ensures
        r@ == numeral(n as nat),
{
    let mut back: Vec<char> = Vec::new();
    let mut m: u64 = n;
    let ghost mut tail: Seq<char> = Seq::empty();
    while m >= 10
        invariant
            numeral(n as nat) == numeral(m as nat) + tail,
            tail == back@.reverse(),
        decreases m,
    {
        let d: char = (48 + (m % 10) as u8) as char;
        back.push(d);
        proof {
            tail = seq![d] + tail;
            assert(back@.reverse() =~= tail);
            assert(numeral(m as nat) + tail.drop_first() =~= numeral((m / 10) as nat) + tail);
        }
        m = m / 10;
    }
    let d: char = (48 + m as u8) as char;
    back.push(d);
    let mut r: String = String::new();
    let mut i: usize = back.len();
    assert(back@.reverse() =~= numeral(n as nat));
    while i > 0
        invariant
            i <= back.len(),
            r@ == back@.reverse().take(back@.len() - i),
        decreases i,
    {
        i = i - 1;
        r.push(back[i]);
        assert(back@.reverse().take(back@.len() - i) =~= back@.reverse().take(
            back@.len() - i - 1,
        ).push(back@[i as int]));
    }
    assert(back@.reverse().take(back@.len() as int) =~= back@.reverse());
    r
}

/// Reads an unsigned integer of at most `max`, as the standard library reads one: a plus sign
/// may stand before the digits.
pub fn parse_unsigned(s: &str, max: u64) -> (r: Option<u64>)
    ensures
        match r {
            Some(n) => read_unsigned(s@, max as nat) == Some(n as nat),
            None => read_unsigned(s@, max as nat) is None,
        },
{
    let x: Vec<char> = chars(s);
    let from: usize = if x.len() > 0 && x[0] == '+' {
        1
    } else {
        0
    };
    let body: Vec<char> = part(x.as_slice(), from, x.len());
    assert(from == 1 ==> body@ =~= s@.drop_first());
    assert(from == 0 ==> body@ =~= s@);
    if !is_digits(body.as_slice()) {
        return None;
    }
    let mut n: u64 = 0;
    let mut i: usize = 0;
    while i < body.len()
        invariant
            digits(body@),
            i <= body.len(),
            n == value(body@.take(i as int)),
            n <= max,
            ({
                let b = if s@.len() > 0 && s@[0] == '+' {
                    s@.drop_first()
                } else {
                    s@
                };
                b == body@
            }),
        decreases body.len() - i,
    {
        let d: u64 = (body[i] as u32 - '0' as u32) as u64;
        let wide: u128 = n as u128 * 10 + d as u128;
        proof {
            assert(digit(body@[i as int]));
            assert(body@.take(i + 1).drop_last() =~= body@.take(i as int));
            assert(wide == value(body@.take(i + 1)));
            value_grows(body@, i + 1);
        }
        if wide > max as u128 {
            return None;
        }
        n = wide as u64;
        i = i + 1;
    }
    assert(body@.take(body@.len() as int) =~= body@);
    Some(n)
}

/// The leading digits of a numeral stand for no more than the whole.
proof fn value_grows(s: Seq<char>, i: int)
    requires
        0 <= i <= s.len(),
    ensures
        value(s.take(i)) <= value(s),
    decreases s.len() - i,
{
    if i < s.len() {
        value_grows(s, i + 1);
        assert(s.take(i + 1).drop_last() =~= s.take(i));
    } else {
        assert(s.take(i) =~= s);
    }
}

/// Why a text is no unsigned integer.
#[derive(Clone, Copy, Debug, PartialEq, Eq, Structural)]
pub enum Fault {
    Empty,
    Digit,
    Large,
}

/// What stands in the way of reading `body` from position `i` on, where the digits before it are
/// fine: the first character that is no digit, or the first digit that makes the number too large.
pub open spec fn fault_from(body: Seq<char>, max: nat, i: int) -> Fault
    decreases body.len() - i,
{
    if i >= body.len() || !digit(body[i]) {
        Fault::Digit
    } else if value(body.take(i + 1)) > max {
        Fault::Large
    } else {
        fault_from(body, max, i + 1)
    }
}

/// Why `s`, which cannot be read as an unsigned integer of at most `max`, cannot.
pub open spec fn read_fault(s: Seq<char>, max: nat) -> Fault {
    if s.len() == 0 {
        Fault::Empty
    } else if s[0] == '+' {
        fault_from(s.drop_first(), max, 0)
    } else {
        fault_from(s, max, 0)
    }
}

/// Why `s`, which cannot be read as an unsigned integer of at most `max`, cannot.
pub fn unsigned_fault(s: &str, max: u64) -> (r: Fault)
    ensures
        r == read_fault(s@, max as nat),
{
    let x: Vec<char> = chars(s);
    if x.len() == 0 {
        return Fault::Empty;
    }
    let from: usize = if x[0] == '+' {
        1
    } else {
        0
    };
    let body: Vec<char> = part(x.as_slice(), from, x.len());
    assert(from == 1 ==> body@ =~= s@.drop_first());
    assert(from == 0 ==> body@ =~= s@);
    let mut n: u64 = 0;
    let mut i: usize = 0;
    while i < body.len()
        invariant
            i <= body.len(),
            n == value(body@.take(i as int)),
            n <= max,
            read_fault(s@, max as nat) == fault_from(body@, max as nat, i as int),
        decreases body.len() - i,
    {
        if !is_digit(body[i]) {
            return Fault::Digit;
        }
        let d: u64 = (body[i] as u32 - '0' as u32) as u64;
        let wide: u128 = n as u128 * 10 + d as u128;
        assert(body@.take(i + 1).drop_last() =~= body@.take(i as int));
        assert(wide == value(body@.take(i + 1)));
        if wide > max as u128 {
            return Fault::Large;
        }
        n = wide as u64;
        i = i + 1;
    }
    Fault::Digit
}

impl Fault {
    /// The fault in words.
    pub open spec fn words(self) -> Seq<char> {
        match self {
            Fault::Empty => "cannot parse integer from empty string"@,
            Fault::Digit => "invalid digit found in string"@,
            Fault::Large => "number too large to fit in target type"@,
        }
    }

    /// The fault in words.
    pub fn message(&self) -> (r: String)
        ensures
            r@ == self.words(),
    {
        match self {
            Fault::Empty => "cannot parse integer from empty string".to_string(),
            Fault::Digit => "invalid digit found in string".to_string(),
            Fault::Large => "number too large to fit in target type".to_string(),
        }
    }
}

/// Whether a list holds a text.
pub fn has_text(list: &Vec<String>, s: &str) -> (r: bool)
    ensures
        r == texts_of(list@).contains(s@),
{
    let mut i: usize = 0;
    while i < list.len()
        invariant
            i <= list.len(),
            forall|j: int| 0 <= j < i ==> #[trigger] texts_of(list@)[j] != s@,
        decreases list.len() - i,
    {
        if same(list[i].as_str(), s) {
            assert(texts_of(list@)[i as int] == s@);
            return true;
        }
        i = i + 1;
    }
    false
}

/// Whether `a` stands before `b` in the order of their characters' code points.
pub fn is_before(a: &str, b: &str) -> (r: bool)
    ensures
        r == before(a@, b@),
{
    let x: Vec<char> = chars(a);
    let y: Vec<char> = chars(b);
    let mut i: usize = 0;
    assert(x@.skip(0) =~= x@);
    assert(y@.skip(0) =~= y@);
    while i < x.len() && i < y.len()
        invariant
            x@ == a@,
            y@ == b@,
            i <= x.len(),
            i <= y.len(),
            before(a@, b@) == before(x@.skip(i as int), y@.skip(i as int)),
        decreases x.len() - i,
    {
        if x[i] != y[i] {
            return x[i] < y[i];
        }
        assert(x@.skip(i as int).drop_first() =~= x@.skip(i + 1));
        assert(y@.skip(i as int).drop_first() =~= y@.skip(i + 1));
        i = i + 1;
    }
    i < y.len()
}

/// White space is the tab and the line ends, the space, and the other characters with that property
/// of Unicode.
pub proof fn white_space_is_listed(c: char)
    ensures
        white(c) <==> {
            ||| c == '\t' || c == '\n' || c == '\u{b}' || c == '\u{c}' || c == '\r' || c == ' '
            ||| c == '\u{85}' || c == '\u{a0}' || c == '\u{1680}'
            ||| '\u{2000}' <= c && c <= '\u{200a}'
            ||| c == '\u{2028}' || c == '\u{2029}' || c == '\u{202f}' || c == '\u{205f}'
            ||| c == '\u{3000}'
        },
        '!' <= c && c <= '~' ==> !white(c),
        control(c) <==> c <= '\u{1f}' || ('\u{7f}' <= c && c <= '\u{9f}'),
{
}

/// Trimming takes white space away at the two ends, all of it and nothing else.
pub proof fn trimming_takes_the_ends(s: Seq<char>)
    ensures
        exists|from: int, to: int|
            #![trigger s.subrange(from, to)]
            {
                &&& 0 <= from <= to <= s.len()
                &&& trimmed(s) == s.subrange(from, to)
                &&& forall|i: int| 0 <= i < from ==> white(#[trigger] s[i])
                &&& forall|i: int| to <= i < s.len() ==> white(#[trigger] s[i])
                &&& from < to ==> !white(s[from]) && !white(s[to - 1])
            },
{
    let from = trimmed_start(s);
    let t = s.subrange(from, s.len() as int);
    let n = trimmed_end(t);
    let to = from + n;
    assert(trimmed(s) =~= s.subrange(from, to));
    assert forall|i: int| to <= i < s.len() implies white(#[trigger] s[i]) by {
        assert(t[i - from] == s[i]);
    }
    if from < to {
        assert(t[0] == s[from]);
        assert(t[n - 1] == s[to - 1]);
    }
    assert(s.subrange(from, to) == trimmed(s));
}

proof fn trimmed_start(s: Seq<char>) -> (from: int)
    ensures
        0 <= from <= s.len(),
        trim_start(s) == s.subrange(from, s.len() as int),
        forall|i: int| 0 <= i < from ==> white(#[trigger] s[i]),
        from < s.len() ==> !white(s[from]),
    decreases s.len(),
{
    if s.len() > 0 && white(s[0]) {
        let rest = s.drop_first();
        let m = trimmed_start(rest);
        assert(rest.subrange(m, rest.len() as int) =~= s.subrange(m + 1, s.len() as int));
        assert forall|i: int| 0 <= i < m + 1 implies white(#[trigger] s[i]) by {
            if i > 0 {
                assert(rest[i - 1] == s[i]);
            }
        }
        assert(m < rest.len() ==> rest[m] == s[m + 1]);
        m + 1
    } else {
        assert(s.subrange(0, s.len() as int) =~= s);
        0
    }
}

proof fn trimmed_end(s: Seq<char>) -> (to: int)
    ensures
        0 <= to <= s.len(),
        trim_end(s) == s.subrange(0, to),
        forall|i: int| to <= i < s.len() ==> white(#[trigger] s[i]),
        to > 0 ==> !white(s[to - 1]),
    decreases s.len(),
{
    if s.len() > 0 && white(s.last()) {
        let rest = s.drop_last();
        let m = trimmed_end(rest);
        assert(rest.subrange(0, m) =~= s.subrange(0, m));
        assert forall|i: int| m <= i < s.len() implies white(#[trigger] s[i]) by {
            if i < rest.len() {
                assert(rest[i] == s[i]);
            }
        }
        assert(m > 0 ==> rest[m - 1] == s[m - 1]);
        m
    } else {
        assert(s.subrange(0, s.len() as int) =~= s);
        s.len() as int
    }
}

/// The numeral of a number is made of digits, starts with no zero unless it is the zero, and stands for
/// the number.
pub proof fn numerals_stand_for_numbers(n: nat)
    ensures
        numeral(n).len() > 0,
        forall|i: int| 0 <= i < numeral(n).len() ==> '0' <= #[trigger] numeral(n)[i] && numeral(n)[i]
            <= '9',
        n > 0 ==> numeral(n)[0] != '0',
        n == 0 ==> numeral(n) == seq!['0'],
        value(numeral(n)) == n,
    decreases n,
{
    if n >= 10 {
        numerals_stand_for_numbers(n / 10);
        let a = numeral(n / 10);
        assert(numeral(n).drop_last() =~= a);
        assert(numeral(n)[0] == a[0]);
    } else {
        assert(numeral(n).drop_last() =~= Seq::<char>::empty());
        assert(value(Seq::<char>::empty()) == 0);
        reveal_with_fuel(value, 2);
    }
}

/// A string of digits stands for ten times what it stands for without the last one, and that.
pub proof fn digits_count_in_tens(s: Seq<char>, c: char)
    ensures
        value(Seq::empty()) == 0,
        '0' <= c && c <= '9' ==> value(s.push(c)) == 10 * value(s) + (c as int - 48),
{
    assert(s.push(c).drop_last() =~= s);
}

/// An unsigned integer is read from digits, with a plus sign before them or without one, where the
/// number that they stand for is not too large; from nothing else.
pub proof fn integers_are_read_from_digits(s: Seq<char>, max: nat, n: nat)
    ensures
        s.len() > 0 && (forall|i: int| 0 <= i < s.len() ==> '0' <= #[trigger] s[i] && s[i] <= '9')
            && value(s) <= max ==> read_unsigned(s, max) == Some(value(s)) && read_unsigned(
            seq!['+'] + s,
            max,
        ) == Some(value(s)),
        value(s) > max && s.len() > 0 && s[0] != '+' ==> read_unsigned(s, max) is None,
        s.len() == 0 || s == seq!['+'] ==> read_unsigned(s, max) is None,
        (exists|i: int| 1 <= i < s.len() && !('0' <= #[trigger] s[i] && s[i] <= '9'))
            ==> read_unsigned(s, max) is None,
        s.len() > 0 && s[0] != '+' && !('0' <= s[0] && s[0] <= '9') ==> read_unsigned(s, max) is None,
        n <= max ==> read_unsigned(numeral(n), max) == Some(n),
        n > max ==> read_unsigned(numeral(n), max) is None,
{
    let signed = seq!['+'] + s;
    assert(signed.drop_first() =~= s);
    if s.len() > 0 && (forall|i: int| 0 <= i < s.len() ==> '0' <= #[trigger] s[i] && s[i] <= '9') {
        assert forall|i: int| 0 <= i < s.len() implies digit(#[trigger] s[i]) by {
        }
        assert(s[0] != '+');
    }
    if exists|i: int| 1 <= i < s.len() && !('0' <= #[trigger] s[i] && s[i] <= '9') {
        let i = choose|i: int| 1 <= i < s.len() && !('0' <= #[trigger] s[i] && s[i] <= '9');
        assert(s.drop_first()[i - 1] == s[i]);
        assert(!digit(s[i]));
        assert(!digit(s.drop_first()[i - 1]));
        assert(!digits(s) && !digits(s.drop_first()));
    }
    if s.len() > 0 && s[0] != '+' && !('0' <= s[0] && s[0] <= '9') {
        assert(!digit(s[0]));
    }
    let t = numeral(n);
    numerals_stand_for_numbers(n);
    assert forall|i: int| 0 <= i < t.len() implies digit(#[trigger] t[i]) by {
        assert('0' <= t[i] && t[i] <= '9');
    }
    assert(digit(t[0]));
}

/// Why a text is no unsigned integer: it is empty, it is a sign alone, it holds a character that is no
/// digit before the number is too large, or the number is.
pub proof fn faults_of_integers_are_told(s: Seq<char>, max: nat)
    ensures
        s.len() == 0 <==> read_fault(s, max) == Fault::Empty,
        s == seq!['+'] ==> read_fault(s, max) == Fault::Digit,
        s.len() > 0 && s[0] != '+' && !('0' <= s[0] && s[0] <= '9') ==> read_fault(s, max)
            == Fault::Digit,
        s.len() > 0 && (forall|i: int| 0 <= i < s.len() ==> '0' <= #[trigger] s[i] && s[i] <= '9')
            && value(s) > max ==> read_fault(s, max) == Fault::Large,
{
    if s.len() > 0 {
        let body = if s[0] == '+' {
            s.drop_first()
        } else {
            s
        };
        fault_is_not_empty(body, max, 0);
    }
    if s.len() > 0 && (forall|i: int| 0 <= i < s.len() ==> '0' <= #[trigger] s[i] && s[i] <= '9')
        && value(s) > max {
        assert forall|i: int| 0 <= i < s.len() implies digit(#[trigger] s[i]) by {
        }
        assert(value(s.take(0)) == 0);
        large_is_told(s, max, 0);
    }
}

proof fn fault_is_not_empty(body: Seq<char>, max: nat, i: int)
    ensures
        fault_from(body, max, i) != Fault::Empty,
    decreases body.len() - i,
{
    if i < body.len() && digit(body[i]) && value(body.take(i + 1)) <= max {
        fault_is_not_empty(body, max, i + 1);
    }
}

proof fn large_is_told(body: Seq<char>, max: nat, i: int)
    requires
        0 <= i <= body.len(),
        forall|j: int| 0 <= j < body.len() ==> digit(#[trigger] body[j]),
        value(body) > max,
        value(body.take(i)) <= max,
    ensures
        fault_from(body, max, i) == Fault::Large,
    decreases body.len() - i,
{
    if i == body.len() {
        assert(body.take(i) =~= body);
    } else if value(body.take(i + 1)) <= max {
        large_is_told(body, max, i + 1);
    }
}

/// The 26 capital letters and the 26 small ones stand for each other; every other character is itself.
pub proof fn letters_have_two_cases(c: char)
    ensures
        65 <= c as int <= 90 ==> lower_char(c) as int == c as int + 32 && upper_char(lower_char(c))
            == c && upper_char(c) == c,
        97 <= c as int <= 122 ==> upper_char(c) as int == c as int - 32 && lower_char(upper_char(c))
            == c && lower_char(c) == c,
        !(65 <= c as int <= 90) && !(97 <= c as int <= 122) ==> lower_char(c) == c && upper_char(c)
            == c,
{
}

/// Letter case is changed character by character.
pub proof fn letter_case_goes_by_characters(s: Seq<char>, i: int)
    requires
        0 <= i < s.len(),
    ensures
        lower(s).len() == s.len(),
        upper(s).len() == s.len(),
        lower(s)[i] == lower_char(s[i]),
        upper(s)[i] == upper_char(s[i]),
{
}

/// Of two texts the one with the smaller character comes first, where they first differ; a text comes
/// before every longer one that it starts.
pub proof fn the_first_difference_decides(a: Seq<char>, b: Seq<char>, k: int)
    requires
        0 <= k <= a.len(),
        k < b.len(),
        forall|i: int| 0 <= i < k ==> a[i] == b[i],
    ensures
        k < a.len() && a[k] < b[k] ==> before(a, b) && !before(b, a),
        k == a.len() ==> before(a, b) && !before(b, a),
    decreases k,
{
    if k > 0 {
        let x = a.drop_first();
        let y = b.drop_first();
        assert(a[0] == b[0]);
        assert forall|i: int| 0 <= i < k - 1 implies x[i] == y[i] by {
            assert(a[i + 1] == b[i + 1]);
        }
        the_first_difference_decides(x, y, k - 1);
    }
}

/// A list of strings is seen text by text.
pub proof fn lists_are_seen_text_by_text(v: Seq<String>, i: int)
    requires
        0 <= i < v.len(),
    ensures
        texts_of(v).len() == v.len(),
        texts_of(v)[i] == v[i]@,
{
}

/// Whether `w` is `m` with `a` before it and `b` behind it, each of them whole and in its place.
pub open spec fn stands_between(w: Seq<char>, a: Seq<char>, m: Seq<char>, b: Seq<char>) -> bool {
    &&& w.len() == a.len() + m.len() + b.len()
    &&& forall|i: int| 0 <= i < a.len() ==> w[i] == #[trigger] a[i]
    &&& forall|i: int| 0 <= i < m.len() ==> w[a.len() + i] == #[trigger] m[i]
    &&& forall|i: int| 0 <= i < b.len() ==> w[a.len() + m.len() + i] == #[trigger] b[i]
}

/// Each fault of an integer has its own words.
pub proof fn faults_have_their_words(f: Fault)
    ensures
        match f {
            Fault::Empty => f.words() == "cannot parse integer from empty string"@,
            Fault::Digit => f.words() == "invalid digit found in string"@,
            Fault::Large => f.words() == "number too large to fit in target type"@,
        },
{
}

} // verus!
