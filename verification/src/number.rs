//! Numerals in report cells: which texts are numbers, and the number each of them stands for.

use crate::text::{
    chars, digit, digits, is_digit, is_digits, part, text, trim, trim_end, trim_start, trimmed,
    value, white,
};
use vstd::arithmetic::power::pow;
use vstd::prelude::*;

verus! {

/// A number of a cell. A finite one is held as the numeral that is written into the sheet:
/// a minus sign or none, digits without a leading zero, and a fraction without a trailing
/// zero where there is one. For up to fifteen digits that is the shortest numeral of the
/// nearest double.
#[derive(Clone, Debug, PartialEq, Eq)]
pub enum Number {
    Finite(String),
    NotFinite,
}

impl View for Number {
    type V = Option<Seq<char>>;

    open spec fn view(&self) -> Option<Seq<char>> {
        match self {
            Number::Finite(s) => Some(s@),
            Number::NotFinite => None,
        }
    }
}

impl Number {
    /// The same number once more.
    pub fn duplicate(&self) -> (r: Self)
        ensures
            r@ == self@,
    {
        match self {
            Number::Finite(s) => Number::Finite(s.clone()),
            Number::NotFinite => Number::NotFinite,
        }
    }
}

/// A plus or a minus sign.
pub open spec fn sign(c: char) -> bool {
    c == '+' || c == '-'
}

/// `s` without the sign it starts with, if it has one.
pub open spec fn unsigned(s: Seq<char>) -> Seq<char> {
    if s.len() > 0 && sign(s[0]) {
        s.drop_first()
    } else {
        s
    }
}

/// What may stand between groups of three digits: a comma; where `wide` holds, also a point,
/// a space, a no-break space or a narrow no-break space.
pub open spec fn separator(c: char, wide: bool) -> bool {
    c == ',' || (wide && (c == '.' || c == ' ' || c == '\u{a0}' || c == '\u{202f}'))
}

/// One to three digits, then one or more groups of a separator and three digits. Counted from
/// the end, every fourth character is a separator.
pub open spec fn grouped(s: Seq<char>, wide: bool) -> bool {
    &&& s.len() > 4
    &&& s.len() % 4 != 0
    &&& forall|i: int|
        0 <= i < s.len() ==> if (s.len() - i) % 4 == 0 {
            separator(#[trigger] s[i], wide)
        } else {
            digit(s[i])
        }
}

/// The position of the first point in `s`, or its length where it has none.
pub open spec fn point(s: Seq<char>) -> int
    decreases s.len(),
{
    if s.len() == 0 || s[0] == '.' {
        0
    } else {
        1 + point(s.drop_first())
    }
}

/// What stands before the first point.
pub open spec fn whole(s: Seq<char>) -> Seq<char> {
    s.take(point(s))
}

/// What stands after the first point.
pub open spec fn fraction(s: Seq<char>) -> Seq<char> {
    if point(s) < s.len() {
        s.skip(point(s) + 1)
    } else {
        Seq::empty()
    }
}

/// A plain number: a sign or none, digits that may be grouped by commas, and a point with
/// digits after it or none.
pub open spec fn plain_shape(s: Seq<char>) -> bool {
    let b = unsigned(s);
    &&& digits(whole(b)) || grouped(whole(b), false)
    &&& point(b) < b.len() ==> digits(fraction(b))
}

/// The ASCII digits of `s`.
pub open spec fn only_digits(s: Seq<char>) -> Seq<char> {
    s.filter(|c: char| digit(c))
}

/// `s` without leading zeros; the last digit stays.
pub open spec fn strip_front(s: Seq<char>) -> Seq<char>
    decreases s.len(),
{
    if s.len() > 1 && s[0] == '0' {
        strip_front(s.drop_first())
    } else {
        s
    }
}

/// `s` without trailing zeros.
pub open spec fn strip_back(s: Seq<char>) -> Seq<char>
    decreases s.len(),
{
    if s.len() > 0 && s.last() == '0' {
        strip_back(s.drop_last())
    } else {
        s
    }
}

/// The numeral of the number that the plain number `s` stands for.
pub open spec fn canonical(s: Seq<char>) -> Seq<char> {
    let b = unsigned(s);
    let minus = if s.len() > 0 && s[0] == '-' {
        seq!['-']
    } else {
        Seq::<char>::empty()
    };
    let f = strip_back(fraction(b));
    let tail = if f.len() == 0 {
        Seq::<char>::empty()
    } else {
        seq!['.'] + f
    };
    minus + strip_front(only_digits(whole(b))) + tail
}

/// What the text of a cell converts to: the numeral of a plain number of at most fifteen
/// digits, white space around it left out of account.
pub open spec fn plain_value(s: Seq<char>) -> Option<Seq<char>> {
    let t = trimmed(s);
    if plain_shape(t) && only_digits(t).len() <= 15 {
        Some(canonical(t))
    } else {
        None
    }
}

/// Whether every character of `t` that is neither a digit nor a sign is the one that stands
/// before the last three.
pub open spec fn one_separator(t: Seq<char>) -> bool {
    forall|i: int|
        0 <= i < t.len() && !digit(#[trigger] t[i]) && !sign(t[i]) ==> t[i] == t[t.len() - 4]
}

/// The digits and signs of `t`.
pub open spec fn bare(t: Seq<char>) -> Seq<char> {
    t.filter(|c: char| digit(c) || sign(c))
}

/// What the text of a count converts to. Digits grouped by one and the same separator are an
/// integer, whatever the separator; any other text must be a plain number without a fraction.
pub open spec fn count_value(s: Seq<char>) -> Option<Seq<char>> {
    let t = trimmed(s);
    if grouped(unsigned(t), true) {
        if one_separator(t) {
            plain_value(bare(t))
        } else {
            None
        }
    } else {
        match plain_value(t) {
            Some(n) => if n.contains('.') {
                None
            } else {
                Some(n)
            },
            None => None,
        }
    }
}

proof fn filter_step(s: Seq<char>, keep: spec_fn(char) -> bool, i: int)
    requires
        0 <= i < s.len(),
    ensures
        s.take(i + 1).filter(keep) == if keep(s[i]) {
            s.take(i).filter(keep).push(s[i])
        } else {
            s.take(i).filter(keep)
        },
{
    reveal(Seq::filter);
    assert(s.take(i + 1).drop_last() =~= s.take(i));
}

proof fn point_is_first(s: Seq<char>, p: int)
    requires
        0 <= p <= s.len(),
        forall|i: int| 0 <= i < p ==> s[i] != '.',
        p < s.len() ==> s[p] == '.',
    ensures
        point(s) == p,
    decreases s.len(),
{
    if p > 0 {
        assert forall|i: int| 0 <= i < p - 1 implies s.drop_first()[i] != '.' by {
            assert(s.drop_first()[i] == s[i + 1]);
        }
        point_is_first(s.drop_first(), p - 1);
    }
}

fn is_grouped(s: &[char], wide: bool) -> (r: bool)
    ensures
        r == grouped(s@, wide),
{
    if s.len() <= 4 || s.len() % 4 == 0 {
        return false;
    }
    let mut i: usize = 0;
    while i < s.len()
        invariant
            s.len() > 4,
            s.len() % 4 != 0,
            i <= s.len(),
            forall|j: int|
                0 <= j < i ==> if (s@.len() - j) % 4 == 0 {
                    separator(#[trigger] s@[j], wide)
                } else {
                    digit(s@[j])
                },
        decreases s.len() - i,
    {
        let c: char = s[i];
        let fits: bool = if (s.len() - i) % 4 == 0 {
            c == ',' || (wide && (c == '.' || c == ' ' || c == '\u{a0}' || c == '\u{202f}'))
        } else {
            is_digit(c)
        };
        if !fits {
            assert(!(if (s@.len() - i) % 4 == 0 {
                separator(s@[i as int], wide)
            } else {
                digit(s@[i as int])
            }));
            return false;
        }
        i = i + 1;
    }
    true
}

fn find_point(s: &[char]) -> (p: usize)
    ensures
        p <= s.len(),
        p == point(s@),
{
    let mut i: usize = 0;
    while i < s.len() && s[i] != '.'
        invariant
            i <= s.len(),
            forall|j: int| 0 <= j < i ==> s@[j] != '.',
        decreases s.len() - i,
    {
        i = i + 1;
    }
    proof {
        point_is_first(s@, i as int);
    }
    i
}

fn keep_digits(s: &[char]) -> (r: Vec<char>)
    ensures
        r@ == only_digits(s@),
{
    let mut r: Vec<char> = Vec::new();
    let mut i: usize = 0;
    proof {
        reveal(Seq::filter);
    }
    while i < s.len()
        invariant
            i <= s.len(),
            r@ == only_digits(s@.take(i as int)),
        decreases s.len() - i,
    {
        proof {
            filter_step(s@, |c: char| digit(c), i as int);
        }
        if is_digit(s[i]) {
            r.push(s[i]);
        }
        i = i + 1;
    }
    assert(s@.take(s@.len() as int) =~= s@);
    r
}

fn drop_front(s: &[char]) -> (r: Vec<char>)
    ensures
        r@ == strip_front(s@),
{
    let mut from: usize = 0;
    assert(s@.subrange(0, s@.len() as int) =~= s@);
    while s.len() - from > 1 && s[from] == '0'
        invariant
            from <= s.len(),
            strip_front(s@) == strip_front(s@.subrange(from as int, s@.len() as int)),
        decreases s.len() - from,
    {
        assert(s@.subrange(from as int, s@.len() as int).drop_first() =~= s@.subrange(
            from + 1,
            s@.len() as int,
        ));
        from = from + 1;
    }
    part(s, from, s.len())
}

fn drop_back(s: &[char]) -> (r: Vec<char>)
    ensures
        r@ == strip_back(s@),
{
    let mut to: usize = s.len();
    assert(s@.subrange(0, s@.len() as int) =~= s@);
    while to > 0 && s[to - 1] == '0'
        invariant
            to <= s.len(),
            strip_back(s@) == strip_back(s@.subrange(0, to as int)),
        decreases to,
    {
        assert(s@.subrange(0, to as int).drop_last() =~= s@.subrange(0, to - 1));
        to = to - 1;
    }
    part(s, 0, to)
}

/// The number that a plain numeral stands for: an optional sign, digits that may be grouped by
/// commas, an optional fraction, at most fifteen digits in all. Any other text is no number:
/// a currency amount, a rate and an identifier stay as they are.
pub fn plain_number(s: &str) -> (r: Option<Number>)
    ensures
        match r {
            Some(n) => n@ is Some && plain_value(s@) == n@,
            None => plain_value(s@) is None,
        },
{
    let t: Vec<char> = trim(s);
    let from: usize = if t.len() > 0 && (t[0] == '+' || t[0] == '-') {
        1
    } else {
        0
    };
    let b: Vec<char> = part(t.as_slice(), from, t.len());
    assert(b@ =~= unsigned(t@));
    let p: usize = find_point(b.as_slice());
    let w: Vec<char> = part(b.as_slice(), 0, p);
    assert(w@ =~= whole(b@));
    if !is_digits(w.as_slice()) && !is_grouped(w.as_slice(), false) {
        return None;
    }
    let f: Vec<char> = if p < b.len() {
        part(b.as_slice(), p + 1, b.len())
    } else {
        Vec::new()
    };
    assert(f@ =~= fraction(b@));
    if p < b.len() && !is_digits(f.as_slice()) {
        return None;
    }
    if keep_digits(t.as_slice()).len() > 15 {
        return None;
    }
    let mut out: Vec<char> = Vec::new();
    if t.len() > 0 && t[0] == '-' {
        out.push('-');
    }
    let kept: Vec<char> = keep_digits(w.as_slice());
    let mut front: Vec<char> = drop_front(kept.as_slice());
    out.append(&mut front);
    let mut back: Vec<char> = drop_back(f.as_slice());
    if back.len() > 0 {
        out.push('.');
        out.append(&mut back);
    }
    assert(out@ =~= canonical(t@));
    Some(Number::Finite(text(&out)))
}

/// The number that the text of a count stands for. A point, a comma or a space between groups
/// of three digits only groups them, so that a European thousands point is never read as a
/// decimal point; a number with a fraction is no count.
pub fn count_number(s: &str) -> (r: Option<Number>)
    ensures
        match r {
            Some(n) => n@ is Some && count_value(s@) == n@,
            None => count_value(s@) is None,
        },
{
    let t: Vec<char> = trim(s);
    let from: usize = if t.len() > 0 && (t[0] == '+' || t[0] == '-') {
        1
    } else {
        0
    };
    let b: Vec<char> = part(t.as_slice(), from, t.len());
    assert(b@ =~= unsigned(t@));
    if is_grouped(b.as_slice(), true) {
        let mark: char = t[t.len() - 4];
        let mut kept: Vec<char> = Vec::new();
        let mut i: usize = 0;
        proof {
            reveal(Seq::filter);
        }
        while i < t.len()
            invariant
                t@ == trimmed(s@),
                grouped(unsigned(t@), true),
                t.len() >= 4,
                mark == t@[t@.len() - 4],
                i <= t.len(),
                kept@ == bare(t@.take(i as int)),
                forall|j: int|
                    0 <= j < i && !digit(#[trigger] t@[j]) && !sign(t@[j]) ==> t@[j] == mark,
            decreases t.len() - i,
        {
            proof {
                filter_step(t@, |c: char| digit(c) || sign(c), i as int);
            }
            let c: char = t[i];
            if is_digit(c) || c == '+' || c == '-' {
                kept.push(c);
            } else if c != mark {
                assert(!one_separator(t@));
                return None;
            }
            i = i + 1;
        }
        assert(t@.take(t@.len() as int) =~= t@);
        let joined: String = text(&kept);
        return plain_number(joined.as_str());
    }
    let joined: String = text(&t);
    match plain_number(joined.as_str()) {
        None => None,
        Some(Number::NotFinite) => None,
        Some(Number::Finite(n)) => {
            let c: Vec<char> = chars(n.as_str());
            let p: usize = find_point(c.as_slice());
            if p < c.len() {
                assert(c@[p as int] == '.') by {
                    point_stands(c@);
                }
                None
            } else {
                proof {
                    point_stands(c@);
                }
                assert(!c@.contains('.'));
                Some(Number::Finite(n))
            }
        },
    }
}

proof fn point_stands(s: Seq<char>)
    ensures
        0 <= point(s) <= s.len(),
        point(s) < s.len() ==> s[point(s)] == '.',
        forall|i: int| 0 <= i < point(s) ==> s[i] != '.',
    decreases s.len(),
{
    if s.len() > 0 && s[0] != '.' {
        let rest = s.drop_first();
        point_stands(rest);
        assert forall|i: int| 0 <= i < point(s) implies s[i] != '.' by {
            if i > 0 {
                assert(rest[i - 1] == s[i]);
            }
        }
    }
}

/// The digits of a plain number, read as one integer.
pub open spec fn units(s: Seq<char>) -> nat {
    let b = unsigned(s);
    value(only_digits(whole(b)) + fraction(b))
}

/// The number of digits after the point.
pub open spec fn places(s: Seq<char>) -> nat {
    fraction(unsigned(s)).len()
}

/// Whether `s` starts with a minus sign.
pub open spec fn negative(s: Seq<char>) -> bool {
    s.len() > 0 && s[0] == '-'
}

proof fn filter_all(s: Seq<char>)
    requires
        forall|i: int| 0 <= i < s.len() ==> digit(#[trigger] s[i]),
    ensures
        only_digits(s) == s,
    decreases s.len(),
{
    reveal(Seq::filter);
    if s.len() > 0 {
        filter_all(s.drop_last());
        assert(s =~= s.drop_last().push(s.last()));
    }
}

proof fn filter_parts(a: Seq<char>, b: Seq<char>)
    ensures
        only_digits(a + b) == only_digits(a) + only_digits(b),
    decreases b.len(),
{
    reveal(Seq::filter);
    if b.len() == 0 {
        assert(a + b =~= a);
        assert(only_digits(a) + only_digits(b) =~= only_digits(a));
    } else {
        assert((a + b).drop_last() =~= a + b.drop_last());
        filter_parts(a, b.drop_last());
        assert(only_digits(a + b) =~= only_digits(a) + only_digits(b));
    }
}

proof fn filter_keeps_digits(s: Seq<char>)
    ensures
        forall|i: int| 0 <= i < only_digits(s).len() ==> digit(#[trigger] only_digits(s)[i]),
        only_digits(s).len() <= s.len(),
        (exists|i: int| 0 <= i < s.len() && digit(s[i])) ==> only_digits(s).len() > 0,
    decreases s.len(),
{
    reveal(Seq::filter);
    if s.len() > 0 {
        filter_keeps_digits(s.drop_last());
        assert forall|i: int| 0 <= i < s.len() && digit(s[i]) implies only_digits(s).len() > 0 by {
            if i < s.len() - 1 {
                assert(digit(s.drop_last()[i]));
            }
        }
    }
}

proof fn strip_front_facts(w: Seq<char>)
    requires
        digits(w),
    ensures
        digits(strip_front(w)),
        strip_front(w).len() <= w.len(),
        strip_front(strip_front(w)) == strip_front(w),
    decreases w.len(),
{
    if w.len() > 1 && w[0] == '0' {
        assert(digits(w.drop_first()));
        strip_front_facts(w.drop_first());
    }
}

proof fn strip_back_facts(f: Seq<char>)
    requires
        forall|i: int| 0 <= i < f.len() ==> digit(#[trigger] f[i]),
    ensures
        forall|i: int| 0 <= i < strip_back(f).len() ==> digit(#[trigger] strip_back(f)[i]),
        strip_back(f).len() <= f.len(),
        strip_back(strip_back(f)) == strip_back(f),
    decreases f.len(),
{
    if f.len() > 0 && f.last() == '0' {
        strip_back_facts(f.drop_last());
    }
}

proof fn value_without_front_zero(s: Seq<char>)
    requires
        s.len() > 0,
        s[0] == '0',
    ensures
        value(s.drop_first()) == value(s),
    decreases s.len(),
{
    if s.len() == 1 {
        assert(value(s.drop_first()) == 0);
        assert(value(s.drop_last()) == 0);
    } else {
        assert(s.drop_first().drop_last() =~= s.drop_last().drop_first());
        value_without_front_zero(s.drop_last());
    }
}

proof fn value_of_stripped_front(w: Seq<char>, x: Seq<char>)
    ensures
        value(strip_front(w) + x) == value(w + x),
    decreases w.len(),
{
    if w.len() > 1 && w[0] == '0' {
        value_of_stripped_front(w.drop_first(), x);
        assert((w + x).drop_first() =~= w.drop_first() + x);
        value_without_front_zero(w + x);
    }
}

proof fn value_of_stripped_back(w: Seq<char>, f: Seq<char>)
    ensures
        strip_back(f).len() <= f.len(),
        value(w + f) == value(w + strip_back(f)) * pow(
            10,
            (f.len() - strip_back(f).len()) as nat,
        ),
    decreases f.len(),
{
    if f.len() > 0 && f.last() == '0' {
        value_of_stripped_back(w, f.drop_last());
        assert((w + f).drop_last() =~= w + f.drop_last());
        let k = (f.len() - 1 - strip_back(f).len()) as nat;
        let v = value(w + strip_back(f)) as int;
        assert(pow(10, (k + 1) as nat) == 10 * pow(10, k)) by {
            reveal(pow);
        }
        assert((v * pow(10, k)) * 10 == v * (10 * pow(10, k))) by (nonlinear_arith);
    } else {
        assert(pow(10, 0) == 1) by {
            reveal(pow);
        }
    }
}

/// The parts of the numeral that a plain number converts to.
proof fn canonical_parts(t: Seq<char>)
    requires
        plain_shape(t),
    ensures
        ({
            let b = unsigned(t);
            let w = strip_front(only_digits(whole(b)));
            let f = strip_back(fraction(b));
            let n = canonical(t);
            &&& digits(only_digits(whole(b)))
            &&& digits(w)
            &&& forall|i: int| 0 <= i < fraction(b).len() ==> digit(#[trigger] fraction(b)[i])
            &&& forall|i: int| 0 <= i < f.len() ==> digit(#[trigger] f[i])
            &&& negative(n) == negative(t)
            &&& unsigned(n) == w + (if f.len() == 0 {
                Seq::<char>::empty()
            } else {
                seq!['.'] + f
            })
            &&& whole(unsigned(n)) == w
            &&& fraction(unsigned(n)) == f
            &&& plain_shape(n)
        }),
{
    let b = unsigned(t);
    let w0 = only_digits(whole(b));
    let w = strip_front(w0);
    let f = strip_back(fraction(b));
    let n = canonical(t);
    filter_keeps_digits(whole(b));
    if !digits(whole(b)) {
        assert(digit(whole(b)[0]));
    } else {
        assert(digit(whole(b)[0]));
    }
    assert(digits(w0));
    strip_front_facts(w0);
    strip_back_facts(fraction(b));
    let tail = if f.len() == 0 {
        Seq::<char>::empty()
    } else {
        seq!['.'] + f
    };
    assert(digit(w[0]));
    assert(unsigned(n) =~= w + tail);
    assert forall|i: int| 0 <= i < w.len() implies (w + tail)[i] != '.' by {
        assert(digit(w[i]));
    }
    point_is_first(w + tail, w.len() as int);
    assert(whole(unsigned(n)) =~= w);
    assert(fraction(unsigned(n)) =~= f);
}

/// Conversion keeps the amount: the numeral that a text converts to has the text's sign and,
/// scaled to the same number of places, its digits.
pub proof fn conversion_keeps_the_amount(s: Seq<char>)
    requires
        plain_value(s) is Some,
    ensures
        ({
            let t = trimmed(s);
            let n = plain_value(s).unwrap();
            &&& plain_shape(n)
            &&& negative(n) == negative(t)
            &&& places(n) <= places(t)
            &&& units(t) == units(n) * pow(10, (places(t) - places(n)) as nat)
        }),
{
    let t = trimmed(s);
    let b = unsigned(t);
    canonical_parts(t);
    let w0 = only_digits(whole(b));
    value_of_stripped_back(w0, fraction(b));
    value_of_stripped_front(w0, strip_back(fraction(b)));
    filter_all(strip_front(w0));
}

proof fn split_at_point(b: Seq<char>)
    ensures
        point(b) < b.len() ==> b == whole(b) + (seq!['.'] + fraction(b)),
        point(b) == b.len() ==> b == whole(b),
        0 <= point(b) <= b.len(),
{
    point_stands(b);
    if point(b) < b.len() {
        assert(b =~= whole(b) + (seq!['.'] + fraction(b)));
    } else {
        assert(b =~= whole(b));
    }
}

proof fn filter_other(c: char)
    requires
        !digit(c),
    ensures
        only_digits(seq![c]).len() == 0,
{
    reveal_with_fuel(Seq::filter, 2);
    assert(seq![c].drop_last() =~= Seq::<char>::empty());
}

proof fn digit_count_of_parts(t: Seq<char>)
    ensures
        only_digits(t).len() == only_digits(whole(unsigned(t))).len() + only_digits(
            fraction(unsigned(t)),
        ).len(),
{
    let b = unsigned(t);
    split_at_point(b);
    assert(only_digits(Seq::<char>::empty()).len() == 0) by {
        reveal(Seq::filter);
    }
    if b != t {
        assert(t =~= seq![t[0]] + b);
        filter_parts(seq![t[0]], b);
        filter_other(t[0]);
    }
    if point(b) < b.len() {
        filter_parts(whole(b), seq!['.'] + fraction(b));
        filter_parts(seq!['.'], fraction(b));
        filter_other('.');
    }
}

/// What a text converts to is not changed by a second conversion.
pub proof fn conversion_is_stable(s: Seq<char>)
    requires
        plain_value(s) is Some,
    ensures
        plain_value(plain_value(s).unwrap()) == plain_value(s),
{
    let t = trimmed(s);
    let b = unsigned(t);
    let n = canonical(t);
    canonical_parts(t);
    let w0 = only_digits(whole(b));
    let w = strip_front(w0);
    let f = strip_back(fraction(b));
    strip_front_facts(w0);
    strip_back_facts(fraction(b));
    filter_all(w);
    filter_all(f);
    filter_all(fraction(b));
    assert(digit(w[0]));
    assert(digit(w.last()));
    assert(f.len() > 0 ==> digit(f.last()));
    assert(!crate::text::white(n[0]));
    assert(!crate::text::white(n.last()));
    assert(trimmed(n) == n);
    digit_count_of_parts(t);
    digit_count_of_parts(n);
    assert(canonical(n) =~= n);
}

/// Only digits, signs and separators convert: a text with any other character between its
/// ends, such as a currency sign, a percent sign or a letter, is kept as it is.
pub proof fn only_numerals_convert(s: Seq<char>, i: int)
    requires
        plain_value(s) is Some || count_value(s) is Some,
        0 <= i < trimmed(s).len(),
    ensures
        ({
            let c = trimmed(s)[i];
            digit(c) || sign(c) || separator(c, true)
        }),
{
    let t = trimmed(s);
    let b = unsigned(t);
    let k = if b == t {
        i
    } else {
        i - 1
    };
    if grouped(b, true) {
        if 0 <= k {
            assert(b[k] == t[i]);
        }
    } else {
        if plain_value(s) is None {
            trimming_is_stable(s);
        }
        assert(plain_shape(t));
        split_at_point(b);
        if 0 <= k {
            assert(b[k] == t[i]);
            if k < point(b) {
                assert(whole(b)[k] == b[k]);
            } else if k > point(b) {
                assert(fraction(b)[k - point(b) - 1] == b[k]);
            }
        }
    }
}

proof fn trim_end_facts(s: Seq<char>)
    ensures
        trim_end(trim_end(s)) == trim_end(s),
        trim_end(s).len() <= s.len(),
        trim_end(s) == s.take(trim_end(s).len() as int),
    decreases s.len(),
{
    if s.len() > 0 && crate::text::white(s.last()) {
        trim_end_facts(s.drop_last());
        assert(trim_end(s) =~= s.take(trim_end(s).len() as int));
    } else {
        assert(s =~= s.take(s.len() as int));
    }
}

proof fn trim_start_facts(s: Seq<char>)
    ensures
        trim_start(s).len() > 0 ==> !crate::text::white(trim_start(s)[0]),
    decreases s.len(),
{
    if s.len() > 0 && crate::text::white(s[0]) {
        trim_start_facts(s.drop_first());
    }
}

proof fn trimming_is_stable(s: Seq<char>)
    ensures
        trimmed(trimmed(s)) == trimmed(s),
{
    let t = trim_start(s);
    trim_start_facts(s);
    trim_end_facts(t);
    if trimmed(s).len() > 0 {
        assert(trimmed(s)[0] == t[0]);
    }
    assert(trim_start(trimmed(s)) == trimmed(s));
}

proof fn bare_facts(t: Seq<char>)
    ensures
        only_digits(bare(t)) == only_digits(t),
        forall|i: int|
            0 <= i < bare(t).len() ==> digit(#[trigger] bare(t)[i]) || sign(bare(t)[i]),
    decreases t.len(),
{
    reveal(Seq::filter);
    if t.len() > 0 {
        bare_facts(t.drop_last());
        let keep = |c: char| digit(c) || sign(c);
        if keep(t.last()) {
            assert(bare(t) == bare(t.drop_last()).push(t.last()));
            assert(bare(t).drop_last() =~= bare(t.drop_last()));
        } else {
            assert(bare(t) == bare(t.drop_last()));
        }
    }
}

/// A text with more than fifteen digits, such as a long identifier, never converts.
pub proof fn long_numerals_do_not_convert(s: Seq<char>)
    requires
        only_digits(trimmed(s)).len() > 15,
    ensures
        plain_value(s) is None,
        count_value(s) is None,
{
    let t = trimmed(s);
    trimming_is_stable(s);
    bare_facts(t);
    no_white_in_bare(t);
}

proof fn no_white_in_bare(t: Seq<char>)
    ensures
        trimmed(bare(t)) == bare(t),
{
    bare_facts(t);
    let b = bare(t);
    if b.len() > 0 {
        assert(digit(b[0]) || sign(b[0]));
        assert(digit(b.last()) || sign(b.last()));
    }
}

/// Every count is an integer.
pub proof fn counts_are_integers(s: Seq<char>)
    requires
        count_value(s) is Some,
    ensures
        !count_value(s).unwrap().contains('.'),
{
    let t = trimmed(s);
    if grouped(unsigned(t), true) {
        let b = bare(t);
        bare_facts(t);
        no_white_in_bare(t);
        canonical_parts(b);
        let u = unsigned(b);
        assert forall|i: int| 0 <= i < u.len() implies u[i] != '.' by {
            let k = if u == b {
                i
            } else {
                i + 1
            };
            assert(u[i] == b[k]);
        }
        point_is_first(u, u.len() as int);
        let n = canonical(b);
        assert forall|i: int| 0 <= i < n.len() implies n[i] != '.' by {
            let w = strip_front(only_digits(whole(u)));
            let k = if unsigned(n) == n {
                i
            } else {
                i - 1
            };
            if 0 <= k {
                assert(unsigned(n)[k] == n[i]);
                assert(digit(w[k]));
            }
        }
    }
}

proof fn bare_parts(a: Seq<char>, b: Seq<char>)
    ensures
        bare(a + b) == bare(a) + bare(b),
    decreases b.len(),
{
    reveal(Seq::filter);
    if b.len() == 0 {
        assert(a + b =~= a);
        assert(bare(a) + bare(b) =~= bare(a));
    } else {
        bare_parts(a, b.drop_last());
        assert((a + b).drop_last() =~= a + b.drop_last());
        assert(bare(a + b) =~= bare(a) + bare(b));
    }
}

proof fn bare_without_signs(b: Seq<char>)
    requires
        forall|i: int| 0 <= i < b.len() ==> !sign(#[trigger] b[i]),
    ensures
        bare(b) == only_digits(b),
    decreases b.len(),
{
    reveal(Seq::filter);
    if b.len() > 0 {
        let rest = b.drop_last();
        assert forall|i: int| 0 <= i < rest.len() implies !sign(#[trigger] rest[i]) by {
            assert(rest[i] == b[i]);
        }
        bare_without_signs(rest);
        assert(!sign(b[b.len() - 1]));
    }
}

/// A grouped number without its separators has its sign and its digits.
proof fn bare_of_grouped(t: Seq<char>)
    requires
        grouped(unsigned(t), true),
    ensures
        unsigned(bare(t)) == only_digits(unsigned(t)),
        negative(bare(t)) == negative(t),
{
    let b = unsigned(t);
    assert forall|i: int| 0 <= i < b.len() implies !sign(#[trigger] b[i]) by {
        if (b.len() - i) % 4 == 0 {
            assert(separator(b[i], true));
        } else {
            assert(digit(b[i]));
        }
    }
    bare_without_signs(b);
    filter_keeps_digits(b);
    let d = only_digits(b);
    if b != t {
        assert(t =~= seq![t[0]] + b);
        bare_parts(seq![t[0]], b);
        assert(bare(seq![t[0]]) =~= seq![t[0]]) by {
            reveal_with_fuel(Seq::filter, 2);
            assert(seq![t[0]].drop_last() =~= Seq::<char>::empty());
        }
        assert(bare(t)[0] == t[0]);
        assert(unsigned(bare(t)) =~= d);
    } else {
        assert(d.len() > 0 ==> digit(d[0]));
        assert(unsigned(bare(t)) =~= d);
        assert(t[0] == b[0]);
    }
}

/// The two conversions agree on a text that holds neither a point nor a space between its ends.
pub proof fn conversions_agree(s: Seq<char>)
    requires
        forall|i: int|
            0 <= i < trimmed(s).len() ==> !(separator(#[trigger] trimmed(s)[i], true)
                && trimmed(s)[i] != ','),
    ensures
        count_value(s) == plain_value(s),
{
    let t = trimmed(s);
    let b = unsigned(t);
    trimming_is_stable(s);
    let from = t.len() - b.len();
    assert forall|i: int| 0 <= i < b.len() implies b[i] != '.' && (separator(#[trigger] b[i], true)
        ==> b[i] == ',') by {
        assert(b[i] == t[i + from]);
    }
    point_is_first(b, b.len() as int);
    assert(whole(b) =~= b);
    assert(fraction(b) =~= Seq::<char>::empty());
    assert(strip_back(fraction(b)) =~= Seq::<char>::empty());
    if grouped(b, true) {
        assert forall|i: int| 0 <= i < b.len() implies if (b.len() - i) % 4 == 0 {
            separator(#[trigger] b[i], false)
        } else {
            digit(b[i])
        } by {
            assert(if (b.len() - i) % 4 == 0 {
                separator(b[i], true)
            } else {
                digit(b[i])
            });
        }
        assert(grouped(b, false));
        assert(plain_shape(t));
        let u = bare(t);
        bare_facts(t);
        no_white_in_bare(t);
        bare_of_grouped(t);
        assert(t[t.len() - 4] == ',') by {
            assert(b[b.len() - 4] == t[t.len() - 4]);
            assert(separator(b[b.len() - 4], false));
        }
        assert forall|i: int| 0 <= i < t.len() && !digit(#[trigger] t[i]) && !sign(t[i]) implies t[i]
            == t[t.len() - 4] by {
            assert(i >= from);
            assert(b[i - from] == t[i]);
        }
        assert(one_separator(t));
        let d = only_digits(b);
        filter_keeps_digits(b);
        assert(digit(b[0]));
        assert(digits(d));
        assert forall|i: int| 0 <= i < d.len() implies d[i] != '.' by {
            assert(digit(d[i]));
        }
        point_is_first(d, d.len() as int);
        assert(whole(d) =~= d);
        assert(fraction(d) =~= Seq::<char>::empty());
        filter_all(d);
        assert(plain_shape(u));
        assert(canonical(u) =~= canonical(t));
    } else if plain_shape(t) {
        let n = canonical(t);
        canonical_parts(t);
        assert forall|i: int| 0 <= i < n.len() implies n[i] != '.' by {
            let w = strip_front(only_digits(whole(b)));
            let k = if unsigned(n) == n {
                i
            } else {
                i - 1
            };
            if 0 <= k {
                assert(unsigned(n)[k] == n[i]);
                assert(digit(w[k]));
            }
        }
    }
}

/// Whether `t` between `from` and `to` is made of digits only.
pub open spec fn all_digits(t: Seq<char>, from: int, to: int) -> bool {
    from < to && forall|i: int| from <= i < to ==> '0' <= #[trigger] t[i] && t[i] <= '9'
}

/// Whether `t` between `from` and `to` is one to three digits and then groups of the character `mark`
/// and three digits.
pub open spec fn in_groups(t: Seq<char>, from: int, to: int, mark: char) -> bool {
    &&& to - from > 4
    &&& (to - from) % 4 != 0
    &&& forall|i: int|
        from <= i < to ==> if (to - i) % 4 == 0 {
            #[trigger] t[i] == mark
        } else {
            '0' <= t[i] && t[i] <= '9'
        }
}

proof fn digits_between(t: Seq<char>, from: int, to: int)
    requires
        0 <= from <= to <= t.len(),
    ensures
        all_digits(t, from, to) <==> digits(t.subrange(from, to)),
{
    let w = t.subrange(from, to);
    if digits(w) {
        assert forall|i: int| from <= i < to implies '0' <= #[trigger] t[i] && t[i] <= '9' by {
            assert(w[i - from] == t[i]);
            assert(digit(w[i - from]));
        }
    }
    if all_digits(t, from, to) {
        assert forall|i: int| 0 <= i < w.len() implies digit(#[trigger] w[i]) by {
            assert(w[i] == t[from + i]);
        }
    }
}

proof fn groups_between(t: Seq<char>, from: int, to: int)
    requires
        0 <= from <= to <= t.len(),
    ensures
        in_groups(t, from, to, ',') <==> grouped(t.subrange(from, to), false),
{
    let w = t.subrange(from, to);
    if grouped(w, false) {
        assert forall|i: int| from <= i < to implies if (to - i) % 4 == 0 {
            #[trigger] t[i] == ','
        } else {
            '0' <= t[i] && t[i] <= '9'
        } by {
            assert(w[i - from] == t[i]);
        }
    }
    if in_groups(t, from, to, ',') {
        assert forall|i: int| 0 <= i < w.len() implies if (w.len() - i) % 4 == 0 {
            separator(#[trigger] w[i], false)
        } else {
            digit(w[i])
        } by {
            assert(w[i] == t[from + i]);
        }
    }
}

/// Of a grouped number every fourth character is no digit.
proof fn digits_of_groups(w: Seq<char>, wide: bool)
    requires
        forall|i: int|
            0 <= i < w.len() ==> if (w.len() - i) % 4 == 0 {
                separator(#[trigger] w[i], wide)
            } else {
                digit(w[i])
            },
    ensures
        only_digits(w).len() == w.len() - w.len() / 4,
    decreases w.len(),
{
    reveal(Seq::filter);
    if w.len() >= 4 {
        let n = w.len() as int;
        let rest = w.take(n - 4);
        let group = w.skip(n - 4);
        assert(w =~= rest + group);
        filter_parts(rest, group);
        assert forall|i: int| 0 <= i < rest.len() implies if (rest.len() - i) % 4 == 0 {
            separator(#[trigger] rest[i], wide)
        } else {
            digit(rest[i])
        } by {
            assert(rest[i] == w[i]);
            assert((n - i) % 4 == (n - 4 - i) % 4);
        }
        digits_of_groups(rest, wide);
        assert(separator(w[n - 4], wide));
        assert(digit(w[n - 3]) && digit(w[n - 2]) && digit(w[n - 1]));
        let three = group.skip(1);
        assert(group =~= seq![w[n - 4]] + three);
        filter_parts(seq![w[n - 4]], three);
        filter_other(w[n - 4]);
        assert forall|i: int| 0 <= i < three.len() implies digit(#[trigger] three[i]) by {
            assert(three[i] == w[n - 3 + i]);
        }
        filter_all(three);
        assert(three.len() == 3);
    } else {
        assert forall|i: int| 0 <= i < w.len() implies digit(#[trigger] w[i]) by {
            assert((w.len() - i) % 4 != 0);
        }
        filter_all(w);
    }
}

/// Which texts are plain numbers. White space at the ends does not count. A sign may stand first; then
/// come digits, which may be grouped in threes by commas, and a point with digits behind it may follow.
/// There are fifteen digits at most. Here the sign takes up `q` characters, and the first point stands
/// at `p`.
pub proof fn plain_numbers_have_their_shape(s: Seq<char>, q: int, p: int)
    requires
        q == (if trimmed(s).len() > 0 && (trimmed(s)[0] == '+' || trimmed(s)[0] == '-') {
            1int
        } else {
            0
        }),
        q <= p <= trimmed(s).len(),
        forall|i: int| 0 <= i < p ==> trimmed(s)[i] != '.',
        p < trimmed(s).len() ==> trimmed(s)[p] == '.',
    ensures
        ({
            let t = trimmed(s);
            let n = t.len() as int;
            let behind = if p < n {
                n - p - 1
            } else {
                0
            };
            plain_value(s) is Some <==> {
                &&& all_digits(t, q, p) && p - q + behind <= 15 || in_groups(t, q, p, ',') && p - q
                    - (p - q) / 4 + behind <= 15
                &&& p < n ==> all_digits(t, p + 1, n)
            }
        }),
{
    let t = trimmed(s);
    let b = unsigned(t);
    let n = t.len() as int;
    assert(b =~= t.subrange(q, n));
    assert forall|i: int| 0 <= i < p - q implies b[i] != '.' by {
        assert(b[i] == t[q + i]);
    }
    assert(p < n ==> b[p - q] == t[p]);
    point_is_first(b, p - q);
    let w = t.subrange(q, p);
    assert(whole(b) =~= w);
    digits_between(t, q, p);
    groups_between(t, q, p);
    if p < n {
        assert(fraction(b) =~= t.subrange(p + 1, n));
        digits_between(t, p + 1, n);
    } else {
        assert(fraction(b) =~= Seq::<char>::empty());
    }
    digit_count_of_parts(t);
    if plain_shape(t) {
        filter_all(fraction(b));
        if digits(w) {
            filter_all(w);
            if grouped(w, false) {
                assert(separator(w[w.len() - 4], false));
                assert(digit(w[w.len() - 4]));
            }
        } else {
            digits_of_groups(w, false);
        }
        if in_groups(t, q, p, ',') && all_digits(t, q, p) {
            assert(t[p - 4] == ',');
        }
    }
}

/// The numeral of a plain number without needless zeros and without commas is the number itself, but
/// for a plus sign before it.
pub proof fn numerals_stay_as_they_are(t: Seq<char>, w: Seq<char>, f: Seq<char>)
    requires
        digits(w),
        w.len() > 1 ==> w[0] != '0',
        f.len() > 0 ==> digits(f) && f.last() != '0',
        w.len() + f.len() <= 15,
        t == (if f.len() > 0 {
            w + seq!['.'] + f
        } else {
            w
        }),
    ensures
        plain_value(t) == Some(t),
        plain_value(seq!['+'] + t) == Some(t),
        plain_value(seq!['-'] + t) == Some(seq!['-'] + t),
        f.len() == 0 ==> count_value(t) == Some(t) && count_value(seq!['-'] + t) == Some(
            seq!['-'] + t,
        ),
{
    let plus = seq!['+'] + t;
    let minus = seq!['-'] + t;
    numeral_parts(t, w, f);
    assert(plus.last() == t.last());
    assert(minus.last() == t.last());
    nothing_is_trimmed(t);
    nothing_is_trimmed(plus);
    nothing_is_trimmed(minus);
    assert(unsigned(t) == t);
    assert(unsigned(plus) =~= t);
    assert(unsigned(minus) =~= t);
    signed_numerals(t, w, f, t);
    signed_numerals(t, w, f, plus);
    signed_numerals(t, w, f, minus);
    if f.len() == 0 {
        whole_numerals_are_counts(t, t);
        whole_numerals_are_counts(t, minus);
    }
}

proof fn whole_numerals_are_counts(t: Seq<char>, s: Seq<char>)
    requires
        digits(t),
        trimmed(s) == s,
        unsigned(s) == t,
    ensures
        count_value(s) == plain_value(s),
{
    assert forall|i: int| 0 <= i < s.len() implies !separator(#[trigger] s[i], true) by {
        if s.len() > t.len() {
            if i > 0 {
                assert(s[i] == t[i - 1]);
                assert(digit(t[i - 1]));
            }
        } else {
            assert(digit(t[i]));
        }
    }
    conversions_agree(s);
}

/// The parts of a numeral without needless zeros.
proof fn numeral_parts(t: Seq<char>, w: Seq<char>, f: Seq<char>)
    requires
        digits(w),
        w.len() > 1 ==> w[0] != '0',
        f.len() > 0 ==> digits(f) && f.last() != '0',
        t == (if f.len() > 0 {
            w + seq!['.'] + f
        } else {
            w
        }),
    ensures
        t.len() > 0,
        digit(t[0]),
        digit(t.last()),
        whole(t) == w,
        fraction(t) == f,
        point(t) < t.len() ==> f.len() > 0,
        strip_front(only_digits(w)) == w,
        strip_back(f) == f,
        only_digits(w) == w,
        only_digits(f) == f,
        t == w + (if f.len() == 0 {
            Seq::<char>::empty()
        } else {
            seq!['.'] + f
        }),
{
    assert(digit(w[0]) && digit(w[w.len() - 1]));
    if f.len() > 0 {
        assert(digit(f[f.len() - 1]));
        assert(t[t.len() - 1] == f[f.len() - 1]);
        assert(t =~= w + (seq!['.'] + f));
    } else {
        assert(w =~= w + Seq::<char>::empty());
        assert(f =~= Seq::<char>::empty());
    }
    assert(t[0] == w[0]);
    assert forall|i: int| 0 <= i < w.len() implies t[i] != '.' by {
        assert(t[i] == w[i]);
        assert(digit(w[i]));
    }
    if f.len() > 0 {
        assert(t[w.len() as int] == '.');
    }
    point_is_first(t, w.len() as int);
    assert(whole(t) =~= w);
    assert(fraction(t) =~= f);
    filter_all(w);
    filter_all(f);
}

proof fn signed_numerals(t: Seq<char>, w: Seq<char>, f: Seq<char>, s: Seq<char>)
    requires
        digits(w),
        w.len() > 1 ==> w[0] != '0',
        f.len() > 0 ==> digits(f) && f.last() != '0',
        w.len() + f.len() <= 15,
        t == (if f.len() > 0 {
            w + seq!['.'] + f
        } else {
            w
        }),
        s.len() > 0,
        unsigned(s) == t,
        trimmed(s) == s,
    ensures
        plain_value(s) == Some(
            if s[0] == '-' {
                seq!['-'] + t
            } else {
                t
            },
        ),
{
    numeral_parts(t, w, f);
    digit_count_of_parts(s);
    assert(plain_shape(s));
    let tail = if f.len() == 0 {
        Seq::<char>::empty()
    } else {
        seq!['.'] + f
    };
    assert(t == w + tail);
    assert(seq!['-'] + w + tail =~= seq!['-'] + (w + tail));
    assert(Seq::<char>::empty() + w + tail =~= w + tail);
}

/// Nothing is trimmed where no white space stands at the ends.
proof fn nothing_is_trimmed(s: Seq<char>)
    requires
        s.len() > 0,
        !white(s[0]),
        !white(s.last()),
    ensures
        trimmed(s) == s,
{
}

/// Which texts are counts. Digits in groups of three are one, whatever stands between the groups, so
/// long as it is the same everywhere: the number that the digits stand for. Where it is not the same,
/// there is no count.
pub proof fn grouped_counts_are_integers(s: Seq<char>, q: int, mark: char)
    requires
        q == (if trimmed(s).len() > 0 && (trimmed(s)[0] == '+' || trimmed(s)[0] == '-') {
            1int
        } else {
            0
        }),
        in_groups(trimmed(s), q, trimmed(s).len() as int, mark),
        mark == ',' || mark == '.' || mark == ' ' || mark == '\u{a0}' || mark == '\u{202f}',
    ensures
        ({
            let t = trimmed(s);
            let plain = Seq::new(
                t.len(),
                |i: int|
                    if i >= q && (t.len() - i) % 4 == 0 {
                        ','
                    } else {
                        t[i]
                    },
            );
            count_value(s) == plain_value(plain)
        }),
{
    let t = trimmed(s);
    let n = t.len() as int;
    let plain = Seq::new(
        t.len(),
        |i: int|
            if i >= q && (t.len() - i) % 4 == 0 {
                ','
            } else {
                t[i]
            },
    );
    let b = unsigned(t);
    let c = unsigned(plain);
    assert(b =~= t.subrange(q, n));
    assert((n - q) % 4 != 0);
    assert(n > 4);
    assert(plain[0] == t[0]);
    assert(c =~= plain.subrange(q, n));
    assert forall|i: int| 0 <= i < b.len() implies if (b.len() - i) % 4 == 0 {
        separator(#[trigger] b[i], true)
    } else {
        digit(b[i])
    } by {
        assert(b[i] == t[q + i]);
    }
    assert forall|i: int| 0 <= i < c.len() implies if (c.len() - i) % 4 == 0 {
        separator(#[trigger] c[i], false)
    } else {
        digit(c[i])
    } by {
        assert(c[i] == plain[q + i]);
        assert(b[i] == t[q + i]);
    }
    assert(grouped(b, true));
    assert(grouped(c, false) && grouped(c, true));
    assert(t[n - 4] == mark);
    assert forall|i: int| 0 <= i < t.len() && !digit(#[trigger] t[i]) && !sign(t[i]) implies t[i]
        == t[t.len() - 4] by {
        assert(i >= q);
        assert((n - i) % 4 == 0);
    }
    assert(one_separator(t));
    same_bare(t, plain);
    let u = bare(t);
    // The plain text is read as its digits are.
    assert(digit(b[b.len() - 1]) && digit(t[n - 1])) by {
        assert(b[b.len() - 1] == t[n - 1]);
        assert((b.len() - (b.len() - 1)) % 4 == 1);
    }
    assert(!white(t[0])) by {
        if q == 0 {
            assert(b[0] == t[0]);
            assert(b.len() % 4 != 0);
            assert(digit(b[0]));
        }
    }
    assert(plain.last() == t[n - 1]);
    assert(trimmed(plain) == plain);
    assert forall|i: int| 0 <= i < plain.len() implies !(separator(#[trigger] plain[i], true)
        && plain[i] != ',') by {
        if i >= q {
            if (n - i) % 4 != 0 {
                assert(plain[i] == t[i]);
                assert(b[i - q] == t[i]);
            }
        }
    }
    conversions_agree(plain);
    assert(plain[n - 4] == ',');
    assert forall|i: int| 0 <= i < plain.len() && !digit(#[trigger] plain[i]) && !sign(
        plain[i],
    ) implies plain[i] == plain[plain.len() - 4] by {
        assert(i >= q);
        if (n - i) % 4 != 0 {
            assert(plain[i] == t[i]);
            assert(b[i - q] == t[i]);
        }
    }
    assert(one_separator(plain));
}

proof fn same_bare(a: Seq<char>, b: Seq<char>)
    requires
        a.len() == b.len(),
        forall|i: int|
            0 <= i < a.len() ==> #[trigger] a[i] == b[i] || (!digit(a[i]) && !sign(a[i]) && !digit(
                b[i],
            ) && !sign(b[i])),
    ensures
        bare(a) == bare(b),
    decreases a.len(),
{
    reveal(Seq::filter);
    if a.len() > 0 {
        let x = a.drop_last();
        let y = b.drop_last();
        assert forall|i: int| 0 <= i < x.len() implies #[trigger] x[i] == y[i] || (!digit(x[i])
            && !sign(x[i]) && !digit(y[i]) && !sign(y[i])) by {
            assert(x[i] == a[i] && y[i] == b[i]);
        }
        same_bare(x, y);
        assert(a[a.len() - 1] == b[b.len() - 1] || (!digit(a[a.len() - 1]) && !sign(
            a[a.len() - 1],
        ) && !digit(b[b.len() - 1]) && !sign(b[b.len() - 1])));
    } else {
        assert(a =~= b);
    }
}

/// Digits in groups of three with different separators between them are no count.
pub proof fn mixed_separators_are_no_count(s: Seq<char>, i: int, j: int)
    requires
        0 <= i < trimmed(s).len(),
        0 <= j < trimmed(s).len(),
        separator(trimmed(s)[i], true),
        separator(trimmed(s)[j], true),
        trimmed(s)[i] != trimmed(s)[j],
        grouped(unsigned(trimmed(s)), true),
    ensures
        count_value(s) is None,
{
    let t = trimmed(s);
    assert(!digit(t[i]) && !sign(t[i]) && !digit(t[j]) && !sign(t[j]));
    assert(!one_separator(t));
}

/// A text that is not digits in groups is a count where it is a plain number without a fraction, and
/// then that number.
pub proof fn other_counts_are_plain_numbers(s: Seq<char>)
    requires
        !grouped(unsigned(trimmed(s)), true),
    ensures
        match plain_value(s) {
            None => count_value(s) is None,
            Some(n) => count_value(s) == (if n.contains('.') {
                None
            } else {
                Some(n)
            }),
        },
{
    trimming_is_stable(s);
}

proof fn no_front_zero(w: Seq<char>)
    ensures
        strip_front(w).len() > 1 ==> strip_front(w)[0] != '0',
    decreases w.len(),
{
    if w.len() > 1 && w[0] == '0' {
        no_front_zero(w.drop_first());
    }
}

proof fn no_back_zero(f: Seq<char>)
    ensures
        strip_back(f).len() > 0 ==> strip_back(f).last() != '0',
    decreases f.len(),
{
    if f.len() > 0 && f.last() == '0' {
        no_back_zero(f.drop_last());
    }
}

/// The numeral that a text converts to has no needless character: a minus sign or none, digits that start
/// with a zero only where there is one digit, and a point only where digits follow, of which the last one
/// is no zero. There are no commas, no spaces and no plus sign in it.
pub proof fn numerals_are_short(s: Seq<char>)
    requires
        plain_value(s) is Some,
    ensures
        ({
            let n = plain_value(s)->Some_0;
            exists|w: Seq<char>, f: Seq<char>|
                #![trigger all_digits(w, 0, w.len() as int), all_digits(f, 0, f.len() as int)]
                {
                    &&& all_digits(w, 0, w.len() as int)
                    &&& w.len() > 1 ==> w[0] != '0'
                    &&& f.len() > 0 ==> all_digits(f, 0, f.len() as int) && f[f.len() - 1] != '0'
                    &&& n == (if trimmed(s)[0] == '-' {
                        seq!['-']
                    } else {
                        Seq::empty()
                    }) + w + (if f.len() > 0 {
                        seq!['.'] + f
                    } else {
                        Seq::empty()
                    })
                }
        }),
{
    let t = trimmed(s);
    let b = unsigned(t);
    canonical_parts(t);
    let w = strip_front(only_digits(whole(b)));
    let f = strip_back(fraction(b));
    no_front_zero(only_digits(whole(b)));
    no_back_zero(fraction(b));
    assert(t.len() > 0) by {
        if t.len() == 0 {
            assert(whole(b).len() == 0);
        }
    }
    assert forall|i: int| 0 <= i < w.len() implies '0' <= #[trigger] w[i] && w[i] <= '9' by {
        assert(digit(w[i]));
    }
    assert forall|i: int| 0 <= i < f.len() implies '0' <= #[trigger] f[i] && f[i] <= '9' by {
        assert(digit(f[i]));
    }
    assert(all_digits(w, 0, w.len() as int));
    assert(all_digits(f, 0, f.len() as int) <==> f.len() > 0);
}

} // verus!
