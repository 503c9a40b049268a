//! Columns of a worksheet: their numbers, from one on, and their letters.

use crate::text::{chars, to_upper, upper, upper_char};
use vstd::prelude::*;

verus! {

/// The capital letter with the given place in the alphabet, from zero on.
pub open spec fn letter(d: nat) -> char {
    (('A' as u32 + d) as u32) as char
}

/// The letters of a column: `A` to `Z`, then `AA` to `ZZ`, and so on. Column zero has none.
pub open spec fn column_name(n: nat) -> Seq<char>
    decreases n,
{
    if n == 0 {
        Seq::empty()
    } else {
        column_name(((n - 1) / 26) as nat).push(letter(((n - 1) % 26) as nat))
    }
}

/// An ASCII letter.
pub open spec fn alphabetic(c: char) -> bool {
    ('A' <= c && c <= 'Z') || ('a' <= c && c <= 'z')
}

/// The place of a letter in the alphabet, from one on.
pub open spec fn letter_value(c: char) -> nat {
    (upper_char(c) as u32 - 'A' as u32 + 1) as nat
}

/// How many letters `s` starts with.
pub open spec fn letter_count(s: Seq<char>) -> nat
    decreases s.len(),
{
    if s.len() > 0 && alphabetic(s[0]) {
        1 + letter_count(s.drop_first())
    } else {
        0
    }
}

/// The number of the column with the given letters.
pub open spec fn column_value(s: Seq<char>) -> nat
    decreases s.len(),
{
    if s.len() == 0 {
        0
    } else {
        column_value(s.drop_last()) * 26 + letter_value(s.last())
    }
}

/// The number of the column that a cell reference such as `AB12` names.
pub open spec fn column_of(s: Seq<char>) -> nat {
    column_value(s.take(letter_count(s) as int))
}

/// The letters of column `col`.
pub fn col_name(col: usize) -> (r: String)
    ensures
        r@ == column_name(col as nat),
{
    let mut back: Vec<char> = Vec::new();
    let mut n: usize = col;
    let ghost mut tail: Seq<char> = Seq::empty();
    assert(back@.reverse() =~= tail);
    assert(column_name(n as nat) + tail =~= column_name(n as nat));
    while n > 0
        invariant
            column_name(col as nat) == column_name(n as nat) + tail,
            tail == back@.reverse(),
        decreases n,
    {
        let d: char = (65 + ((n - 1) % 26) as u8) as char;
        back.push(d);
        proof {
            let old_tail = tail;
            tail = seq![d] + tail;
            assert(back@.reverse() =~= tail);
            assert(column_name(n as nat) + old_tail =~= column_name(((n - 1) / 26) as nat) + tail);
        }
        n = (n - 1) / 26;
    }
    assert(column_name(0) + tail =~= tail);
    let mut r: String = String::new();
    let mut i: usize = back.len();
    while i > 0
        invariant
            i <= back.len(),
            r@ == back@.reverse().take(back@.len() - i),
        decreases i,
    {
        i = i - 1;
        r.push(back[i]);
        assert(back@.reverse().take(back@.len() - i) =~= back@.reverse().take(
            back@.len() - i - 1,
        ).push(back@[i as int]));
    }
    assert(back@.reverse().take(back@.len() as int) =~= back@.reverse());
    r
}

/// Whether `c` is an ASCII letter.
fn is_alphabetic(c: char) -> (r: bool)
    ensures
        r == alphabetic(c),
{
    ('A' <= c && c <= 'Z') || ('a' <= c && c <= 'z')
}

/// The number of the column that a cell reference names, as far as it fits a machine word.
pub fn col_number(s: &str) -> (r: usize)
    ensures
        r == column_of(s@) % (usize::MAX as nat + 1),
{
    let x: Vec<char> = chars(s);
    let mut n: usize = 0;
    let mut i: usize = 0;
    assert(x@.skip(0) =~= x@);
    assert(x@.take(0) =~= Seq::<char>::empty());
    assert(0nat % (usize::MAX as nat + 1) == 0) by (nonlinear_arith);
    while i < x.len() && is_alphabetic(x[i])
        invariant
            x@ == s@,
            i <= x.len(),
            letter_count(s@) == i + letter_count(x@.skip(i as int)),
            n == column_value(x@.take(i as int)) % (usize::MAX as nat + 1),
        decreases x.len() - i,
    {
        let d: usize = (to_upper(x[i]) as u32 - 64) as usize;
        let ghost m = usize::MAX as nat + 1;
        let ghost v = column_value(x@.take(i as int));
        proof {
            assert(x@.skip(i as int).drop_first() =~= x@.skip(i + 1));
            assert(x@.take(i + 1).drop_last() =~= x@.take(i as int));
            assert(column_value(x@.take(i + 1)) == v * 26 + d);
            wrapping_step(v as int, d as int, m as int);
        }
        n = n.wrapping_mul(26).wrapping_add(d);
        i = i + 1;
    }
    assert(letter_count(x@.skip(i as int)) == 0);
    n
}

/// Reducing at every step gives what reducing at the end gives.
proof fn wrapping_step(v: int, d: int, m: int)
    requires
        m > 0,
    ensures
        (((v % m) * 26) % m + d) % m == (v * 26 + d) % m,
{
    vstd::arithmetic::div_mod::lemma_mul_mod_noop_left(v, 26, m);
    vstd::arithmetic::div_mod::lemma_add_mod_noop(v * 26, d, m);
    vstd::arithmetic::div_mod::lemma_add_mod_noop((v % m) * 26, d, m);
    vstd::arithmetic::div_mod::lemma_add_mod_noop(((v % m) * 26) % m, d, m);
    vstd::arithmetic::div_mod::lemma_mod_twice((v % m) * 26, m);
}

/// The letters of a column name that column, also where something else follows them.
pub proof fn names_are_read_back(n: nat, rest: Seq<char>)
    requires
        rest.len() > 0 ==> !alphabetic(rest[0]),
    ensures
        column_of(column_name(n) + rest) == n,
{
    name_is_letters(n);
    count_letters(column_name(n), rest);
    assert((column_name(n) + rest).take(column_name(n).len() as int) =~= column_name(n));
}

/// A name is made of letters and has its number as value.
proof fn name_is_letters(n: nat)
    ensures
        forall|i: int| 0 <= i < column_name(n).len() ==> alphabetic(#[trigger] column_name(n)[i]),
        column_value(column_name(n)) == n,
    decreases n,
{
    if n > 0 {
        let m = ((n - 1) / 26) as nat;
        name_is_letters(m);
        assert(column_name(n).drop_last() =~= column_name(m));
    }
}

/// All of the letters that `s` starts with are counted.
proof fn count_letters(s: Seq<char>, rest: Seq<char>)
    requires
        forall|i: int| 0 <= i < s.len() ==> alphabetic(#[trigger] s[i]),
        rest.len() > 0 ==> !alphabetic(rest[0]),
    ensures
        letter_count(s + rest) == s.len(),
    decreases s.len(),
{
    if s.len() > 0 {
        assert((s + rest).drop_first() =~= s.drop_first() + rest);
        assert((s + rest)[0] == s[0]);
        count_letters(s.drop_first(), rest);
    } else {
        assert(s + rest =~= rest);
    }
}

/// Letters are the name of the column whose number they are read as, up to letter case.
pub proof fn numbers_are_written_back(s: Seq<char>)
    requires
        forall|i: int| 0 <= i < s.len() ==> alphabetic(#[trigger] s[i]),
    ensures
        column_name(column_value(s)) == upper(s),
    decreases s.len(),
{
    if s.len() > 0 {
        let t = s.drop_last();
        numbers_are_written_back(t);
        let v = column_value(t);
        let d = letter_value(s.last());
        assert(alphabetic(s[s.len() - 1]));
        assert(1 <= d <= 26);
        assert((v * 26 + d - 1) / 26 == v && (v * 26 + d - 1) % 26 == d - 1);
        assert(letter((d - 1) as nat) == upper_char(s.last()));
        assert(upper(s) =~= upper(t).push(upper_char(s.last())));
    } else {
        assert(upper(s) =~= Seq::<char>::empty());
    }
}

/// Columns are counted in letters: `A` to `Z` are 1 to 26, and each further letter makes the number 26
/// times as large and adds its own, whatever its case.
pub proof fn columns_count_in_letters(s: Seq<char>, c: char)
    ensures
        column_value(Seq::empty()) == 0,
        65 <= c as int <= 90 ==> column_value(s.push(c)) == 26 * column_value(s) + (c as int - 64),
        97 <= c as int <= 122 ==> column_value(s.push(c)) == 26 * column_value(s) + (c as int - 96),
{
    assert(s.push(c).drop_last() =~= s);
}

/// A column has a name of capital letters, and the first 26 columns have one letter each.
pub proof fn names_are_capital_letters(n: nat, i: int)
    requires
        0 <= i < column_name(n).len(),
    ensures
        65 <= column_name(n)[i] as int <= 90,
        1 <= n <= 26 ==> column_name(n).len() == 1 && column_name(n)[0] as int == 64 + n,
    decreases n,
{
    if n > 0 {
        let m = ((n - 1) / 26) as nat;
        if i < column_name(m).len() {
            names_are_capital_letters(m, i);
        }
        if n <= 26 {
            assert(m == 0);
        }
    }
}

/// A cell reference names the column of its letters; what stands behind them does not count.
pub proof fn references_name_columns(letters: Seq<char>, rest: Seq<char>)
    requires
        forall|i: int|
            0 <= i < letters.len() ==> 65 <= (#[trigger] letters[i]) as int <= 90 || 97
                <= letters[i] as int <= 122,
        rest.len() > 0 ==> !(65 <= rest[0] as int <= 90) && !(97 <= rest[0] as int <= 122),
    ensures
        column_of(letters + rest) == column_value(letters),
{
    assert forall|i: int| 0 <= i < letters.len() implies alphabetic(#[trigger] letters[i]) by {
    }
    count_letters(letters, rest);
    assert((letters + rest).take(letters.len() as int) =~= letters);
}

} // verus!
