//! How deep the elements of an XML text are nested, told from its characters.

use crate::text::{chars, is_at, stands_at};
use vstd::prelude::*;

verus! {

/// The position behind the first `p` that stands in `s` at position `i` or later; the end of `s` where
/// there is none.
pub open spec fn behind(s: Seq<char>, p: Seq<char>, i: int) -> int
    decreases s.len() - i,
{
    if i >= s.len() {
        s.len() as int
    } else if stands_at(s, p, i) {
        i + p.len()
    } else {
        behind(s, p, i + 1)
    }
}

/// The position of the character that ends the tag in which position `i` lies, within quotation marks
/// of the given kind or outside of them; the end of `s` where there is none.
pub open spec fn tag_end(s: Seq<char>, i: int, quote: Option<char>) -> int
    decreases s.len() - i,
{
    if i >= s.len() {
        s.len() as int
    } else {
        match quote {
            Some(q) => if s[i] == q {
                tag_end(s, i + 1, None)
            } else {
                tag_end(s, i + 1, quote)
            },
            None => if s[i] == '>' {
                i
            } else if s[i] == '"' || s[i] == '\'' {
                tag_end(s, i + 1, Some(s[i]))
            } else {
                tag_end(s, i + 1, None)
            },
        }
    }
}

/// What is looked for lies behind the position from which it is.
pub proof fn behind_is_later(s: Seq<char>, p: Seq<char>, i: int)
    requires
        0 <= i <= s.len(),
    ensures
        i <= behind(s, p, i) <= s.len(),
    decreases s.len() - i,
{
    if i < s.len() && !stands_at(s, p, i) {
        behind_is_later(s, p, i + 1);
    }
}

/// A tag ends behind the position from which its end is looked for.
pub proof fn tags_end_later(s: Seq<char>, i: int, quote: Option<char>)
    requires
        0 <= i <= s.len(),
    ensures
        i <= tag_end(s, i, quote) <= s.len(),
    decreases s.len() - i,
{
    if i < s.len() {
        match quote {
            Some(q) => {
                if s[i] == q {
                    tags_end_later(s, i + 1, None);
                } else {
                    tags_end_later(s, i + 1, quote);
                }
            },
            None => {
                if s[i] == '"' || s[i] == '\'' {
                    tags_end_later(s, i + 1, Some(s[i]));
                } else if s[i] != '>' {
                    tags_end_later(s, i + 1, None);
                }
            },
        }
    }
}

/// The greater one of two numbers.
pub open spec fn greater(a: nat, b: nat) -> nat {
    if a > b {
        a
    } else {
        b
    }
}

/// How deep elements are nested from position `i` of `s` on, where they are `depth` deep there. What
/// stands in comments, in character data and in instructions is not looked at. An empty element is
/// one deeper than what it stands in.
pub open spec fn nesting_from(s: Seq<char>, i: int, depth: nat) -> nat
    decreases s.len() - i,
{
    if i < 0 || i >= s.len() {
        depth
    } else if stands_at(s, "<!--"@, i) {
        proof {
            reveal_strlit("<!--");
            behind_is_later(s, "-->"@, i + 4);
        }
        nesting_from(s, behind(s, "-->"@, i + 4), depth)
    } else if stands_at(s, "<![CDATA["@, i) {
        proof {
            reveal_strlit("<![CDATA[");
            behind_is_later(s, "]]>"@, i + 9);
        }
        nesting_from(s, behind(s, "]]>"@, i + 9), depth)
    } else if stands_at(s, "<?"@, i) {
        proof {
            reveal_strlit("<?");
            behind_is_later(s, "?>"@, i + 2);
        }
        nesting_from(s, behind(s, "?>"@, i + 2), depth)
    } else if stands_at(s, "</"@, i) {
        nesting_from(
            s,
            i + 1,
            if depth == 0 {
                0
            } else {
                (depth - 1) as nat
            },
        )
    } else if s[i] == '<' {
        let e = tag_end(s, i + 1, None);
        proof {
            tags_end_later(s, i + 1, None);
        }
        if e >= s.len() {
            depth + 1
        } else if s[e - 1] == '/' {
            greater(depth + 1, nesting_from(s, e + 1, depth))
        } else {
            greater(depth + 1, nesting_from(s, e + 1, depth + 1))
        }
    } else {
        nesting_from(s, i + 1, depth)
    }
}

/// How deep the elements of an XML text are nested.
pub open spec fn nesting(s: Seq<char>) -> nat {
    nesting_from(s, 0, 0)
}

/// The position behind the first `p` in `s` at position `i` or later.
fn find_behind(s: &[char], p: &[char], i: usize) -> (r: usize)
    requires
        i <= s.len(),
    ensures
        r == behind(s@, p@, i as int),
        i <= r <= s.len(),
{
    let mut k: usize = i;
    while k < s.len() && !is_at(s, p, k)
        invariant
            i <= k <= s.len(),
            behind(s@, p@, i as int) == behind(s@, p@, k as int),
        decreases s.len() - k,
    {
        k = k + 1;
    }
    if k < s.len() {
        k + p.len()
    } else {
        k
    }
}

/// The position of the character that ends the tag in which position `i` lies.
fn find_tag_end(s: &[char], i: usize) -> (r: usize)
    requires
        i <= s.len(),
    ensures
        r == tag_end(s@, i as int, None),
        i <= r <= s.len(),
{
    let mut k: usize = i;
    let mut quote: Option<char> = None;
    while k < s.len()
        invariant
            i <= k <= s.len(),
            tag_end(s@, i as int, None) == tag_end(s@, k as int, quote),
        decreases s.len() - k,
    {
        let c: char = s[k];
        match quote {
            Some(q) => {
                if c == q {
                    quote = None;
                }
            },
            None => {
                if c == '>' {
                    return k;
                }
                if c == '"' || c == '\'' {
                    quote = Some(c);
                }
            },
        }
        k = k + 1;
    }
    k
}

/// How deep the elements of an XML text are nested.
pub fn nesting_of(text: &str) -> (r: usize)
    ensures
        r == nesting(text@),
{
    let x: Vec<char> = chars(text);
    let s: &[char] = x.as_slice();
    let comment: Vec<char> = chars("<!--");
    let data: Vec<char> = chars("<![CDATA[");
    let instruction: Vec<char> = chars("<?");
    let close: Vec<char> = chars("</");
    let comment_end: Vec<char> = chars("-->");
    let data_end: Vec<char> = chars("]]>");
    let instruction_end: Vec<char> = chars("?>");
    let mut i: usize = 0;
    let mut depth: usize = 0;
    let mut most: usize = 0;
    proof {
        reveal_strlit("<!--");
        reveal_strlit("<![CDATA[");
        reveal_strlit("<?");
        reveal_strlit("</");
    }
    while i < s.len()
        invariant
            s@ == text@,
            comment@ == "<!--"@,
            data@ == "<![CDATA["@,
            instruction@ == "<?"@,
            close@ == "</"@,
            comment_end@ == "-->"@,
            data_end@ == "]]>"@,
            instruction_end@ == "?>"@,
            "<!--"@.len() == 4,
            "<![CDATA["@.len() == 9,
            "<?"@.len() == 2,
            "</"@.len() == 2,
            "<!--"@[0] == '<' && "<![CDATA["@[0] == '<' && "<?"@[0] == '<' && "</"@[0] == '<',
            i <= s.len(),
            depth <= i,
            most <= i,
            nesting(text@) == greater(most as nat, nesting_from(s@, i as int, depth as nat)),
        decreases s.len() - i,
    {
        if s[i] != '<' {
            assert(!stands_at(s@, "<!--"@, i as int)) by {
                first_of(s@, "<!--"@, i as int);
            }
            assert(!stands_at(s@, "<![CDATA["@, i as int)) by {
                first_of(s@, "<![CDATA["@, i as int);
            }
            assert(!stands_at(s@, "<?"@, i as int)) by {
                first_of(s@, "<?"@, i as int);
            }
            assert(!stands_at(s@, "</"@, i as int)) by {
                first_of(s@, "</"@, i as int);
            }
            i = i + 1;
        } else if is_at(s, comment.as_slice(), i) {
            i = find_behind(s, comment_end.as_slice(), i + 4);
        } else if is_at(s, data.as_slice(), i) {
            i = find_behind(s, data_end.as_slice(), i + 9);
        } else if is_at(s, instruction.as_slice(), i) {
            i = find_behind(s, instruction_end.as_slice(), i + 2);
        } else if is_at(s, close.as_slice(), i) {
            depth = if depth == 0 {
                0
            } else {
                depth - 1
            };
            i = i + 1;
        } else {
            let e: usize = find_tag_end(s, i + 1);
            if e == s.len() {
                return if most > depth + 1 {
                    most
                } else {
                    depth + 1
                };
            }
            if most < depth + 1 {
                most = depth + 1;
            }
            if s[e - 1] != '/' {
                depth = depth + 1;
            }
            i = e + 1;
        }
    }
    if most > depth {
        most
    } else {
        depth
    }
}

/// What stands at a position starts there.
proof fn first_of(s: Seq<char>, p: Seq<char>, i: int)
    ensures
        p.len() > 0 && stands_at(s, p, i) ==> s[i] == p[0],
{
    if p.len() > 0 && stands_at(s, p, i) {
        assert(s.subrange(i, i + p.len())[0] == p[0]);
    }
}

/// Where nothing opens a tag, nothing is nested.
pub proof fn plain_text_is_not_nested(s: Seq<char>)
    requires
        forall|j: int| 0 <= j < s.len() ==> s[j] != '<',
    ensures
        nesting(s) == 0,
{
    plain_rest_is_not_nested(s, 0, 0);
}

proof fn plain_rest_is_not_nested(s: Seq<char>, i: int, depth: nat)
    requires
        0 <= i <= s.len(),
        forall|j: int| i <= j < s.len() ==> s[j] != '<',
    ensures
        nesting_from(s, i, depth) == depth,
    decreases s.len() - i,
{
    if i < s.len() {
        nothing_stands_at(s, i);
        plain_rest_is_not_nested(s, i + 1, depth);
    }
}

proof fn nothing_stands_at(s: Seq<char>, i: int)
    requires
        s[i] != '<' || (i + 1 < s.len() && s[i + 1] != '!' && s[i + 1] != '?'),
    ensures
        !stands_at(s, "<!--"@, i),
        !stands_at(s, "<![CDATA["@, i),
        !stands_at(s, "<?"@, i),
        s[i] != '<' || s[i + 1] != '/' ==> !stands_at(s, "</"@, i),
        0 <= i && i + 1 < s.len() && s[i] == '<' && s[i + 1] == '/' ==> stands_at(s, "</"@, i),
{
    reveal_strlit("<!--");
    reveal_strlit("<![CDATA[");
    reveal_strlit("<?");
    reveal_strlit("</");
    starts_with_two(s, "<!--"@, i);
    starts_with_two(s, "<![CDATA["@, i);
    starts_with_two(s, "<?"@, i);
    starts_with_two(s, "</"@, i);
    if 0 <= i && i + 1 < s.len() && s[i] == '<' && s[i + 1] == '/' {
        assert(s.subrange(i, i + 2) =~= "</"@);
    }
}

proof fn starts_with_two(s: Seq<char>, p: Seq<char>, i: int)
    ensures
        p.len() > 1 && stands_at(s, p, i) ==> s[i] == p[0] && s[i + 1] == p[1],
{
    if p.len() > 1 && stands_at(s, p, i) {
        assert(s.subrange(i, i + p.len())[0] == p[0]);
        assert(s.subrange(i, i + p.len())[1] == p[1]);
    }
}

/// Whether the three characters from `i` on are a tag that opens an element with a name of one letter.
pub open spec fn opens_at(s: Seq<char>, i: int) -> bool {
    &&& 0 <= i && i + 2 < s.len()
    &&& s[i] == '<'
    &&& 'a' <= s[i + 1] <= 'z'
    &&& s[i + 2] == '>'
}

/// Elements that are opened one within the other are as deep as there are of them, and one that is
/// closed before the next one is opened leaves that one no deeper.
pub proof fn elements_are_nested(s: Seq<char>, n: nat)
    ensures
        s.len() == 3 * n && (forall|k: int| 0 <= k < n ==> #[trigger] opens_at(s, 3 * k)) ==> nesting(s)
            == n,
        n > 0 && s.len() == 7 * n && (forall|k: int|
            0 <= k < n ==> #[trigger] opens_at(s, 7 * k) && s[7 * k + 3] == '<' && s[7 * k + 4] == '/'
                && s[7 * k + 5] == s[7 * k + 1] && s[7 * k + 6] == '>') ==> nesting(s) == 1,
{
    if s.len() == 3 * n && (forall|k: int| 0 <= k < n ==> #[trigger] opens_at(s, 3 * k)) {
        opened_are_nested(s, n, 0);
    }
    if n > 0 && s.len() == 7 * n && (forall|k: int|
        0 <= k < n ==> #[trigger] opens_at(s, 7 * k) && s[7 * k + 3] == '<' && s[7 * k + 4] == '/' && s[7
            * k + 5] == s[7 * k + 1] && s[7 * k + 6] == '>') {
        closed_are_not_nested(s, n, 0);
    }
}

proof fn opened_is_deeper(s: Seq<char>, i: int, depth: nat)
    requires
        opens_at(s, i),
    ensures
        nesting_from(s, i, depth) == greater(depth + 1, nesting_from(s, i + 3, depth + 1)),
{
    nothing_stands_at(s, i);
    reveal_with_fuel(tag_end, 3);
    assert(tag_end(s, i + 1, None) == i + 2);
}

proof fn opened_are_nested(s: Seq<char>, n: nat, k: int)
    requires
        0 <= k <= n,
        s.len() == 3 * n,
        forall|k: int| 0 <= k < n ==> #[trigger] opens_at(s, 3 * k),
    ensures
        nesting_from(s, 3 * k, k as nat) == n,
    decreases n - k,
{
    if k < n {
        assert(opens_at(s, 3 * k));
        opened_is_deeper(s, 3 * k, k as nat);
        opened_are_nested(s, n, k + 1);
    }
}

proof fn closed_are_not_nested(s: Seq<char>, n: nat, k: int)
    requires
        0 <= k <= n,
        s.len() == 7 * n,
        forall|k: int|
            0 <= k < n ==> #[trigger] opens_at(s, 7 * k) && s[7 * k + 3] == '<' && s[7 * k + 4] == '/'
                && s[7 * k + 5] == s[7 * k + 1] && s[7 * k + 6] == '>',
    ensures
        nesting_from(s, 7 * k, 0) == (if k < n {
            1nat
        } else {
            0nat
        }),
    decreases n - k,
{
    if k < n {
        let i = 7 * k;
        assert(opens_at(s, 7 * k));
        opened_is_deeper(s, i, 0);
        nothing_stands_at(s, i + 3);
        assert(nesting_from(s, i + 3, 1) == nesting_from(s, i + 4, 0));
        nothing_stands_at(s, i + 4);
        assert(nesting_from(s, i + 4, 0) == nesting_from(s, i + 5, 0));
        nothing_stands_at(s, i + 5);
        assert(nesting_from(s, i + 5, 0) == nesting_from(s, i + 6, 0));
        nothing_stands_at(s, i + 6);
        assert(nesting_from(s, i + 6, 0) == nesting_from(s, i + 7, 0));
        closed_are_not_nested(s, n, k + 1);
    }
}

} // verus!
