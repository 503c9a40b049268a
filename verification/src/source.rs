//! Source files: which files of a directory are sources, and which one of several is taken.

use crate::text::{
    before, before_is_an_order, begins, chars, decimal, has, has_prefix, holds, is_before, lower,
    lower_case, numeral, part, same, stands_at, text,
};
use vstd::prelude::*;
use vstd::string::StringExecFns;

verus! {

/// The bytes of the SHA-256 digest.
pub uninterp spec fn sha256(bytes: Seq<u8>) -> Seq<u8>;

/// `sha2::Sha256::digest`: thirty-two bytes that are a function of the input.
#[verifier::external_body]
fn digest(bytes: &[u8]) -> (r: Vec<u8>)
    ensures
        r@ == sha256(bytes@),
        r@.len() == 32,
{
    <sha2::Sha256 as sha2::Digest>::digest(bytes).to_vec()
}

/// The hexadecimal digit of a number below sixteen.
pub open spec fn hex_digit(n: int) -> char {
    if n < 10 {
        (('0' as u32 + n) as u32) as char
    } else {
        (('a' as u32 + n - 10) as u32) as char
    }
}

/// Bytes in hexadecimal, two lower case digits each.
pub open spec fn hexadecimal(bytes: Seq<u8>) -> Seq<char>
    decreases bytes.len(),
{
    if bytes.len() == 0 {
        Seq::empty()
    } else {
        hexadecimal(bytes.drop_last()).push(hex_digit(bytes.last() as int / 16)).push(
            hex_digit(bytes.last() as int % 16),
        )
    }
}

/// The hexadecimal digit of a number below sixteen.
fn hex_char(n: u8) -> (r: char)
    requires
        n < 16,
    ensures
        r == hex_digit(n as int),
{
    if n < 10 {
        (48 + n) as char
    } else {
        (87 + n) as char
    }
}

/// Bytes in hexadecimal, two lower case digits each.
pub fn hex(bytes: &[u8]) -> (r: String)
    ensures
        r@ == hexadecimal(bytes@),
{
    let mut r: String = String::new();
    let mut i: usize = 0;
    while i < bytes.len()
        invariant
            i <= bytes.len(),
            r@ == hexadecimal(bytes@.take(i as int)),
        decreases bytes.len() - i,
    {
        r.push(hex_char(bytes[i] / 16));
        r.push(hex_char(bytes[i] % 16));
        i = i + 1;
        assert(bytes@.take(i as int).drop_last() =~= bytes@.take(i - 1));
    }
    assert(bytes@.take(bytes@.len() as int) =~= bytes@);
    r
}

/// The fingerprint of the content of a file.
pub open spec fn fingerprint(bytes: Seq<u8>) -> Seq<char> {
    hexadecimal(sha256(bytes))
}

/// The fingerprint of the content of a file.
pub fn hash(bytes: &[u8]) -> (r: String)
    ensures
        r@ == fingerprint(bytes@),
        r@.len() == 64,
{
    let d: Vec<u8> = digest(bytes);
    proof {
        hexadecimal_length(d@);
    }
    hex(d.as_slice())
}

/// Hexadecimal takes two digits for a byte.
pub proof fn hexadecimal_length(bytes: Seq<u8>)
    ensures
        hexadecimal(bytes).len() == 2 * bytes.len(),
    decreases bytes.len(),
{
    if bytes.len() > 0 {
        hexadecimal_length(bytes.drop_last());
    }
}

/// Two contents with the same hexadecimal digest have the same digest.
pub proof fn hexadecimal_loses_nothing(a: Seq<u8>, b: Seq<u8>)
    requires
        hexadecimal(a) == hexadecimal(b),
    ensures
        a == b,
    decreases a.len(),
{
    hexadecimal_length(a);
    hexadecimal_length(b);
    if a.len() > 0 {
        let x = hexadecimal(a);
        let y = hexadecimal(b);
        let n = x.len() as int;
        assert(x[n - 1] == hex_digit(a.last() as int % 16));
        assert(y[n - 1] == hex_digit(b.last() as int % 16));
        assert(x[n - 2] == hex_digit(a.last() as int / 16));
        assert(y[n - 2] == hex_digit(b.last() as int / 16));
        hex_digits_differ(a.last() as int % 16, b.last() as int % 16);
        hex_digits_differ(a.last() as int / 16, b.last() as int / 16);
        assert(a.last() == b.last());
        assert(x.take(n - 2) =~= hexadecimal(a.drop_last()));
        assert(y.take(n - 2) =~= hexadecimal(b.drop_last()));
        hexadecimal_loses_nothing(a.drop_last(), b.drop_last());
        assert(a =~= a.drop_last().push(a.last()));
        assert(b =~= b.drop_last().push(b.last()));
    } else {
        assert(a =~= b);
    }
}

proof fn hex_digits_differ(m: int, n: int)
    requires
        0 <= m < 16,
        0 <= n < 16,
        hex_digit(m) == hex_digit(n),
    ensures
        m == n,
{
}

/// The place of the last point in a file name, if it is not its first character.
pub open spec fn last_point(name: Seq<char>) -> Option<int>
    decreases name.len(),
{
    if name.len() <= 1 {
        None
    } else if name.last() == '.' {
        Some(name.len() - 1)
    } else {
        last_point(name.drop_last())
    }
}

/// The extension of a file name, in lower case; empty where there is none.
pub open spec fn extension_of(name: Seq<char>) -> Seq<char> {
    match last_point(name) {
        Some(i) => lower(name.subrange(i + 1, name.len() as int)),
        None => Seq::empty(),
    }
}

/// A file name without its extension.
pub open spec fn stem_of(name: Seq<char>) -> Seq<char> {
    match last_point(name) {
        Some(i) => name.take(i),
        None => name,
    }
}

/// The place of the last point in a file name, if it is not its first character.
fn find_point(name: &[char]) -> (r: Option<usize>)
    ensures
        last_point(name@) == (match r {
            Some(i) => Some(i as int),
            None => None,
        }),
        r matches Some(i) ==> i < name.len(),
{
    let mut n: usize = name.len();
    assert(name@.take(n as int) =~= name@);
    while n > 1
        invariant
            n <= name.len(),
            last_point(name@) == last_point(name@.take(n as int)),
        decreases n,
    {
        if name[n - 1] == '.' {
            return Some(n - 1);
        }
        assert(name@.take(n as int).drop_last() =~= name@.take(n - 1));
        n = n - 1;
    }
    None
}

/// The extension of a file name, in lower case; empty where there is none.
pub fn extension(name: &str) -> (r: String)
    ensures
        r@ == extension_of(name@),
{
    let x: Vec<char> = chars(name);
    match find_point(x.as_slice()) {
        Some(i) => {
            let rest: Vec<char> = part(x.as_slice(), i + 1, x.len());
            let s: String = text(&rest);
            lower_case(s.as_str())
        },
        None => String::new(),
    }
}

/// A file name without its extension.
pub fn file_stem(name: &str) -> (r: String)
    ensures
        r@ == stem_of(name@),
{
    let x: Vec<char> = chars(name);
    match find_point(x.as_slice()) {
        Some(i) => {
            let front: Vec<char> = part(x.as_slice(), 0, i);
            assert(front@ =~= name@.take(i as int));
            text(&front)
        },
        None => name.to_string(),
    }
}

/// The extensions of workbooks.
pub open spec fn excel_extension(e: Seq<char>) -> bool {
    e == "xlsx"@ || e == "xls"@
}

/// Whether the file with the given name is read as a workbook.
pub fn is_excel(name: &str) -> (r: bool)
    ensures
        r == excel_extension(extension_of(name@)),
{
    let e: String = extension(name);
    same(e.as_str(), "xlsx") || same(e.as_str(), "xls")
}

/// The extensions of sources.
pub open spec fn source_extension(e: Seq<char>) -> bool {
    excel_extension(e) || e == "csv"@ || e == "txt"@ || e == "tsv"@
}

/// A text in lower case, by the rules of Unicode.
pub uninterp spec fn lowercased(s: Seq<char>) -> Seq<char>;

/// `str::to_lowercase`: the result is a function of the text, and on ASCII it changes the capital
/// letters only.
#[verifier::external_body]
fn to_lowercase(s: &str) -> (r: String)
    ensures
        r@ == lowercased(s@),
        (forall|i: int| 0 <= i < s@.len() ==> (#[trigger] s@[i]) as u32 <= 0x7f) ==> r@ == lower(
            s@,
        ),
{
    s.to_lowercase()
}

/// Whether a file is a source by its name, given that name in lower case too: it is not temporary,
/// hidden or a backup, and it has one of the extensions of sources.
pub open spec fn source_name(name: Seq<char>, low: Seq<char>) -> bool {
    &&& !begins(low, "~$"@)
    &&& !begins(low, "."@)
    &&& !holds(low, "backup"@)
    &&& !holds(low, "备份"@)
    &&& source_extension(extension_of(name))
}

/// Whether a file is a source by its name, given that name in lower case too.
pub fn is_source(name: &str, low: &str) -> (r: bool)
    ensures
        r == source_name(name@, low@),
{
    if has_prefix(low, "~$") || has_prefix(low, ".") || has(low, "backup") || has(low, "备份") {
        return false;
    }
    let e: String = extension(name);
    same(e.as_str(), "xlsx") || same(e.as_str(), "xls") || same(e.as_str(), "csv") || same(
        e.as_str(),
        "txt",
    ) || same(e.as_str(), "tsv")
}

/// An entry of a directory: its name, whether it is a file, and when it was modified, in
/// nanoseconds since the epoch (zero where that cannot be told).
pub struct Listed {
    pub name: String,
    pub is_file: bool,
    pub modified: i128,
}

/// An entry of a directory, in contracts.
pub struct ListedView {
    pub name: Seq<char>,
    pub is_file: bool,
    pub modified: int,
}

impl View for Listed {
    type V = ListedView;

    open spec fn view(&self) -> ListedView {
        ListedView { name: self.name@, is_file: self.is_file, modified: self.modified as int }
    }
}

/// The entries of a list, each by its view.
pub open spec fn listing_view(entries: Seq<Listed>) -> Seq<ListedView> {
    Seq::new(entries.len(), |i: int| entries[i]@)
}

/// Whether an entry of a directory is a source.
pub open spec fn is_source_entry(e: ListedView) -> bool {
    e.is_file && source_name(e.name, lowercased(e.name))
}

/// The places of the sources among the first `n` entries, in order.
pub open spec fn source_places(entries: Seq<ListedView>, n: nat) -> Seq<int>
    decreases n,
{
    if n == 0 {
        Seq::empty()
    } else if is_source_entry(entries[n - 1]) {
        source_places(entries, (n - 1) as nat).push(n - 1)
    } else {
        source_places(entries, (n - 1) as nat)
    }
}

/// Places, as numbers.
pub open spec fn places_view(v: Seq<usize>) -> Seq<int> {
    Seq::new(v.len(), |i: int| v[i] as int)
}

/// Whether all places are in a list of the given length.
pub open spec fn in_range(places: Seq<int>, n: nat) -> bool {
    forall|i: int| 0 <= i < places.len() ==> 0 <= #[trigger] places[i] < n
}

/// The places of the sources among the entries of a directory, in order.
pub fn files(entries: &Vec<Listed>) -> (r: Vec<usize>)
    ensures
        places_view(r@) == source_places(listing_view(entries@), entries@.len()),
        in_range(places_view(r@), entries@.len()),
{
    let ghost v = listing_view(entries@);
    let mut r: Vec<usize> = Vec::new();
    let mut i: usize = 0;
    assert(places_view(r@) =~= Seq::<int>::empty());
    while i < entries.len()
        invariant
            v == listing_view(entries@),
            i <= entries.len(),
            places_view(r@) == source_places(v, i as nat),
            in_range(places_view(r@), i as nat),
        decreases entries.len() - i,
    {
        let low: String = to_lowercase(entries[i].name.as_str());
        assert(v[i as int] == entries@[i as int]@);
        if entries[i].is_file && is_source(entries[i].name.as_str(), low.as_str()) {
            let ghost before_places = places_view(r@);
            r.push(i);
            assert(places_view(r@) =~= before_places.push(i as int));
        }
        i = i + 1;
    }
    r
}

/// Whether `a` is older than `b`: by the time of modification and, where that is the same, by
/// name.
pub open spec fn older(a: ListedView, b: ListedView) -> bool {
    a.modified < b.modified || (a.modified == b.modified && before(a.name, b.name))
}

/// The place of the newest of the entries at `places`.
pub open spec fn newest(entries: Seq<ListedView>, places: Seq<int>) -> Option<int>
    decreases places.len(),
{
    if places.len() == 0 {
        None
    } else {
        match newest(entries, places.drop_last()) {
            None => Some(places.last()),
            Some(k) => if older(entries[places.last()], entries[k]) {
                Some(k)
            } else {
                Some(places.last())
            },
        }
    }
}

/// The warning that there were several candidates.
pub open spec fn candidates_text(label: Seq<char>, n: nat) -> Seq<char> {
    label + "有 "@ + numeral(n) + " 个候选文件，按修改时间选取最新文件，请核对。"@
}

/// The warning of choosing among `n` candidates, where it is due.
pub open spec fn choice_warning(label: Seq<char>, n: nat) -> Option<Seq<char>> {
    if n > 1 {
        Some(candidates_text(label, n))
    } else {
        None
    }
}

/// What is chosen: the place of an entry, if there is one, and a warning, if there is one.
pub struct Choice {
    pub place: Option<usize>,
    pub warning: Option<String>,
}

/// The newest of the entries at `places`, with a warning where there are several.
pub fn latest(entries: &Vec<Listed>, places: &Vec<usize>, label: &str) -> (r: Choice)
    requires
        in_range(places_view(places@), entries@.len()),
    ensures
        newest(listing_view(entries@), places_view(places@)) == (match r.place {
            Some(i) => Some(i as int),
            None => None,
        }),
        choice_warning(label@, places@.len()) == (match r.warning {
            Some(s) => Some(s@),
            None => None,
        }),
        r.place matches Some(i) ==> i < entries@.len(),
{
    let ghost v = listing_view(entries@);
    let ghost ps = places_view(places@);
    let mut best: Option<usize> = None;
    let mut i: usize = 0;
    while i < places.len()
        invariant
            v == listing_view(entries@),
            ps == places_view(places@),
            in_range(ps, entries@.len()),
            i <= places.len(),
            newest(v, ps.take(i as int)) == (match best {
                Some(k) => Some(k as int),
                None => None,
            }),
            best matches Some(k) ==> k < entries.len(),
        decreases places.len() - i,
    {
        let p: usize = places[i];
        assert(ps.take(i + 1).drop_last() =~= ps.take(i as int));
        assert(ps[i as int] == p);
        assert(v[p as int] == entries@[p as int]@);
        best = match best {
            None => Some(p),
            Some(k) => {
                let a: &Listed = &entries[p];
                let b: &Listed = &entries[k];
                assert(v[k as int] == b@);
                if a.modified < b.modified || (a.modified == b.modified && is_before(
                    a.name.as_str(),
                    b.name.as_str(),
                )) {
                    Some(k)
                } else {
                    Some(p)
                }
            },
        };
        i = i + 1;
    }
    assert(ps.take(ps.len() as int) =~= ps);
    let warning: Option<String> = if places.len() > 1 {
        let mut s: String = label.to_string();
        s.append("有 ");
        let n: String = decimal(places.len() as u64);
        s.append(n.as_str());
        s.append(" 个候选文件，按修改时间选取最新文件，请核对。");
        Some(s)
    } else {
        None
    };
    Choice { place: best, warning }
}

/// The stem of the file name of a sales report.
pub open spec fn report_stem(code: Seq<char>, period: Seq<char>, date: Seq<char>) -> Seq<char> {
    "AVT-"@ + code + "-"@ + period + "T-"@ + date
}

/// Those of `places` at which a file has the given stem, whatever its letter case.
pub open spec fn with_stem(entries: Seq<ListedView>, places: Seq<int>, stem: Seq<char>) -> Seq<int>
    decreases places.len(),
{
    if places.len() == 0 {
        Seq::empty()
    } else {
        let rest = with_stem(entries, places.drop_last(), stem);
        if lower(stem_of(entries[places.last()].name)) == lower(stem) {
            rest.push(places.last())
        } else {
            rest
        }
    }
}

/// Those of `places` at which a file has the given stem, whatever its letter case.
fn filter_stem(entries: &Vec<Listed>, places: &Vec<usize>, stem: &str) -> (r: Vec<usize>)
    requires
        in_range(places_view(places@), entries@.len()),
    ensures
        places_view(r@) == with_stem(listing_view(entries@), places_view(places@), stem@),
        in_range(places_view(r@), entries@.len()),
{
    let ghost v = listing_view(entries@);
    let ghost ps = places_view(places@);
    let wanted: String = lower_case(stem);
    let mut r: Vec<usize> = Vec::new();
    let mut i: usize = 0;
    assert(places_view(r@) =~= Seq::<int>::empty());
    while i < places.len()
        invariant
            v == listing_view(entries@),
            ps == places_view(places@),
            in_range(ps, entries@.len()),
            wanted@ == lower(stem@),
            i <= places.len(),
            places_view(r@) == with_stem(v, ps.take(i as int), stem@),
            in_range(places_view(r@), entries@.len()),
        decreases places.len() - i,
    {
        let p: usize = places[i];
        assert(ps.take(i + 1).drop_last() =~= ps.take(i as int));
        assert(ps[i as int] == p);
        assert(v[p as int] == entries@[p as int]@);
        let s: String = file_stem(entries[p].name.as_str());
        let low: String = lower_case(s.as_str());
        if same(low.as_str(), wanted.as_str()) {
            let ghost before_places = places_view(r@);
            r.push(p);
            assert(places_view(r@) =~= before_places.push(p as int));
        }
        i = i + 1;
    }
    assert(ps.take(ps.len() as int) =~= ps);
    r
}

/// The sales reports of a directory for a code, a period and a date.
pub open spec fn report_places(
    entries: Seq<ListedView>,
    code: Seq<char>,
    period: Seq<char>,
    date: Seq<char>,
) -> Seq<int> {
    with_stem(entries, source_places(entries, entries.len()), report_stem(code, period, date))
}

/// The newest sales report of a directory for a code, a period and a date, with a warning where
/// there are several.
pub fn report_file(entries: &Vec<Listed>, code: &str, period: &str, date: &str) -> (r: Choice)
    ensures
        newest(
            listing_view(entries@),
            report_places(listing_view(entries@), code@, period@, date@),
        ) == (match r.place {
            Some(i) => Some(i as int),
            None => None,
        }),
        choice_warning(
            code@ + " "@ + period@ + "天销"@,
            report_places(listing_view(entries@), code@, period@, date@).len(),
        ) == (match r.warning {
            Some(s) => Some(s@),
            None => None,
        }),
        r.place matches Some(i) ==> i < entries@.len(),
{
    let mut stem: String = "AVT-".to_string();
    stem.append(code);
    stem.append("-");
    stem.append(period);
    stem.append("T-");
    stem.append(date);
    let all: Vec<usize> = files(entries);
    let places: Vec<usize> = filter_stem(entries, &all, stem.as_str());
    let mut label: String = code.to_string();
    label.append(" ");
    label.append(period);
    label.append("天销");
    latest(entries, &places, label.as_str())
}

/// The newest entry is one of those chosen among, and none of them is newer.
pub proof fn none_is_newer(entries: Seq<ListedView>, places: Seq<int>, i: int)
    requires
        0 <= i < places.len(),
    ensures
        newest(entries, places) matches Some(k) && places.contains(k) && !older(
            entries[k],
            entries[places[i]],
        ),
    decreases places.len(),
{
    let rest = places.drop_last();
    let last = places.last();
    if rest.len() > 0 {
        none_is_newer(entries, rest, 0);
        let k = newest(entries, rest)->Some_0;
        let j = choose|j: int| 0 <= j < rest.len() && rest[j] == k;
        assert(places[j] == k);
        assert(places.contains(k));
        if i < rest.len() {
            none_is_newer(entries, rest, i);
            order_of_age(entries[k], entries[rest[i]], entries[last]);
            assert(rest[i] == places[i]);
        }
        order_of_age(entries[k], entries[k], entries[last]);
        order_of_age(entries[last], entries[last], entries[last]);
    } else {
        order_of_age(entries[last], entries[last], entries[last]);
    }
    assert(places[places.len() - 1] == last);
    assert(places.contains(last));
}

/// Age is an order.
proof fn order_of_age(a: ListedView, b: ListedView, c: ListedView)
    ensures
        !older(a, a),
        older(c, a) ==> !older(a, c),
        !older(a, b) && !older(c, a) ==> !older(c, b),
{
    before_is_an_order(a.name, a.name, a.name);
    before_is_an_order(a.name, b.name, c.name);
    before_is_an_order(c.name, b.name, a.name);
    before_is_an_order(c.name, a.name, b.name);
    before_is_an_order(b.name, a.name, c.name);
}

/// The sources of a directory are its entries that are files with the name of a source, and no others.
pub proof fn sources_have_places(entries: Seq<ListedView>, n: nat, i: int)
    ensures
        source_places(entries, n).contains(i) <==> 0 <= i < n && is_source_entry(entries[i]),
    decreases n,
{
    if n > 0 {
        let rest = source_places(entries, (n - 1) as nat);
        sources_have_places(entries, (n - 1) as nat, i);
        let all = source_places(entries, n);
        if is_source_entry(entries[n - 1]) {
            assert(all =~= rest.push(n - 1));
            if rest.contains(i) {
                let k = choose|k: int| 0 <= k < rest.len() && rest[k] == i;
                assert(all[k] == i);
            }
            assert(all[rest.len() as int] == n - 1);
            if all.contains(i) && i != n - 1 {
                let k = choose|k: int| 0 <= k < all.len() && all[k] == i;
                assert(rest[k] == i);
            }
        }
    }
}

/// All places of sources are in the directory.
pub proof fn sources_are_in_range(entries: Seq<ListedView>, n: nat)
    ensures
        in_range(source_places(entries, n), n),
{
    assert forall|k: int| 0 <= k < source_places(entries, n).len() implies 0
        <= #[trigger] source_places(entries, n)[k] < n by {
        sources_have_places(entries, n, source_places(entries, n)[k]);
        assert(source_places(entries, n).contains(source_places(entries, n)[k]));
    }
}

/// No source is listed twice.
pub proof fn sources_ascend(entries: Seq<ListedView>, n: nat)
    ensures
        source_places(entries, n).no_duplicates(),
    decreases n,
{
    if n > 0 {
        sources_ascend(entries, (n - 1) as nat);
        sources_are_in_range(entries, (n - 1) as nat);
    }
}

/// Of several places, those stay at which a file has the stem, whatever its letter case.
pub proof fn stems_are_kept(
    entries: Seq<ListedView>,
    places: Seq<int>,
    stem: Seq<char>,
    i: int,
)
    ensures
        with_stem(entries, places, stem).contains(i) <==> places.contains(i) && lower(
            stem_of(entries[i].name),
        ) == lower(stem),
    decreases places.len(),
{
    if places.len() > 0 {
        let rest = places.drop_last();
        let last = places.last();
        stems_are_kept(entries, rest, stem, i);
        let kept = with_stem(entries, rest, stem);
        let all = with_stem(entries, places, stem);
        assert(places =~= rest.push(last));
        if rest.contains(i) {
            let k = choose|k: int| 0 <= k < rest.len() && rest[k] == i;
            assert(places[k] == i);
        }
        assert(places[places.len() - 1] == last);
        if places.contains(i) && i != last {
            let k = choose|k: int| 0 <= k < places.len() && places[k] == i;
            assert(rest[k] == i);
        }
        if lower(stem_of(entries[last].name)) == lower(stem) {
            assert(all =~= kept.push(last));
            if kept.contains(i) {
                let k = choose|k: int| 0 <= k < kept.len() && kept[k] == i;
                assert(all[k] == i);
            }
            assert(all[kept.len() as int] == last);
            if all.contains(i) && i != last {
                let k = choose|k: int| 0 <= k < all.len() && all[k] == i;
                assert(kept[k] == i);
            }
        }
    }
}

/// No place is kept twice.
pub proof fn stems_ascend(entries: Seq<ListedView>, places: Seq<int>, stem: Seq<char>)
    requires
        places.no_duplicates(),
    ensures
        with_stem(entries, places, stem).no_duplicates(),
    decreases places.len(),
{
    if places.len() > 0 {
        let rest = places.drop_last();
        stems_ascend(entries, rest, stem);
        let kept = with_stem(entries, rest, stem);
        assert forall|k: int| 0 <= k < kept.len() implies kept[k] != places.last() by {
            stems_are_kept(entries, rest, stem, kept[k]);
            assert(kept.contains(kept[k]));
            let j = choose|j: int| 0 <= j < rest.len() && rest[j] == kept[k];
            assert(places[j] == kept[k]);
        }
    }
}

/// The extension of a file name is what stands behind its last point, in small letters, and its stem is
/// what stands before it. A point at the very start does not count.
pub proof fn names_split_at_the_last_point(name: Seq<char>, p: int)
    ensures
        1 <= p < name.len() && name[p] == '.' && (forall|j: int|
            p < j < name.len() ==> #[trigger] name[j] != '.') ==> extension_of(name) == lower(
            name.subrange(p + 1, name.len() as int),
        ) && stem_of(name) == name.subrange(0, p),
        (forall|j: int| 1 <= j < name.len() ==> #[trigger] name[j] != '.') ==> extension_of(name)
            == Seq::<char>::empty() && stem_of(name) == name,
{
    last_point_is_last(name);
    if 1 <= p < name.len() && name[p] == '.' && (forall|j: int|
        p < j < name.len() ==> #[trigger] name[j] != '.') {
        assert(last_point(name) == Some(p));
        assert(name.subrange(0, p) =~= name.take(p));
    }
}

proof fn last_point_is_last(name: Seq<char>)
    ensures
        match last_point(name) {
            Some(i) => 1 <= i < name.len() && name[i] == '.' && forall|j: int|
                i < j < name.len() ==> #[trigger] name[j] != '.',
            None => forall|j: int| 1 <= j < name.len() ==> #[trigger] name[j] != '.',
        },
    decreases name.len(),
{
    if name.len() > 1 && name.last() != '.' {
        let rest = name.drop_last();
        last_point_is_last(rest);
        match last_point(rest) {
            Some(i) => {
                assert(rest[i] == name[i]);
                assert forall|j: int| i < j < name.len() implies #[trigger] name[j] != '.' by {
                    if j < rest.len() {
                        assert(rest[j] == name[j]);
                    }
                }
            },
            None => {
                assert forall|j: int| 1 <= j < name.len() implies #[trigger] name[j] != '.' by {
                    if j < rest.len() {
                        assert(rest[j] == name[j]);
                    }
                }
            },
        }
    }
}

/// An entry of a directory is a source where it is a file with one of five extensions whose name in
/// small letters neither starts with a point or as a lock file does nor names a backup.
pub proof fn sources_go_by_name(e: ListedView)
    ensures
        ({
            let low = lowercased(e.name);
            let ext = extension_of(e.name);
            is_source_entry(e) <==> {
                &&& e.is_file
                &&& ext == "xlsx"@ || ext == "xls"@ || ext == "csv"@ || ext == "txt"@ || ext
                    == "tsv"@
                &&& !(low.len() >= 1 && low[0] == '.')
                &&& !(low.len() >= 2 && low[0] == '~' && low[1] == '$')
                &&& forall|i: int| !#[trigger] stands_at(low, "backup"@, i)
                &&& forall|i: int| !#[trigger] stands_at(low, "备份"@, i)
            }
        }),
{
    let low = lowercased(e.name);
    reveal_strlit("~$");
    reveal_strlit(".");
    if low.len() >= 1 {
        assert(low.subrange(0, 1)[0] == low[0]);
        if low[0] == '.' {
            assert(low.subrange(0, 1) =~= "."@);
        }
    }
    if low.len() >= 2 {
        assert(low.subrange(0, 2)[0] == low[0] && low.subrange(0, 2)[1] == low[1]);
        if low[0] == '~' && low[1] == '$' {
            assert(low.subrange(0, 2) =~= "~$"@);
        }
    }
}

/// A fingerprint is written in hexadecimal, two digits for each byte, the higher one first.
pub proof fn bytes_are_written_in_hexadecimal(bytes: Seq<u8>, i: int)
    requires
        0 <= i < bytes.len(),
    ensures
        hexadecimal(bytes).len() == 2 * bytes.len(),
        ({
            let high = hexadecimal(bytes)[2 * i] as int;
            let low = hexadecimal(bytes)[2 * i + 1] as int;
            let value = |c: int|
                if 48 <= c <= 57 {
                    c - 48
                } else {
                    c - 87
                };
            &&& 48 <= high <= 57 || 97 <= high <= 102
            &&& 48 <= low <= 57 || 97 <= low <= 102
            &&& bytes[i] as int == 16 * value(high) + value(low)
        }),
    decreases bytes.len(),
{
    hexadecimal_length(bytes);
    let rest = bytes.drop_last();
    hexadecimal_length(rest);
    if i < rest.len() {
        bytes_are_written_in_hexadecimal(rest, i);
        assert(hexadecimal(bytes)[2 * i] == hexadecimal(rest)[2 * i]);
        assert(hexadecimal(bytes)[2 * i + 1] == hexadecimal(rest)[2 * i + 1]);
    }
}

/// An entry of a directory is seen as it is, at its place.
pub proof fn entries_are_seen_as_they_are(entries: Seq<Listed>, i: int)
    requires
        0 <= i < entries.len(),
    ensures
        listing_view(entries).len() == entries.len(),
        listing_view(entries)[i].name == entries[i].name@,
        listing_view(entries)[i].is_file == entries[i].is_file,
        listing_view(entries)[i].modified == entries[i].modified,
{
}

} // verus!
