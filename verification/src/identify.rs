//! What the file name of a plan and the name of its folder say: the station, the code and the
//! date.

use crate::source::{extension, extension_of, names_split_at_the_last_point};
use crate::station::{station, station_of};
use crate::text::{
    begins, chars, digit, digits, has_prefix, is_at, lower, lower_case, part, same, stands_at,
    stands_between, text, upper, upper_case, value, white,
};
use vstd::prelude::*;
use vstd::string::StringExecFns;

verus! {

/// Why a file is no plan.
pub enum IdentifyError {
    /// It is no workbook.
    Extension,
    /// Its name is not that of a plan.
    Name,
    /// The date in its name is none, with the message of the error.
    Date(String),
    /// The station is not supported.
    Station,
    /// The station in its name is another one than that of its folder.
    Folder(String, String),
}

/// Why a file is no plan, in contracts.
pub enum IdentifyErrorView {
    Extension,
    Name,
    Date(Seq<char>),
    Station,
    Folder(Seq<char>, Seq<char>),
}

impl View for IdentifyError {
    type V = IdentifyErrorView;

    open spec fn view(&self) -> IdentifyErrorView {
        match self {
            IdentifyError::Extension => IdentifyErrorView::Extension,
            IdentifyError::Name => IdentifyErrorView::Name,
            IdentifyError::Date(m) => IdentifyErrorView::Date(m@),
            IdentifyError::Station => IdentifyErrorView::Station,
            IdentifyError::Folder(s, f) => IdentifyErrorView::Folder(s@, f@),
        }
    }
}

impl IdentifyErrorView {
    /// The error in words.
    pub open spec fn words(self) -> Seq<char> {
        match self {
            IdentifyErrorView::Extension =>
                "补货计划必须为 .xlsx；源数据支持 CSV、TXT、TSV、XLS、XLSX"@,
            IdentifyErrorView::Name => "文件名应为 AVT-站点-YYYYMMDD…全站点通用补货计划.xlsx"@,
            IdentifyErrorView::Date(m) => "补货表日期无效: "@ + m,
            IdentifyErrorView::Station => "不支持此站点"@,
            IdentifyErrorView::Folder(s, f) => "文件名站点 "@ + s + " 与目录 "@ + f + " 不一致"@,
        }
    }
}

impl IdentifyError {
    /// The error in words.
    pub fn message(&self) -> (r: String)
        ensures
            r@ == self@.words(),
    {
        match self {
            IdentifyError::Extension => {
                "补货计划必须为 .xlsx；源数据支持 CSV、TXT、TSV、XLS、XLSX".to_string()
            },
            IdentifyError::Name => {
                "文件名应为 AVT-站点-YYYYMMDD…全站点通用补货计划.xlsx".to_string()
            },
            IdentifyError::Date(m) => {
                let mut r: String = "补货表日期无效: ".to_string();
                r.append(m.as_str());
                r
            },
            IdentifyError::Station => "不支持此站点".to_string(),
            IdentifyError::Folder(s, f) => {
                let mut r: String = "文件名站点 ".to_string();
                r.append(s.as_str());
                r.append(" 与目录 ");
                r.append(f.as_str());
                r.append(" 不一致");
                r
            },
        }
    }
}

/// A character of the class `\d`: a decimal digit of some script.
pub uninterp spec fn decimal_digit(c: char) -> bool;

/// `regex::Regex::is_match` of the class `\d` on a single character, which is among ASCII the
/// digits zero to nine, and holds no white space. Which other characters are in the class is not
/// stated.
#[verifier::external_body]
fn is_decimal_digit(c: char) -> (r: bool)
    ensures
        r == decimal_digit(c),
        c as u32 <= 0x7f ==> r == digit(c),
        r ==> !white(c),
{
    regex::Regex::new(r"^\d$").unwrap().is_match(&c.to_string())
}

/// A letter of the code: an ASCII letter, or one of the two others that are the same as one up to
/// letter case, the long s and the Kelvin sign.
pub open spec fn code_letter(c: char) -> bool {
    ('A' <= c && c <= 'Z') || ('a' <= c && c <= 'z') || c == '\u{17f}' || c == '\u{212a}'
}

/// Whether a file name is that of a plan: `AVT-`, two letters, a hyphen, eight digits, anything on
/// one line, and the title with the extension of a workbook.
pub open spec fn plan_name(name: Seq<char>) -> bool {
    let n = name.len() as int;
    &&& n >= 15 + "全站点通用补货计划"@.len() + 5
    &&& lower(name.subrange(0, 4)) == "avt-"@
    &&& code_letter(name[4])
    &&& code_letter(name[5])
    &&& name[6] == '-'
    &&& forall|i: int| 7 <= i < 15 ==> decimal_digit(#[trigger] name[i])
    &&& stands_at(name, "全站点通用补货计划"@, n - 5 - "全站点通用补货计划"@.len())
    &&& lower(name.subrange(n - 5, n)) == ".xlsx"@
    &&& forall|i: int|
        15 <= i < n - 5 - "全站点通用补货计划"@.len() ==> #[trigger] name[i] != '\n'
}

/// The code in the file name of a plan, in upper case.
pub open spec fn code_in(name: Seq<char>) -> Seq<char> {
    upper(name.subrange(4, 6))
}

/// The date in the file name of a plan.
pub open spec fn date_in(name: Seq<char>) -> Seq<char> {
    name.subrange(7, 15)
}

/// Whether a year is a leap year.
pub open spec fn leap(year: nat) -> bool {
    year % 4 == 0 && (year % 100 != 0 || year % 400 == 0)
}

/// How many days a month has.
pub open spec fn days_in(year: nat, month: nat) -> nat {
    if month == 2 {
        if leap(year) {
            29
        } else {
            28
        }
    } else if month == 4 || month == 6 || month == 9 || month == 11 {
        30
    } else {
        31
    }
}

/// Whether eight digits, of year, month and day, are a day of the calendar.
pub open spec fn calendar_date(s: Seq<char>) -> bool {
    let year = value(s.subrange(0, 4));
    let month = value(s.subrange(4, 6));
    let day = value(s.subrange(6, 8));
    1 <= month <= 12 && 1 <= day <= days_in(year, month)
}

/// Whether a text is read as a date, or the message of the error.
pub uninterp spec fn date_read(s: Seq<char>) -> Result<(), Seq<char>>;

/// `chrono::NaiveDate::parse_from_str` with year, month and day: the result is a function of the
/// text, and eight ASCII digits are read exactly where they are a day of the calendar. Outside of ASCII
/// it skips white space and takes nothing else.
#[verifier::external_body]
fn read_date(s: &str) -> (r: Result<(), String>)
    ensures
        date_read(s@) == (match r {
            Ok(()) => Ok::<(), Seq<char>>(()),
            Err(m) => Err(m@),
        }),
        s@.len() == 8 && digits(s@) ==> (r is Ok <==> calendar_date(s@)),
        (exists|i: int| 0 <= i < s@.len() && (#[trigger] s@[i]) as u32 > 0x7f && !white(s@[i]))
            ==> r is Err,
{
    chrono::NaiveDate::parse_from_str(s, "%Y%m%d").map(|_| ()).map_err(|e| e.to_string())
}

/// The code that the name of a folder ends with, in upper case.
pub open spec fn folder_code(folder: Seq<char>) -> Seq<char> {
    if begins(upper(folder), "AVT-"@) {
        upper(folder).skip(4)
    } else {
        upper(folder)
    }
}

/// The station of a code, unless the folder says another one.
pub open spec fn station_in(code: Seq<char>, folder: Seq<char>) -> Result<
    Seq<char>,
    IdentifyErrorView,
> {
    match station_of(code) {
        None => Err(IdentifyErrorView::Station),
        Some(site) => match station_of(folder_code(folder)) {
            Some(other) => if other != site {
                Err(IdentifyErrorView::Folder(site, upper(folder)))
            } else {
                Ok(site)
            },
            None => Ok(site),
        },
    }
}

/// What a plan is for.
pub struct Identity {
    pub station: String,
    pub code: String,
    pub date: String,
}

/// What the plan with the given file name in the given folder is for, or why it is none.
pub open spec fn identified(name: Seq<char>, folder: Seq<char>) -> Result<
    (Seq<char>, Seq<char>, Seq<char>),
    IdentifyErrorView,
> {
    if extension_of(name) != "xlsx"@ {
        Err(IdentifyErrorView::Extension)
    } else if !plan_name(name) {
        Err(IdentifyErrorView::Name)
    } else {
        match date_read(date_in(name)) {
            Err(m) => Err(IdentifyErrorView::Date(m)),
            Ok(()) => match station_in(code_in(name), folder) {
                Err(e) => Err(e),
                Ok(site) => Ok((site, code_in(name), date_in(name))),
            },
        }
    }
}

/// Whether `c` is a letter of the code.
fn is_code_letter(c: char) -> (r: bool)
    ensures
        r == code_letter(c),
{
    ('A' <= c && c <= 'Z') || ('a' <= c && c <= 'z') || c == '\u{17f}' || c == '\u{212a}'
}

/// Whether a character is an ASCII digit, or lies outside of ASCII and is no white space.
spec fn date_char(c: char) -> bool {
    digit(c) || (c as u32 > 0x7f && !white(c))
}

/// Whether a file name is that of a plan.
fn is_plan_name(x: &Vec<char>) -> (r: bool)
    ensures
        r == plan_name(x@),
        r ==> forall|i: int| 7 <= i < 15 ==> date_char(#[trigger] x@[i]),
{
    let title: Vec<char> = chars("全站点通用补货计划");
    proof {
        reveal_strlit("全站点通用补货计划");
    }
    let n: usize = x.len();
    if n < 20 || n - 20 < title.len() {
        return false;
    }
    let end: usize = n - 5 - title.len();
    let front: Vec<char> = part(x.as_slice(), 0, 4);
    let front_text: String = text(&front);
    let front_low: String = lower_case(front_text.as_str());
    let back: Vec<char> = part(x.as_slice(), n - 5, n);
    let back_text: String = text(&back);
    let back_low: String = lower_case(back_text.as_str());
    if !same(front_low.as_str(), "avt-") || !is_code_letter(x[4]) || !is_code_letter(x[5]) || x[6]
        != '-' || !is_at(x.as_slice(), title.as_slice(), end) || !same(back_low.as_str(), ".xlsx") {
        return false;
    }
    let mut i: usize = 7;
    while i < 15
        invariant
            7 <= i <= 15,
            15 <= x.len(),
            forall|j: int| 7 <= j < i ==> decimal_digit(#[trigger] x@[j]),
            forall|j: int| 7 <= j < i ==> date_char(#[trigger] x@[j]),
        decreases 15 - i,
    {
        if !is_decimal_digit(x[i]) {
            return false;
        }
        i = i + 1;
    }
    while i < end
        invariant
            15 <= i,
            end == x@.len() - 5 - "全站点通用补货计划"@.len(),
            forall|j: int| 15 <= j < i ==> #[trigger] x@[j] != '\n',
        decreases end - i,
    {
        if x[i] == '\n' {
            return false;
        }
        i = i + 1;
    }
    true
}

/// The station of a code, unless the folder says another one.
pub fn check_station(code: &str, folder: &str) -> (r: Result<String, IdentifyError>)
    ensures
        station_in(code@, folder@) == (match r {
            Ok(s) => Ok::<Seq<char>, IdentifyErrorView>(s@),
            Err(e) => Err(e@),
        }),
{
    let site: &str = match station(code) {
        Some(s) => s,
        None => {
            return Err(IdentifyError::Station);
        },
    };
    let up: String = upper_case(folder);
    let x: Vec<char> = chars(up.as_str());
    let named: bool = has_prefix(up.as_str(), "AVT-");
    proof {
        reveal_strlit("AVT-");
    }
    let from: usize = if named {
        4
    } else {
        0
    };
    let rest: Vec<char> = part(x.as_slice(), from, x.len());
    assert(rest@ =~= folder_code(folder@));
    let rest_text: String = text(&rest);
    match station(rest_text.as_str()) {
        Some(other) => if same(other, site) {
            Ok(site.to_string())
        } else {
            Err(IdentifyError::Folder(site.to_string(), up))
        },
        None => Ok(site.to_string()),
    }
}

/// What the plan with the given file name in the given folder is for.
pub fn identify(name: &str, folder: &str) -> (r: Result<Identity, IdentifyError>)
    ensures
        identified(name@, folder@) == (match r {
            Ok(p) => Ok::<(Seq<char>, Seq<char>, Seq<char>), IdentifyErrorView>(
                (p.station@, p.code@, p.date@),
            ),
            Err(e) => Err(e@),
        }),
        r matches Ok(p) ==> digits(p.date@) && calendar_date(p.date@),
        plan_name(name@) && !digits(date_in(name@)) ==> r is Err,
        r matches Err(e) ==> (e@ is Date && digits(date_in(name@)) ==> !calendar_date(
            date_in(name@),
        )),
{
    let e: String = extension(name);
    if !same(e.as_str(), "xlsx") {
        return Err(IdentifyError::Extension);
    }
    let x: Vec<char> = chars(name);
    if !is_plan_name(&x) {
        return Err(IdentifyError::Name);
    }
    let letters: Vec<char> = part(x.as_slice(), 4, 6);
    let letters_text: String = text(&letters);
    let code: String = upper_case(letters_text.as_str());
    let day: Vec<char> = part(x.as_slice(), 7, 15);
    let date: String = text(&day);
    proof {
        assert(x.len() >= 15);
        assert(date@ =~= date_in(name@));
        if !digits(date@) {
            let i = choose|i: int| 0 <= i < date@.len() && !digit(#[trigger] date@[i]);
            assert(date@[i] == x@[i + 7]);
            assert(date_char(x@[i + 7]));
        }
    }
    match read_date(date.as_str()) {
        Ok(()) => {},
        Err(m) => {
            return Err(IdentifyError::Date(m));
        },
    }
    match check_station(code.as_str(), folder) {
        Ok(station) => Ok(Identity { station, code, date }),
        Err(e) => Err(e),
    }
}

/// A month has the days of the Gregorian calendar.
pub proof fn months_have_their_days(year: nat, month: nat)
    ensures
        month == 1 || month == 3 || month == 5 || month == 7 || month == 8 || month == 10 || month
            == 12 ==> days_in(year, month) == 31,
        month == 4 || month == 6 || month == 9 || month == 11 ==> days_in(year, month) == 30,
        month == 2 && year % 400 == 0 ==> days_in(year, month) == 29,
        month == 2 && year % 100 == 0 && year % 400 != 0 ==> days_in(year, month) == 28,
        month == 2 && year % 4 == 0 && year % 100 != 0 ==> days_in(year, month) == 29,
        month == 2 && year % 4 != 0 ==> days_in(year, month) == 28,
{
    if month == 2 && year % 400 == 0 {
        assert(year % 4 == 0);
    }
    if month == 2 && year % 100 == 0 {
        assert(year % 4 == 0);
    }
}

/// Eight digits are a date where the fifth and sixth name a month and the last two one of its days, in
/// the year that the first four name.
pub proof fn dates_are_days_of_the_calendar(s: Seq<char>, year: nat, month: nat, day: nat)
    requires
        s.len() == 8,
        year == value(s.subrange(0, 4)),
        month == value(s.subrange(4, 6)),
        day == value(s.subrange(6, 8)),
    ensures
        calendar_date(s) <==> (month == 1 || month == 2 || month == 3 || month == 4 || month == 5
            || month == 6 || month == 7 || month == 8 || month == 9 || month == 10 || month == 11
            || month == 12) && 1 <= day && day <= days_in(year, month),
{
}

/// What the file name of a plan and its folder say. The name is `AVT-`, a code of two letters, a hyphen,
/// a date of eight digits, anything on the line, and the title with the extension of a workbook; letter
/// case does not count. The folder may not name another station.
pub proof fn plans_are_identified_by_name(name: Seq<char>, folder: Seq<char>)
    ensures
        match identified(name, folder) {
            Ok((station, code, date)) => {
                let n = name.len() as int;
                let title = "全站点通用补货计划"@;
                &&& extension_of(name) == "xlsx"@
                &&& n >= 20 + title.len()
                &&& lower(name.subrange(0, 4)) == "avt-"@
                &&& name[6] == '-'
                &&& title == name.subrange(n - 5 - title.len(), n - 5)
                &&& lower(name.subrange(n - 5, n)) == ".xlsx"@
                &&& code == upper(name.subrange(4, 6))
                &&& date == name.subrange(7, 15)
                &&& forall|i: int| 7 <= i < 15 ==> decimal_digit(#[trigger] name[i])
                &&& date_read(date) is Ok
                &&& station_of(code) == Some(station)
                &&& station_of(folder_code(folder)) matches Some(other) ==> other == station
            },
            Err(IdentifyErrorView::Extension) => extension_of(name) != "xlsx"@,
            Err(IdentifyErrorView::Name) => extension_of(name) == "xlsx"@ && !plan_name(name),
            Err(IdentifyErrorView::Date(m)) => plan_name(name) && date_read(name.subrange(7, 15))
                == Err::<(), Seq<char>>(m),
            Err(IdentifyErrorView::Station) => plan_name(name) && station_of(
                upper(name.subrange(4, 6)),
            ) is None,
            Err(IdentifyErrorView::Folder(site, told)) => {
                &&& plan_name(name)
                &&& station_of(upper(name.subrange(4, 6))) == Some(site)
                &&& told == upper(folder)
                &&& station_of(folder_code(folder)) matches Some(other) && other != site
            },
        },
{
}

/// A file with the name of a plan for a code, on a day that can be read, is a plan, wherever its folder
/// does not name another station.
pub proof fn plan_names_are_accepted(
    code: Seq<char>,
    date: Seq<char>,
    middle: Seq<char>,
    folder: Seq<char>,
)
    requires
        code.len() == 2,
        forall|i: int| 0 <= i < 2 ==> 'A' <= #[trigger] code[i] && code[i] <= 'Z',
        date.len() == 8,
        forall|i: int| 0 <= i < 8 ==> decimal_digit(#[trigger] date[i]),
        date_read(date) is Ok,
        forall|i: int| 0 <= i < middle.len() ==> #[trigger] middle[i] != '\n',
        station_of(code) is Some,
        station_of(folder_code(folder)) is None || station_of(folder_code(folder)) == station_of(
            code,
        ),
    ensures
        ({
            let title = seq!['全', '站', '点', '通', '用', '补', '货', '计', '划'];
            let name = seq!['A', 'V', 'T', '-'] + code + seq!['-'] + date + middle + title
                + seq!['.', 'x', 'l', 's', 'x'];
            identified(name, folder) == Ok::<
                (Seq<char>, Seq<char>, Seq<char>),
                IdentifyErrorView,
            >((station_of(code)->Some_0, code, date))
        }),
{
    let title = seq!['全', '站', '点', '通', '用', '补', '货', '计', '划'];
    let end = seq!['.', 'x', 'l', 's', 'x'];
    let name = seq!['A', 'V', 'T', '-'] + code + seq!['-'] + date + middle + title + end;
    let n = name.len() as int;
    reveal_strlit("全站点通用补货计划");
    reveal_strlit("avt-");
    reveal_strlit(".xlsx");
    reveal_strlit("xlsx");
    assert("全站点通用补货计划"@ =~= title);
    assert(title.len() == 9);
    assert(n == 29 + middle.len());
    assert(name[n - 5] == '.');
    assert forall|j: int| n - 5 < j < n implies #[trigger] name[j] != '.' by {
        assert(name[j] == end[j - (n - 5)]);
    }
    names_split_at_the_last_point(name, n - 5);
    let ext = name.subrange(n - 4, n);
    assert(ext =~= seq!['x', 'l', 's', 'x']);
    assert(lower(ext) =~= "xlsx"@);
    assert(lower(name.subrange(0, 4)) =~= "avt-"@);
    assert(lower(name.subrange(n - 5, n)) =~= ".xlsx"@) by {
        assert(name.subrange(n - 5, n) =~= end);
    }
    assert(name[4] == code[0] && name[5] == code[1] && name[6] == '-');
    assert(name.subrange(4, 6) =~= code);
    assert(upper(code) =~= code);
    assert(name.subrange(7, 15) =~= date);
    assert forall|i: int| 7 <= i < 15 implies decimal_digit(#[trigger] name[i]) by {
        assert(name[i] == date[i - 7]);
    }
    assert(name.subrange(n - 14, n - 5) =~= title);
    assert forall|i: int| 15 <= i < n - 14 implies #[trigger] name[i] != '\n' by {
        assert(name[i] == middle[i - 15]);
    }
    assert(plan_name(name));
}

/// The name of a folder names a station by its code, with `AVT-` before it or without, in capital or in
/// small letters.
pub proof fn folders_name_stations(folder: Seq<char>)
    ensures
        ({
            let up = upper(folder);
            &&& up.len() >= 4 && up[0] == 'A' && up[1] == 'V' && up[2] == 'T' && up[3] == '-'
                ==> folder_code(folder) == up.subrange(4, up.len() as int)
            &&& !(up.len() >= 4 && up[0] == 'A' && up[1] == 'V' && up[2] == 'T' && up[3] == '-')
                ==> folder_code(folder) == up
        }),
{
    reveal_strlit("AVT-");
    let up = upper(folder);
    if up.len() >= 4 {
        let front = up.subrange(0, 4);
        assert(front[0] == up[0] && front[1] == up[1] && front[2] == up[2] && front[3] == up[3]);
        if up[0] == 'A' && up[1] == 'V' && up[2] == 'T' && up[3] == '-' {
            assert(front =~= "AVT-"@);
            assert(up.skip(4) =~= up.subrange(4, up.len() as int));
        }
    }
}

/// What is said of a name that tells no plan: the words are fixed, and what they are
/// about stands in them as it is.
pub proof fn faults_of_names_are_worded(error: IdentifyErrorView)
    ensures
        match error {
            IdentifyErrorView::Extension => error.words() == "补货计划必须为 .xlsx；源数据支持 CSV、TXT、TSV、XLS、XLSX"@,
            IdentifyErrorView::Name => error.words() == "文件名应为 AVT-站点-YYYYMMDD…全站点通用补货计划.xlsx"@,
            IdentifyErrorView::Date(m) => stands_between(
                error.words(),
                "补货表日期无效: "@,
                m,
                Seq::<char>::empty(),
            ),
            IdentifyErrorView::Station => error.words() == "不支持此站点"@,
            IdentifyErrorView::Folder(s, f) => {
                &&& stands_between(error.words(), "文件名站点 "@, s, " 与目录 "@ + f + " 不一致"@)
                &&& stands_between(error.words(), "文件名站点 "@ + s + " 与目录 "@, f, " 不一致"@)
            },
        },
{
}

} // verus!
