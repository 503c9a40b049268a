//! What the window says of a plan, of its outcome and of an update.

use crate::plan::{sources_view, Outcome, Plan, PlanView, Source, SourceView};
use crate::text::{decimal, numeral, texts_of};
use crate::updates::{UpdateInfo, UpdateView, VERSION};
use vstd::prelude::*;
use vstd::string::StringExecFns;

verus! {

/// The line about a plan.
pub open spec fn summary_text(p: PlanView) -> Seq<char> {
    p.station + " 站    |    日期 "@ + p.date + "    |    "@ + numeral(p.sources.len())
        + " 个源文件    |    将更新 "@ + numeral(p.names.len()) + " 张工作表"@
}

/// The line about a plan.
pub fn summary(p: &Plan) -> (r: String)
    ensures
        r@ == summary_text(p@),
{
    let mut r: String = p.station.clone();
    r.append(" 站    |    日期 ");
    r.append(p.date.as_str());
    r.append("    |    ");
    let sources: String = decimal(p.sources.len() as u64);
    r.append(sources.as_str());
    r.append(" 个源文件    |    将更新 ");
    let sheets: String = decimal(p.sheets.len() as u64);
    r.append(sheets.as_str());
    r.append(" 张工作表");
    assert(sources_view(p.sources@).len() == p.sources@.len());
    r
}

/// The cells of the row about a source whose file has the given name.
pub open spec fn source_cells(s: SourceView, name: Seq<char>) -> Seq<Seq<char>> {
    seq![s.sheet, s.country, name, numeral(s.rows), numeral(s.converted), s.modified]
}

/// The cells of the row about a source whose file has the given name.
pub fn source_row(s: &Source, name: &str) -> (r: Vec<String>)
    ensures
        texts_of(r@) == source_cells(s@, name@),
{
    let mut r: Vec<String> = Vec::new();
    r.push(s.sheet.clone());
    r.push(s.country.clone());
    r.push(name.to_string());
    r.push(decimal(s.rows as u64));
    r.push(decimal(s.converted as u64));
    r.push(s.modified.clone());
    assert(texts_of(r@) =~= source_cells(s@, name@));
    r
}

/// The lines about the first `n` warnings.
pub open spec fn warning_lines(warnings: Seq<Seq<char>>, n: nat) -> Seq<char>
    decreases n,
{
    if n == 0 {
        Seq::empty()
    } else {
        warning_lines(warnings, (n - 1) as nat) + ("• "@ + warnings[n - 1] + "\r\n"@)
    }
}

/// The line about a source.
pub open spec fn source_line(s: SourceView) -> Seq<char> {
    s.sheet + " / "@ + s.country + "："@ + s.path + " ["@ + s.encoding + "]\r\n"@
}

/// The lines about the first `n` sources.
pub open spec fn source_lines(sources: Seq<SourceView>, n: nat) -> Seq<char>
    decreases n,
{
    if n == 0 {
        Seq::empty()
    } else {
        source_lines(sources, (n - 1) as nat) + source_line(sources[n - 1])
    }
}

/// The notes about a plan.
pub open spec fn notes_text(p: PlanView) -> Seq<char> {
    "站点目录："@ + p.root + "\r\n"@ + (if p.warnings.len() == 0 {
        "匹配完成。请核对源文件后点击“确认填充并覆盖原表”。\r\n"@
    } else {
        "需要核对：\r\n"@ + warning_lines(p.warnings, p.warnings.len())
    }) + "\r\n源文件完整路径：\r\n"@ + source_lines(p.sources, p.sources.len())
}

/// Writes the lines about the warnings.
fn write_warnings(out: &mut String, warnings: &Vec<String>)
    ensures
        final(out)@ == old(out)@ + warning_lines(texts_of(warnings@), warnings@.len()),
{
    let ghost before = out@;
    let ghost v = texts_of(warnings@);
    let mut i: usize = 0;
    assert(out@ =~= before + warning_lines(v, 0));
    while i < warnings.len()
        invariant
            v == texts_of(warnings@),
            i <= warnings.len(),
            out@ == before + warning_lines(v, i as nat),
        decreases warnings.len() - i,
    {
        out.append("• ");
        out.append(warnings[i].as_str());
        out.append("\r\n");
        i = i + 1;
        assert(out@ =~= before + warning_lines(v, i as nat));
    }
}

/// Writes the lines about the sources.
fn write_sources(out: &mut String, sources: &Vec<Source>)
    ensures
        final(out)@ == old(out)@ + source_lines(sources_view(sources@), sources@.len()),
{
    let ghost before = out@;
    let ghost v = sources_view(sources@);
    let mut i: usize = 0;
    assert(out@ =~= before + source_lines(v, 0));
    while i < sources.len()
        invariant
            v == sources_view(sources@),
            i <= sources.len(),
            out@ == before + source_lines(v, i as nat),
        decreases sources.len() - i,
    {
        let s: &Source = &sources[i];
        assert(v[i as int] == s@);
        out.append(s.sheet.as_str());
        out.append(" / ");
        out.append(s.country.as_str());
        out.append("：");
        out.append(s.path.as_str());
        out.append(" [");
        out.append(s.encoding.as_str());
        out.append("]\r\n");
        i = i + 1;
        assert(out@ =~= before + source_lines(v, i as nat));
    }
}

/// The notes about a plan.
pub fn notes(p: &Plan) -> (r: String)
    ensures
        r@ == notes_text(p@),
{
    let mut r: String = "站点目录：".to_string();
    r.append(p.root.as_str());
    r.append("\r\n");
    assert(texts_of(p.warnings@).len() == p.warnings@.len());
    assert(sources_view(p.sources@).len() == p.sources@.len());
    if p.warnings.len() == 0 {
        r.append("匹配完成。请核对源文件后点击“确认填充并覆盖原表”。\r\n");
    } else {
        r.append("需要核对：\r\n");
        write_warnings(&mut r, &p.warnings);
    }
    r.append("\r\n源文件完整路径：\r\n");
    write_sources(&mut r, &p.sources);
    assert(r@ =~= notes_text(p@));
    r
}

/// The line about a filled workbook.
pub fn fill_status(o: &Outcome) -> (r: String)
    ensures
        r@ == "填充完成："@ + numeral(o.sheets as nat) + " 张工作表，"@ + numeral(o.converted as nat)
            + " 个普通数字已转换。"@,
{
    let mut r: String = "填充完成：".to_string();
    let sheets: String = decimal(o.sheets as u64);
    r.append(sheets.as_str());
    r.append(" 张工作表，");
    let converted: String = decimal(o.converted as u64);
    r.append(converted.as_str());
    r.append(" 个普通数字已转换。");
    r
}

/// The notes about a filled workbook.
pub open spec fn outcome_text(
    message: Seq<char>,
    target: Seq<char>,
    backup: Option<Seq<char>>,
) -> Seq<char> {
    message + "\r\n\r\n原表："@ + target + "\r\n"@ + (match backup {
        Some(p) => "备份："@ + p + "\r\n"@,
        None => "本次未创建备份。\r\n"@,
    })
}

/// The notes about a filled workbook.
pub fn fill_notes(o: &Outcome) -> (r: String)
    ensures
        r@ == outcome_text(
            o.message@,
            o.target@,
            match o.backup {
                Some(p) => Some(p@),
                None => None,
            },
        ),
{
    let mut r: String = o.message.clone();
    r.append("\r\n\r\n原表：");
    r.append(o.target.as_str());
    r.append("\r\n");
    let ghost front = r@;
    match &o.backup {
        Some(p) => {
            r.append("备份：");
            r.append(p.as_str());
            r.append("\r\n");
            assert(r@ =~= front + ("备份："@ + p@ + "\r\n"@));
        },
        None => {
            r.append("本次未创建备份。\r\n");
        },
    }
    r
}

/// The line about an update.
pub open spec fn update_text(u: UpdateView) -> Seq<char> {
    if u.newer {
        "发现新版本 v"@ + u.latest + "，当前 v"@ + VERSION@
            + "。点击“下载并更新”，完成后自动重启。"@
    } else {
        "当前 v"@ + VERSION@ + "，最新正式版本 v"@ + u.latest + "，无需更新。"@
    }
}

/// The line about an update.
pub fn update_status(u: &UpdateInfo) -> (r: String)
    ensures
        r@ == update_text(u@),
{
    if u.newer {
        let mut r: String = "发现新版本 v".to_string();
        r.append(u.latest.as_str());
        r.append("，当前 v");
        r.append(VERSION);
        r.append("。点击“下载并更新”，完成后自动重启。");
        r
    } else {
        let mut r: String = "当前 v".to_string();
        r.append(VERSION);
        r.append("，最新正式版本 v");
        r.append(u.latest.as_str());
        r.append("，无需更新。");
        r
    }
}

/// The notes about a plan name its folder, then each of its warnings or that there is none, and then each
/// source, all on lines of their own and in order.
pub proof fn notes_list_everything(p: PlanView)
    ensures
        ({
            let warnings = Seq::new(
                p.warnings.len(),
                |i: int| "• "@ + p.warnings[i] + "\r\n"@,
            ).flatten();
            let sources = Seq::new(
                p.sources.len(),
                |i: int|
                    p.sources[i].sheet + " / "@ + p.sources[i].country + "："@ + p.sources[i].path
                        + " ["@ + p.sources[i].encoding + "]\r\n"@,
            ).flatten();
            let checked = if p.warnings.len() == 0 {
                "匹配完成。请核对源文件后点击“确认填充并覆盖原表”。\r\n"@
            } else {
                "需要核对：\r\n"@ + warnings
            };
            notes_text(p) == "站点目录："@ + p.root + "\r\n"@ + checked
                + "\r\n源文件完整路径：\r\n"@ + sources
        }),
{
    warnings_are_flat(p.warnings, p.warnings.len());
    sources_are_flat(p.sources, p.sources.len());
    assert(Seq::new(
        p.sources.len(),
        |i: int|
            p.sources[i].sheet + " / "@ + p.sources[i].country + "："@ + p.sources[i].path + " ["@
                + p.sources[i].encoding + "]\r\n"@,
    ) =~= Seq::new(p.sources.len(), |i: int| source_line(p.sources[i])));
}

proof fn warnings_are_flat(warnings: Seq<Seq<char>>, n: nat)
    requires
        n <= warnings.len(),
    ensures
        warning_lines(warnings, n) == Seq::new(
            n,
            |i: int| "• "@ + warnings[i] + "\r\n"@,
        ).flatten(),
    decreases n,
{
    let all = Seq::new(n, |i: int| "• "@ + warnings[i] + "\r\n"@);
    if n > 0 {
        let m = (n - 1) as nat;
        warnings_are_flat(warnings, m);
        let fewer = Seq::new(m, |i: int| "• "@ + warnings[i] + "\r\n"@);
        assert(all =~= fewer.push("• "@ + warnings[n - 1] + "\r\n"@));
        fewer.lemma_flatten_push("• "@ + warnings[n - 1] + "\r\n"@);
    } else {
        assert(all =~= Seq::<Seq<char>>::empty());
    }
}

proof fn sources_are_flat(sources: Seq<SourceView>, n: nat)
    requires
        n <= sources.len(),
    ensures
        source_lines(sources, n) == Seq::new(n, |i: int| source_line(sources[i])).flatten(),
    decreases n,
{
    let all = Seq::new(n, |i: int| source_line(sources[i]));
    if n > 0 {
        let m = (n - 1) as nat;
        sources_are_flat(sources, m);
        let fewer = Seq::new(m, |i: int| source_line(sources[i]));
        assert(all =~= fewer.push(source_line(sources[n - 1])));
        fewer.lemma_flatten_push(source_line(sources[n - 1]));
    } else {
        assert(all =~= Seq::<Seq<char>>::empty());
    }
}

/// The row about a source says, in this order, for which worksheet and which country it is, the name of
/// its file, how many rows it has and how many values were made numbers, and when it was modified.
pub proof fn sources_are_shown(s: SourceView, name: Seq<char>)
    ensures
        ({
            let cells = source_cells(s, name);
            &&& cells.len() == 6
            &&& cells[0] == s.sheet
            &&& cells[1] == s.country
            &&& cells[2] == name
            &&& cells[3] == numeral(s.rows)
            &&& cells[4] == numeral(s.converted)
            &&& cells[5] == s.modified
        }),
{
}

/// The line about a plan says for which station and which day it is, how many sources it has and how many
/// worksheets it fills.
pub proof fn plans_are_summed_up(p: PlanView)
    ensures
        summary_text(p) == p.station + " 站    |    日期 "@ + p.date + "    |    "@ + numeral(
            p.sources.len(),
        ) + " 个源文件    |    将更新 "@ + numeral(p.names.len()) + " 张工作表"@,
{
}

/// A newer release is offered with its version, and any other is told to need no update; both lines name
/// the version of the program.
pub proof fn newer_releases_are_offered(u: UpdateView)
    ensures
        u.newer ==> update_text(u) == "发现新版本 v"@ + u.latest + "，当前 v"@ + "1.2.0"@
            + "。点击“下载并更新”，完成后自动重启。"@,
        !u.newer ==> update_text(u) == "当前 v"@ + "1.2.0"@ + "，最新正式版本 v"@ + u.latest
            + "，无需更新。"@,
{
}

/// The notes about a filled workbook name the workbook and its backup, or say that there is none.
pub proof fn backups_are_named(message: Seq<char>, target: Seq<char>, path: Seq<char>)
    ensures
        outcome_text(message, target, Some(path)) == message + "\r\n\r\n原表："@ + target + "\r\n"@
            + ("备份："@ + path + "\r\n"@),
        outcome_text(message, target, None) == message + "\r\n\r\n原表："@ + target + "\r\n"@
            + "本次未创建备份。\r\n"@,
{
}

/// The line about a filled workbook says how many worksheets were filled and how many values were made
/// numbers.
pub proof fn fillings_are_told(o: &Outcome)
    ensures
        forall|r: String| #[trigger]
            call_ensures(fill_status, (o,), r) ==> r@ == "填充完成："@ + numeral(o.sheets as nat)
                + " 张工作表，"@ + numeral(o.converted as nat) + " 个普通数字已转换。"@,
{
}

} // verus!
