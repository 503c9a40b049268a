//! Every worksheet that a plan may have rows for has rows in the end, or the warning that it stays as
//! it is, and never both.

use crate::inspect::{
    after_slot, missing_text, no_country_text, no_mexico_text, only_mexico_text, period_sheet,
    period_slots, sales_slots, sheet_for, slots_of, warned, FoundView, SlotView, State,
};
use crate::map::{ascending, lookup, lookup_at, lookup_nothing, what_is_put_is_found};
use crate::plan::PlanView;
use crate::source::candidates_text;
use crate::station::period_names;
use vstd::prelude::*;

verus! {

/// Whether a slot is the last one for a worksheet.
pub open spec fn closes(slot: SlotView, name: Seq<char>) -> bool {
    (slot is Stock || slot is End) && sheet_for(slot) == name
}

/// Whether the last slot for a worksheet lies before place `at`.
pub open spec fn closed(slots: Seq<SlotView>, at: int, name: Seq<char>) -> bool {
    exists|k: int| 0 <= k < at && closes(#[trigger] slots[k], name)
}

/// Whether a slot for a worksheet lies before place `at`.
pub open spec fn opened(slots: Seq<SlotView>, at: int, name: Seq<char>) -> bool {
    exists|k: int| 0 <= k < at && sheet_for(#[trigger] slots[k]) == name
}

/// Whether slots lie as they should: behind the last slot for a worksheet there is no other one for
/// it, a stock list is the only slot for its worksheet, and every worksheet has its last slot.
pub open spec fn well_laid(slots: Seq<SlotView>) -> bool {
    &&& forall|k: int, j: int|
        0 <= k < j < slots.len() && (slots[k] is Stock || slots[k] is End || slots[j] is Stock)
            ==> sheet_for(#[trigger] slots[k]) != sheet_for(#[trigger] slots[j])
    &&& forall|k: int|
        0 <= k < slots.len() ==> closed(slots, slots.len() as int, sheet_for(#[trigger] slots[k]))
}

/// Whether a worksheet has rows, or the warning that it stays as it is, and not both.
pub open spec fn accounted(plan: PlanView, name: Seq<char>) -> bool {
    plan.names.contains(name) <==> !plan.warnings.contains(missing_text(name))
}

/// What holds of a worksheet at place `at`: it is accounted for once its last slot is gone through,
/// has no such warning before, and no rows before its first slot.
pub open spec fn balanced(state: State, slots: Seq<SlotView>, at: int, name: Seq<char>) -> bool {
    let plan = state.0;
    let rows = lookup(plan.names, plan.tables, name) is Some;
    let warning = plan.warnings.contains(missing_text(name));
    &&& ascending(plan.names)
    &&& plan.names.len() == plan.tables.len()
    &&& closed(slots, at, name) ==> (rows <==> !warning)
    &&& !closed(slots, at, name) ==> !warning
    &&& !opened(slots, at, name) ==> !rows
}

proof fn pushing_adds(s: Seq<Seq<char>>, w: Seq<char>, m: Seq<char>)
    ensures
        s.push(w).contains(m) <==> s.contains(m) || w == m,
{
    let t = s.push(w);
    if s.contains(m) {
        let i = choose|i: int| 0 <= i < s.len() && s[i] == m;
        assert(t[i] == m);
    }
    if w == m {
        assert(t[s.len() as int] == m);
    }
    if t.contains(m) {
        let i = choose|i: int| 0 <= i < t.len() && t[i] == m;
        assert(i < s.len() ==> s[i] == m);
    }
}

/// The character before the last one.
spec fn before_last(s: Seq<char>) -> char {
    s[s.len() - 2]
}

proof fn endings_stay(a: Seq<char>, b: Seq<char>)
    requires
        b.len() >= 2,
    ensures
        before_last(a + b) == before_last(b),
{
}

/// The warning of choosing among candidates is not the one that a worksheet stays as it is.
pub proof fn candidates_are_not_missing(label: Seq<char>, n: nat, name: Seq<char>)
    ensures
        candidates_text(label, n) != missing_text(name),
{
    reveal_strlit(" 源文件，该工作表将保留原数据。");
    reveal_strlit(" 个候选文件，按修改时间选取最新文件，请核对。");
    endings_stay("缺少 "@ + name, " 源文件，该工作表将保留原数据。"@);
    endings_stay(
        label + "有 "@ + crate::text::numeral(n),
        " 个候选文件，按修改时间选取最新文件，请核对。"@,
    );
}

proof fn others_are_not_missing(
    country: Seq<char>,
    period: Seq<char>,
    sheet: Seq<char>,
    name: Seq<char>,
)
    ensures
        no_country_text(country, period) != missing_text(name),
        no_mexico_text(period) != missing_text(name),
        only_mexico_text(sheet) != missing_text(name),
{
    reveal_strlit(" 源文件，该工作表将保留原数据。");
    reveal_strlit("天报告，此周期未包含该国。");
    reveal_strlit("天报告，此周期不追加 MX。");
    reveal_strlit(" 缺少 US，仅使用 MX 报告（沿用原脚本规则）。");
    endings_stay("缺少 "@ + name, " 源文件，该工作表将保留原数据。"@);
    endings_stay(country + " 缺少 "@ + period, "天报告，此周期未包含该国。"@);
    endings_stay("MX 缺少 "@ + period, "天报告，此周期不追加 MX。"@);
    endings_stay(sheet, " 缺少 US，仅使用 MX 报告（沿用原脚本规则）。"@);
}

proof fn missing_texts_differ(a: Seq<char>, b: Seq<char>)
    ensures
        missing_text(a) == missing_text(b) ==> a == b,
{
    let x = missing_text(a);
    let y = missing_text(b);
    let n = "缺少 "@.len() as int;
    let m = " 源文件，该工作表将保留原数据。"@.len() as int;
    assert(x.subrange(n, x.len() - m) =~= a);
    assert(y.subrange(n, y.len() - m) =~= b);
}

/// A slot that is gone through keeps the balance of every worksheet.
pub proof fn slots_keep_the_balance(
    state: State,
    slots: Seq<SlotView>,
    at: int,
    warning: Option<Seq<char>>,
    found: FoundView,
    is_dir: bool,
    name: Seq<char>,
)
    requires
        well_laid(slots),
        0 <= at < slots.len(),
        balanced(state, slots, at, name),
        warning matches Some(w) ==> w != missing_text(name),
    ensures
        balanced(after_slot(state, slots[at], warning, found, is_dir), slots, at + 1, name),
{
    let slot = slots[at];
    let sheet = sheet_for(slot);
    let next = after_slot(state, slot, warning, found, is_dir);
    let m = missing_text(name);
    let first = match warning {
        Some(w) => warned(state.0, w),
        None => state.0,
    };
    if warning is Some {
        pushing_adds(state.0.warnings, warning->Some_0, m);
    }
    missing_texts_differ(sheet, name);
    // What lies before the next place is what lies before this one, and the slot.
    if closed(slots, at, name) {
        let k = choose|k: int| 0 <= k < at && closes(#[trigger] slots[k], name);
        assert(sheet_for(slots[k]) != sheet_for(slots[at]));
        assert(closed(slots, at + 1, name));
    }
    if closed(slots, at + 1, name) && !closed(slots, at, name) {
        let k = choose|k: int| 0 <= k < at + 1 && closes(#[trigger] slots[k], name);
        assert(k == at);
    }
    if opened(slots, at, name) {
        let k = choose|k: int| 0 <= k < at && sheet_for(#[trigger] slots[k]) == name;
        assert(opened(slots, at + 1, name));
    }
    assert(sheet == name ==> opened(slots, at + 1, name));
    assert(closes(slot, name) ==> closed(slots, at + 1, name));
    if slot is Stock && sheet == name {
        assert forall|k: int| 0 <= k < at implies sheet_for(#[trigger] slots[k]) != name by {
            assert(sheet_for(slots[k]) != sheet_for(slots[at]));
        }
        assert(!opened(slots, at, name));
    }
    let table = match found {
        Some((_, rows)) => rows,
        None => Seq::empty(),
    };
    match slot {
        SlotView::Stock(s) => {
            what_is_put_is_found(first.names, first.tables, s, table, name);
            pushing_adds(first.warnings, missing_text(s), m);
        },
        SlotView::Primary(p) => {
            what_is_put_is_found(first.names, first.tables, sheet, table, name);
        },
        SlotView::Country(p, c) => {
            others_are_not_missing(c, p, sheet, name);
            pushing_adds(first.warnings, no_country_text(c, p), m);
        },
        SlotView::Mexico(p) => {
            others_are_not_missing(sheet, p, sheet, name);
            pushing_adds(first.warnings, no_mexico_text(p), m);
            pushing_adds(first.warnings, only_mexico_text(sheet), m);
            let old_rows = lookup(first.names, first.tables, sheet);
            let more = match old_rows {
                Some(existing) => existing + crate::inspect::gap() + table.skip(1),
                None => table,
            };
            what_is_put_is_found(first.names, first.tables, sheet, more, name);
        },
        SlotView::End(p) => {
            what_is_put_is_found(first.names, first.tables, sheet, state.1, name);
            pushing_adds(first.warnings, missing_text(sheet), m);
        },
    }
}

/// A worksheet is accounted for in the end.
pub proof fn the_balance_accounts(state: State, slots: Seq<SlotView>, name: Seq<char>)
    requires
        well_laid(slots),
        balanced(state, slots, slots.len() as int, name),
        opened(slots, slots.len() as int, name),
    ensures
        accounted(state.0, name),
{
    let k = choose|k: int| 0 <= k < slots.len() && sheet_for(#[trigger] slots[k]) == name;
    assert(closed(slots, slots.len() as int, sheet_for(slots[k])));
    let plan = state.0;
    if plan.names.contains(name) {
        let i = choose|i: int| 0 <= i < plan.names.len() && plan.names[i] == name;
        lookup_at(plan.names, plan.tables, i);
    } else {
        lookup_nothing(plan.names, plan.tables, name);
    }
}

proof fn periods_differ(i: int, j: int)
    requires
        0 <= i < j < period_names().len(),
    ensures
        period_sheet(period_names()[i]) != period_sheet(period_names()[j]),
{
    reveal_strlit("7");
    reveal_strlit("14");
    reveal_strlit("30");
    reveal_strlit("60");
    reveal_strlit("90");
    let a = period_sheet(period_names()[i]);
    let b = period_sheet(period_names()[j]);
    assert(a[0] == period_names()[i][0]);
    assert(b[0] == period_names()[j][0]);
}

/// The slots of a period are all for its worksheet, and its end is the last one of them.
proof fn periods_are_laid(station: Seq<char>, period: Seq<char>)
    ensures
        ({
            let s = period_slots(station, period);
            &&& s.len() > 0
            &&& s.last() is End
            &&& forall|k: int|
                0 <= k < s.len() ==> sheet_for(#[trigger] s[k]) == period_sheet(period) && !(
                s[k] is Stock)
            &&& forall|k: int| 0 <= k < s.len() - 1 ==> !((#[trigger] s[k]) is End)
        }),
{
}

proof fn sales_are_laid(station: Seq<char>, n: nat)
    requires
        n <= period_names().len(),
    ensures
        ({
            let s = sales_slots(station, n);
            &&& well_laid(s)
            &&& forall|k: int| 0 <= k < s.len() ==> !((#[trigger] s[k]) is Stock)
            &&& forall|k: int|
                0 <= k < s.len() ==> exists|m: int|
                    0 <= m < n && sheet_for(#[trigger] s[k]) == period_sheet(
                        #[trigger] period_names()[m],
                    )
        }),
    decreases n,
{
    if n > 0 {
        let s = sales_slots(station, n);
        let a = sales_slots(station, (n - 1) as nat);
        let period = period_names()[n - 1];
        let b = period_slots(station, period);
        sales_are_laid(station, (n - 1) as nat);
        periods_are_laid(station, period);
        assert forall|k: int| 0 <= k < s.len() implies exists|m: int|
            0 <= m < n && sheet_for(#[trigger] s[k]) == period_sheet(
                #[trigger] period_names()[m],
            ) by {
            if k < a.len() {
                let m = choose|m: int|
                    0 <= m < n - 1 && sheet_for(a[k]) == period_sheet(#[trigger] period_names()[m]);
                assert(s[k] == a[k]);
                assert(sheet_for(s[k]) == period_sheet(period_names()[m]));
            } else {
                assert(s[k] == b[k - a.len()]);
                assert(sheet_for(s[k]) == period_sheet(period_names()[n - 1]));
            }
        }
        assert forall|k: int| 0 <= k < s.len() implies !((#[trigger] s[k]) is Stock) by {
            if k < a.len() {
                assert(s[k] == a[k]);
            } else {
                assert(s[k] == b[k - a.len()]);
            }
        }
        assert forall|k: int, j: int|
            0 <= k < j < s.len() && (s[k] is Stock || s[k] is End || s[j] is Stock) implies
            sheet_for(#[trigger] s[k]) != sheet_for(#[trigger] s[j]) by {
            if j < a.len() {
                assert(s[k] == a[k] && s[j] == a[j]);
            } else {
                assert(s[j] == b[j - a.len()]);
                if k < a.len() {
                    assert(s[k] == a[k]);
                    let m = choose|m: int|
                        0 <= m < n - 1 && sheet_for(a[k]) == period_sheet(
                            #[trigger] period_names()[m],
                        );
                    periods_differ(m, n - 1);
                } else {
                    assert(s[k] == b[k - a.len()]);
                }
            }
        }
        assert forall|k: int| 0 <= k < s.len() implies closed(
            s,
            s.len() as int,
            sheet_for(#[trigger] s[k]),
        ) by {
            if k < a.len() {
                assert(s[k] == a[k]);
                let c = choose|c: int| 0 <= c < a.len() && closes(#[trigger] a[c], sheet_for(a[k]));
                assert(s[c] == a[c]);
                assert(closes(s[c], sheet_for(s[k])));
            } else {
                assert(s[k] == b[k - a.len()]);
                assert(s[s.len() - 1] == b.last());
                assert(closes(s[s.len() - 1], sheet_for(s[k])));
            }
        }
    }
}

/// The slots of every station lie as they should.
pub proof fn schedules_are_laid(station: Seq<char>)
    ensures
        well_laid(slots_of(station)),
        slots_of(station).len() > 0,
{
    let s = slots_of(station);
    let a = seq![SlotView::Stock("FBA库存"@), SlotView::Stock("限制发货数量"@)];
    let b = sales_slots(station, period_names().len());
    sales_are_laid(station, period_names().len());
    reveal_strlit("FBA库存");
    reveal_strlit("限制发货数量");
    reveal_strlit("天销");
    assert("FBA库存"@.len() != "限制发货数量"@.len());
    assert forall|k: int| 2 <= k < s.len() implies sheet_for(#[trigger] s[k]) != "FBA库存"@
        && sheet_for(s[k]) != "限制发货数量"@ by {
        assert(s[k] == b[k - 2]);
        let m = choose|m: int|
            0 <= m < period_names().len() && sheet_for(b[k - 2]) == period_sheet(
                #[trigger] period_names()[m],
            );
        let sheet = sheet_for(s[k]);
        assert(sheet == period_names()[m] + "天销"@);
        assert(sheet[sheet.len() - 1] == '销');
    }
    assert forall|k: int, j: int|
        0 <= k < j < s.len() && (s[k] is Stock || s[k] is End || s[j] is Stock) implies sheet_for(
        #[trigger] s[k],
    ) != sheet_for(#[trigger] s[j]) by {
        if k >= 2 {
            assert(s[k] == b[k - 2] && s[j] == b[j - 2]);
        }
    }
    assert forall|k: int| 0 <= k < s.len() implies closed(
        s,
        s.len() as int,
        sheet_for(#[trigger] s[k]),
    ) by {
        if k < 2 {
            assert(closes(s[k], sheet_for(s[k])));
        } else {
            assert(s[k] == b[k - 2]);
            let c = choose|c: int| 0 <= c < b.len() && closes(#[trigger] b[c], sheet_for(b[k - 2]));
            assert(s[c + 2] == b[c]);
            assert(closes(s[c + 2], sheet_for(s[k])));
        }
    }
}

} // verus!
