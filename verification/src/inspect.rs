//! Inspecting a plan: which sources are looked for, in which order, and how their rows come
//! together in the worksheets.

use crate::load::{duplicate_row, LoadError, LoadErrorView, Loaded, LoadedView};
use crate::map::{
    ascending, keys_with, lookup, rank_bounds, values_with, what_is_put_is_found,
};
use crate::plan::{sources_view, Plan, PlanView, Source, SourceView};
use crate::rewrite::tables_view;
use crate::source::{
    choice_warning, files, is_source_entry, latest, listing_view, newest, none_is_newer, report_file,
    report_places, report_stem, source_places, sources_are_in_range, sources_ascend,
    sources_have_places, stem_of, stems_are_kept, stems_ascend, Choice, Listed, ListedView,
};
use crate::station::{eu, eu_codes, period_names, periods, texts};
use crate::text::{before, has_text, lower, numeral, same, stands_between, texts_of};
use crate::value::{row_view, table_view, Value, ValueView};
use vstd::prelude::*;
use vstd::string::StringExecFns;

verus! {

/// A place where a source is looked for, or the end of a period. Periods are numbers of days.
pub enum Slot {
    /// The stock list with the given name.
    Stock(String),
    /// The report of the plan's own code for a period.
    Primary(String),
    /// The report of a country for a period.
    Country(String, String),
    /// The Mexican report for a period.
    Mexico(String),
    /// The end of a period.
    End(String),
}

/// A place where a source is looked for, in contracts.
pub enum SlotView {
    Stock(Seq<char>),
    Primary(Seq<char>),
    Country(Seq<char>, Seq<char>),
    Mexico(Seq<char>),
    End(Seq<char>),
}

impl View for Slot {
    type V = SlotView;

    open spec fn view(&self) -> SlotView {
        match self {
            Slot::Stock(s) => SlotView::Stock(s@),
            Slot::Primary(p) => SlotView::Primary(p@),
            Slot::Country(p, c) => SlotView::Country(p@, c@),
            Slot::Mexico(p) => SlotView::Mexico(p@),
            Slot::End(p) => SlotView::End(p@),
        }
    }
}

/// The slots of a list, each by its view.
pub open spec fn slots_view(slots: Seq<Slot>) -> Seq<SlotView> {
    Seq::new(slots.len(), |i: int| slots[i]@)
}

/// The slots of a period, for a station.
pub open spec fn period_slots(station: Seq<char>, period: Seq<char>) -> Seq<SlotView> {
    if station == "EU"@ {
        Seq::new(eu_codes().len(), |i: int| SlotView::Country(period, eu_codes()[i])).push(
            SlotView::End(period),
        )
    } else if station == "US"@ {
        seq![SlotView::Primary(period), SlotView::Mexico(period), SlotView::End(period)]
    } else {
        seq![SlotView::Primary(period), SlotView::End(period)]
    }
}

/// The slots of the first `n` periods, for a station.
pub open spec fn sales_slots(station: Seq<char>, n: nat) -> Seq<SlotView>
    decreases n,
{
    if n == 0 {
        Seq::empty()
    } else {
        sales_slots(station, (n - 1) as nat) + period_slots(station, period_names()[n - 1])
    }
}

/// All slots of a station, in order: the stock lists and then the periods.
pub open spec fn slots_of(station: Seq<char>) -> Seq<SlotView> {
    seq![SlotView::Stock("FBA库存"@), SlotView::Stock("限制发货数量"@)] + sales_slots(
        station,
        period_names().len(),
    )
}

/// Adds the slots of a period.
fn push_period(slots: &mut Vec<Slot>, station: &str, period: &str)
    ensures
        slots_view(final(slots)@) == slots_view(old(slots)@) + period_slots(station@, period@),
{
    let ghost before = slots_view(slots@);
    if same(station, "EU") {
        let codes: Vec<&'static str> = eu();
        let mut i: usize = 0;
        while i < codes.len()
            invariant
                texts(codes@) == eu_codes(),
                i <= codes.len(),
                slots_view(slots@) == before + Seq::new(
                    i as nat,
                    |j: int| SlotView::Country(period@, eu_codes()[j]),
                ),
            decreases codes.len() - i,
        {
            let ghost was = slots_view(slots@);
            assert(texts(codes@)[i as int] == codes@[i as int]@);
            slots.push(Slot::Country(period.to_string(), codes[i].to_string()));
            i = i + 1;
            assert(slots_view(slots@) =~= was.push(
                SlotView::Country(period@, eu_codes()[i - 1]),
            ));
            assert(slots_view(slots@) =~= before + Seq::new(
                i as nat,
                |j: int| SlotView::Country(period@, eu_codes()[j]),
            ));
        }
        let ghost all = slots_view(slots@);
        assert(i == eu_codes().len()) by {
            assert(texts(codes@).len() == codes@.len());
        }
        slots.push(Slot::End(period.to_string()));
        assert(slots_view(slots@) =~= all.push(SlotView::End(period@)));
        assert(slots_view(slots@) =~= before + period_slots(station@, period@));
    } else if same(station, "US") {
        slots.push(Slot::Primary(period.to_string()));
        slots.push(Slot::Mexico(period.to_string()));
        slots.push(Slot::End(period.to_string()));
        assert(slots_view(slots@) =~= before + period_slots(station@, period@));
    } else {
        slots.push(Slot::Primary(period.to_string()));
        slots.push(Slot::End(period.to_string()));
        assert(slots_view(slots@) =~= before + period_slots(station@, period@));
    }
}

/// All slots of a station, in order.
pub fn schedule(station: &str) -> (r: Vec<Slot>)
    ensures
        slots_view(r@) == slots_of(station@),
{
    let mut slots: Vec<Slot> = Vec::new();
    slots.push(Slot::Stock("FBA库存".to_string()));
    slots.push(Slot::Stock("限制发货数量".to_string()));
    let ghost stocks = seq![SlotView::Stock("FBA库存"@), SlotView::Stock("限制发货数量"@)];
    assert(slots_view(slots@) =~= stocks);
    assert(stocks + sales_slots(station@, 0) =~= stocks);
    let names: Vec<&'static str> = periods();
    let mut i: usize = 0;
    while i < names.len()
        invariant
            texts(names@) == period_names(),
            i <= names.len(),
            slots_view(slots@) == stocks + sales_slots(station@, i as nat),
        decreases names.len() - i,
    {
        assert(texts(names@)[i as int] == names@[i as int]@);
        push_period(&mut slots, station, names[i]);
        i = i + 1;
        assert(slots_view(slots@) =~= stocks + sales_slots(station@, i as nat));
    }
    assert(texts(names@).len() == names@.len());
    slots
}

/// The worksheet of a period.
pub open spec fn period_sheet(period: Seq<char>) -> Seq<char> {
    period + "天销"@
}

/// The worksheet that a slot is for.
pub open spec fn sheet_for(slot: SlotView) -> Seq<char> {
    match slot {
        SlotView::Stock(s) => s,
        SlotView::Primary(p) => period_sheet(p),
        SlotView::Country(p, _) => period_sheet(p),
        SlotView::Mexico(p) => period_sheet(p),
        SlotView::End(p) => period_sheet(p),
    }
}

/// The country code of the source in a slot, for a plan with the given code.
pub open spec fn code_for(slot: SlotView, code: Seq<char>) -> Seq<char> {
    match slot {
        SlotView::Country(_, c) => c,
        SlotView::Mexico(_) => "MX"@,
        _ => code,
    }
}

/// The folder that the source in a slot is looked for in, as the names that lead to it from the
/// folder of the plan. The end of a period has none.
pub open spec fn folder_for(slot: SlotView, date: Seq<char>) -> Seq<Seq<char>> {
    match slot {
        SlotView::Stock(s) => seq![s],
        SlotView::Primary(_) => seq!["业务报告"@, date],
        SlotView::Country(_, c) => seq!["业务报告"@, date, c],
        SlotView::Mexico(_) => seq!["业务报告"@, date, "MX"@],
        SlotView::End(_) => Seq::empty(),
    }
}

/// The source that is taken from the entries of the folder of a slot: its place and the warning.
pub open spec fn choice_for(
    slot: SlotView,
    code: Seq<char>,
    date: Seq<char>,
    entries: Seq<ListedView>,
) -> (Option<int>, Option<Seq<char>>) {
    match slot {
        SlotView::Stock(s) => {
            let places = source_places(entries, entries.len());
            (newest(entries, places), choice_warning(s, places.len()))
        },
        SlotView::End(_) => (None, None),
        SlotView::Primary(p) | SlotView::Country(p, _) | SlotView::Mexico(p) => {
            let c = code_for(slot, code);
            let places = report_places(entries, c, p, date);
            (newest(entries, places), choice_warning(c + " "@ + p + "天销"@, places.len()))
        },
    }
}

impl Slot {
    /// The worksheet that the slot is for.
    pub fn sheet(&self) -> (r: String)
        ensures
            r@ == sheet_for(self@),
    {
        match self {
            Slot::Stock(s) => s.clone(),
            Slot::Primary(p) | Slot::Country(p, _) | Slot::Mexico(p) | Slot::End(p) => {
                let mut r: String = p.clone();
                r.append("天销");
                r
            },
        }
    }

    /// The country code of the source in the slot, for a plan with the given code.
    pub fn country(&self, code: &str) -> (r: String)
        ensures
            r@ == code_for(self@, code@),
    {
        match self {
            Slot::Country(_, c) => c.clone(),
            Slot::Mexico(_) => "MX".to_string(),
            _ => code.to_string(),
        }
    }

    /// Whether the source in the slot is a sales report.
    pub fn is_sales(&self) -> (r: bool)
        ensures
            r == !(self@ is Stock),
    {
        match self {
            Slot::Stock(_) => false,
            _ => true,
        }
    }

    /// The folder that the source in the slot is looked for in.
    pub fn folder(&self, date: &str) -> (r: Vec<String>)
        ensures
            texts_of(r@) == folder_for(self@, date@),
    {
        let mut r: Vec<String> = Vec::new();
        match self {
            Slot::Stock(s) => {
                r.push(s.clone());
            },
            Slot::Primary(_) => {
                r.push("业务报告".to_string());
                r.push(date.to_string());
            },
            Slot::Country(_, c) => {
                r.push("业务报告".to_string());
                r.push(date.to_string());
                r.push(c.clone());
            },
            Slot::Mexico(_) => {
                r.push("业务报告".to_string());
                r.push(date.to_string());
                r.push("MX".to_string());
            },
            Slot::End(_) => {},
        }
        assert(texts_of(r@) =~= folder_for(self@, date@));
        r
    }

    /// The source that is taken from the entries of the folder of the slot.
    pub fn choose_from(&self, code: &str, date: &str, entries: &Vec<Listed>) -> (r: Choice)
        ensures
            choice_for(self@, code@, date@, listing_view(entries@)) == (
                match r.place {
                    Some(i) => Some(i as int),
                    None => None,
                },
                match r.warning {
                    Some(s) => Some(s@),
                    None => None,
                },
            ),
            r.place matches Some(i) ==> i < entries@.len(),
    {
        match self {
            Slot::Stock(s) => {
                let places: Vec<usize> = files(entries);
                latest(entries, &places, s.as_str())
            },
            Slot::End(_) => Choice { place: None, warning: None },
            Slot::Primary(p) => report_file(entries, code, p.as_str(), date),
            Slot::Country(p, c) => report_file(entries, c.as_str(), p.as_str(), date),
            Slot::Mexico(p) => report_file(entries, "MX", p.as_str(), date),
        }
    }
}

/// A report that was found and loaded.
pub struct Found {
    pub source: Source,
    pub rows: Vec<Vec<Value>>,
}

/// The source of a loaded report in the file with the given path, whose fingerprint was `before`
/// when it was opened.
pub open spec fn source_of(
    path: Seq<char>,
    sheet: Seq<char>,
    country: Seq<char>,
    loaded: LoadedView,
    before: Seq<char>,
    modified: Seq<char>,
) -> SourceView {
    SourceView {
        path,
        sheet,
        country,
        rows: (loaded.rows.len() - 1) as nat,
        columns: loaded.columns,
        converted: loaded.converted,
        encoding: loaded.encoding,
        modified,
        hash: before,
    }
}

/// A loaded report as it is found, unless the fingerprint of its file changed while it was read.
pub fn register(
    path: &str,
    slot: &Slot,
    code: &str,
    loaded: Loaded,
    before: &str,
    after: &str,
    modified: &str,
) -> (r: Result<Found, LoadError>)
    requires
        loaded.rows.len() > 0,
    ensures
        match r {
            Ok(f) => before@ == after@ && f.source@ == source_of(
                path@,
                sheet_for(slot@),
                code_for(slot@, code@),
                loaded@,
                before@,
                modified@,
            ) && table_view(f.rows@) == loaded@.rows,
            Err(e) => before@ != after@ && e@ == LoadErrorView::Changed,
        },
{
    if !same(after, before) {
        return Err(LoadError::Changed);
    }
    let source: Source = Source {
        path: path.to_string(),
        sheet: slot.sheet(),
        country: slot.country(code),
        rows: loaded.rows.len() - 1,
        columns: loaded.columns,
        converted: loaded.converted,
        encoding: loaded.encoding,
        modified: modified.to_string(),
        hash: before.to_string(),
    };
    Ok(Found { source, rows: loaded.rows })
}

/// A plan with one more warning.
pub open spec fn warned(plan: PlanView, warning: Seq<char>) -> PlanView {
    PlanView { warnings: plan.warnings.push(warning), ..plan }
}

/// A plan with one more source.
pub open spec fn with_source(plan: PlanView, source: SourceView) -> PlanView {
    PlanView { sources: plan.sources.push(source), ..plan }
}

/// A plan with rows for a worksheet.
pub open spec fn with_sheet(plan: PlanView, name: Seq<char>, rows: Seq<Seq<ValueView>>) -> PlanView {
    PlanView {
        names: keys_with(plan.names, name),
        tables: values_with(plan.names, plan.tables, name, rows),
        ..plan
    }
}

/// The warning that a worksheet stays as it is.
pub open spec fn missing_text(sheet: Seq<char>) -> Seq<char> {
    "缺少 "@ + sheet + " 源文件，该工作表将保留原数据。"@
}

/// The warning that a country has no report for a period.
pub open spec fn no_country_text(country: Seq<char>, period: Seq<char>) -> Seq<char> {
    country + " 缺少 "@ + period + "天报告，此周期未包含该国。"@
}

/// The warning that Mexico has no report for a period.
pub open spec fn no_mexico_text(period: Seq<char>) -> Seq<char> {
    "MX 缺少 "@ + period + "天报告，此周期不追加 MX。"@
}

/// The warning that there is a Mexican report only.
pub open spec fn only_mexico_text(sheet: Seq<char>) -> Seq<char> {
    sheet + " 缺少 US，仅使用 MX 报告（沿用原脚本规则）。"@
}

/// A row of the given length: cut, or with blank cells added.
pub open spec fn resized(row: Seq<ValueView>, n: nat) -> Seq<ValueView> {
    Seq::new(
        n,
        |i: int|
            if i < row.len() {
                row[i]
            } else {
                ValueView::Blank
            },
    )
}

/// The rows of a country, with the country behind the header.
pub open spec fn headed(rows: Seq<Seq<ValueView>>, country: Seq<char>) -> Seq<Seq<ValueView>> {
    rows.update(0, resized(rows[0], 17).update(16, ValueView::Text(country)))
}

/// Two rows without cells.
pub open spec fn gap() -> Seq<Seq<ValueView>> {
    seq![Seq::empty(), Seq::empty()]
}

/// The rows of a further country behind those that there are, after a gap.
pub open spec fn joined(
    combined: Seq<Seq<ValueView>>,
    rows: Seq<Seq<ValueView>>,
) -> Seq<Seq<ValueView>> {
    if combined.len() == 0 {
        rows
    } else {
        combined + gap() + rows
    }
}

/// The state of an inspection: the plan so far, and the rows of the countries of the period.
pub type State = (PlanView, Seq<Seq<ValueView>>);

/// What is found in a slot: the source and the rows.
pub type FoundView = Option<(SourceView, Seq<Seq<ValueView>>)>;

/// What is found, in contracts.
pub open spec fn found_view(found: Option<Found>) -> FoundView {
    match found {
        Some(f) => Some((f.source@, table_view(f.rows@))),
        None => None,
    }
}

/// The plan once a stock list was looked for.
pub open spec fn after_stock(plan: PlanView, sheet: Seq<char>, found: FoundView) -> PlanView {
    match found {
        Some((source, rows)) => with_sheet(with_source(plan, source), sheet, rows),
        None => warned(plan, missing_text(sheet)),
    }
}

/// The plan once the report of its own code was looked for.
pub open spec fn after_primary(plan: PlanView, sheet: Seq<char>, found: FoundView) -> PlanView {
    match found {
        Some((source, rows)) => with_sheet(with_source(plan, source), sheet, rows),
        None => plan,
    }
}

/// The state once the report of a country was looked for.
pub open spec fn after_country(
    state: State,
    period: Seq<char>,
    country: Seq<char>,
    found: FoundView,
    is_dir: bool,
) -> State {
    match found {
        Some((source, rows)) => (
            with_source(state.0, source),
            joined(state.1, headed(rows, country)),
        ),
        None => if is_dir {
            (warned(state.0, no_country_text(country, period)), state.1)
        } else {
            state
        },
    }
}

/// The plan once the Mexican report was looked for: its rows, without their header, go behind those
/// that there are, after a gap.
pub open spec fn after_mexico(
    plan: PlanView,
    period: Seq<char>,
    found: FoundView,
    is_dir: bool,
) -> PlanView {
    let sheet = period_sheet(period);
    match found {
        Some((source, rows)) => {
            let next = with_source(plan, source);
            match lookup(next.names, next.tables, sheet) {
                Some(existing) => with_sheet(next, sheet, existing + gap() + rows.skip(1)),
                None => with_sheet(warned(next, only_mexico_text(sheet)), sheet, rows),
            }
        },
        None => if is_dir {
            warned(plan, no_mexico_text(period))
        } else {
            plan
        },
    }
}

/// The state at the end of a period: the rows of its countries are put into its worksheet, and
/// there is a warning where that has none.
pub open spec fn after_period(state: State, period: Seq<char>) -> State {
    let sheet = period_sheet(period);
    let plan = if state.1.len() > 0 {
        with_sheet(state.0, sheet, state.1)
    } else {
        state.0
    };
    (
        if lookup(plan.names, plan.tables, sheet) is None {
            warned(plan, missing_text(sheet))
        } else {
            plan
        },
        Seq::empty(),
    )
}

/// The state once a source was looked for in a slot, with the warning of choosing it.
pub open spec fn after_slot(
    state: State,
    slot: SlotView,
    warning: Option<Seq<char>>,
    found: FoundView,
    is_dir: bool,
) -> State {
    let plan = match warning {
        Some(w) => warned(state.0, w),
        None => state.0,
    };
    match slot {
        SlotView::Stock(s) => (after_stock(plan, s, found), state.1),
        SlotView::Primary(p) => (after_primary(plan, period_sheet(p), found), state.1),
        SlotView::Country(p, c) => after_country((plan, state.1), p, c, found, is_dir),
        SlotView::Mexico(p) => (after_mexico(plan, p, found, is_dir), state.1),
        SlotView::End(p) => after_period((plan, state.1), p),
    }
}

impl Plan {
    /// Adds a warning.
    pub fn warn(&mut self, warning: String)
        requires
            old(self).wf(),
        ensures
            final(self).wf(),
            final(self)@ == warned(old(self)@, warning@),
    {
        let ghost before = texts_of(self.warnings@);
        self.warnings.push(warning);
        assert(texts_of(self.warnings@) =~= before.push(warning@));
    }

    /// Adds a source.
    fn add_source(&mut self, source: Source)
        requires
            old(self).wf(),
        ensures
            final(self).wf(),
            final(self)@ == with_source(old(self)@, source@),
    {
        let ghost before = sources_view(self.sources@);
        self.sources.push(source);
        assert(sources_view(self.sources@) =~= before.push(source@));
    }

    /// Sets the rows for a worksheet.
    fn set_sheet(&mut self, name: String, rows: Vec<Vec<Value>>)
        requires
            old(self).wf(),
        ensures
            final(self).wf(),
            final(self)@ == with_sheet(old(self)@, name@, table_view(rows@)),
    {
        let ghost keys = self.sheets.keys();
        let ghost values = self.sheets.values();
        proof {
            rank_bounds(keys, name@);
        }
        self.sheets.insert(name, rows);
        assert(tables_view(self.sheets.values()) =~= values_with(
            keys,
            tables_view(values),
            name@,
            table_view(rows@),
        ));
    }

    /// The rows for a worksheet.
    pub fn sheet(&self, name: &str) -> (r: Option<&Vec<Vec<Value>>>)
        requires
            self.wf(),
        ensures
            lookup(self@.names, self@.tables, name@) == (match r {
                Some(rows) => Some(table_view(rows@)),
                None => None,
            }),
    {
        proof {
            rank_bounds(self.sheets.keys(), name@);
        }
        self.sheets.get(name)
    }
}

/// An inspection that is under way.
pub struct Inspection {
    pub plan: Plan,
    pub combined: Vec<Vec<Value>>,
}

/// Adds a gap and the rows from `from` on.
fn extend_after_gap(rows: &mut Vec<Vec<Value>>, more: &Vec<Vec<Value>>, from: usize)
    requires
        from <= more.len(),
    ensures
        table_view(final(rows)@) == table_view(old(rows)@) + gap() + table_view(more@).skip(
            from as int,
        ),
{
    let ghost start = table_view(rows@);
    let first: Vec<Value> = Vec::new();
    let second: Vec<Value> = Vec::new();
    assert(row_view(first@) =~= Seq::<ValueView>::empty());
    assert(row_view(second@) =~= Seq::<ValueView>::empty());
    rows.push(first);
    rows.push(second);
    assert(table_view(rows@) =~= start + gap());
    let mut i: usize = from;
    assert(table_view(rows@) =~= start + gap() + table_view(more@).subrange(
        from as int,
        from as int,
    ));
    while i < more.len()
        invariant
            from <= i <= more.len(),
            table_view(rows@) == start + gap() + table_view(more@).subrange(from as int, i as int),
        decreases more.len() - i,
    {
        let ghost was = table_view(rows@);
        rows.push(duplicate_row(&more[i]));
        i = i + 1;
        assert(table_view(rows@) =~= was.push(table_view(more@)[i - 1]));
        assert(table_view(rows@) =~= start + gap() + table_view(more@).subrange(
            from as int,
            i as int,
        ));
    }
    assert(table_view(more@).subrange(from as int, more@.len() as int) =~= table_view(more@).skip(
        from as int,
    ));
}

/// The same rows once more.
fn duplicate_rows(rows: &Vec<Vec<Value>>) -> (r: Vec<Vec<Value>>)
    ensures
        table_view(r@) == table_view(rows@),
{
    let mut out: Vec<Vec<Value>> = Vec::new();
    let mut i: usize = 0;
    while i < rows.len()
        invariant
            i <= rows.len(),
            out.len() == i,
            forall|j: int| 0 <= j < i ==> row_view((#[trigger] out@[j])@) == row_view(rows@[j]@),
        decreases rows.len() - i,
    {
        out.push(duplicate_row(&rows[i]));
        i = i + 1;
    }
    assert(table_view(out@) =~= table_view(rows@));
    out
}

/// The header of the rows of a country: of seventeen cells, the last with the country.
fn country_header(row: &Vec<Value>, country: &str) -> (r: Vec<Value>)
    ensures
        row_view(r@) == resized(row_view(row@), 17).update(16, ValueView::Text(country@)),
{
    let mut out: Vec<Value> = Vec::new();
    let mut i: usize = 0;
    while i < 16
        invariant
            i <= 16,
            out.len() == i,
            forall|j: int|
                0 <= j < i ==> (#[trigger] out@[j])@ == resized(row_view(row@), 17)[j],
        decreases 16 - i,
    {
        if i < row.len() {
            out.push(row[i].duplicate());
        } else {
            out.push(Value::Blank);
        }
        i = i + 1;
    }
    out.push(Value::Text(country.to_string()));
    assert(row_view(out@) =~= resized(row_view(row@), 17).update(16, ValueView::Text(country@)));
    out
}

impl Inspection {
    /// An inspection of a plan without sources.
    pub fn new(plan: Plan) -> (r: Self)
        requires
            plan.wf(),
        ensures
            r.wf(),
            r.state() == (plan@, Seq::<Seq<ValueView>>::empty()),
    {
        let r: Inspection = Inspection { plan, combined: Vec::new() };
        assert(table_view(r.combined@) =~= Seq::<Seq<ValueView>>::empty());
        r
    }

    /// Whether the plan is well formed.
    pub open spec fn wf(&self) -> bool {
        self.plan.wf()
    }

    /// The state, in contracts.
    pub open spec fn state(&self) -> State {
        (self.plan@, table_view(self.combined@))
    }

    /// Takes the rows of a country over.
    fn take_country(&mut self, country: &str, found: Found)
        requires
            old(self).wf(),
            found.rows.len() > 0,
        ensures
            final(self).wf(),
            final(self).state() == (
                with_source(old(self).state().0, found.source@),
                joined(old(self).state().1, headed(table_view(found.rows@), country@)),
            ),
    {
        let ghost before = self.state();
        let Found { source, rows } = found;
        let ghost table = table_view(rows@);
        self.plan.add_source(source);
        let header: Vec<Value> = country_header(&rows[0], country);
        let mut block: Vec<Vec<Value>> = rows;
        block.set(0, header);
        assert(table_view(block@) =~= headed(table, country@));
        if self.combined.len() == 0 {
            self.combined = block;
            assert(table_view(self.combined@) =~= joined(before.1, headed(table, country@)));
        } else {
            extend_after_gap(&mut self.combined, &block, 0);
            assert(headed(table, country@).skip(0) =~= headed(table, country@));
            assert(table_view(self.combined@) =~= joined(before.1, headed(table, country@)));
        }
    }

    /// Takes the Mexican rows over.
    fn take_mexico(&mut self, period: &str, found: Found)
        requires
            old(self).wf(),
            found.rows.len() > 0,
        ensures
            final(self).wf(),
            final(self).state() == (
                after_mexico(
                    old(self).state().0,
                    period@,
                    Some((found.source@, table_view(found.rows@))),
                    false,
                ),
                old(self).state().1,
            ),
    {
        let Found { source, rows } = found;
        self.plan.add_source(source);
        let mut sheet: String = period.to_string();
        sheet.append("天销");
        let existing: Option<Vec<Vec<Value>>> = match self.plan.sheet(sheet.as_str()) {
            Some(old_rows) => Some(duplicate_rows(old_rows)),
            None => None,
        };
        match existing {
            Some(old_rows) => {
                let mut all: Vec<Vec<Value>> = old_rows;
                extend_after_gap(&mut all, &rows, 1);
                self.plan.set_sheet(sheet, all);
            },
            None => {
                let mut warning: String = sheet.clone();
                warning.append(" 缺少 US，仅使用 MX 报告（沿用原脚本规则）。");
                self.plan.warn(warning);
                self.plan.set_sheet(sheet, rows);
            },
        }
    }

    /// Ends a period.
    fn end_period(&mut self, period: &str)
        requires
            old(self).wf(),
        ensures
            final(self).wf(),
            final(self).state() == after_period(old(self).state(), period@),
    {
        let mut sheet: String = period.to_string();
        sheet.append("天销");
        let mut rows: Vec<Vec<Value>> = Vec::new();
        std::mem::swap(&mut rows, &mut self.combined);
        assert(table_view(self.combined@) =~= Seq::<Seq<ValueView>>::empty());
        if rows.len() > 0 {
            self.plan.set_sheet(sheet.clone(), rows);
        }
        if self.plan.sheet(sheet.as_str()).is_none() {
            let mut warning: String = "缺少 ".to_string();
            warning.append(sheet.as_str());
            warning.append(" 源文件，该工作表将保留原数据。");
            self.plan.warn(warning);
        }
    }

    /// Goes on from a slot: `warning` is that of choosing the source, `found` what was loaded, if
    /// there was a source, and `is_dir` whether the folder of the slot is there.
    pub fn settle(
        &mut self,
        slot: &Slot,
        warning: Option<String>,
        found: Option<Found>,
        is_dir: bool,
    )
        requires
            old(self).wf(),
            found matches Some(f) ==> f.rows.len() > 0,
        ensures
            final(self).wf(),
            final(self).state() == after_slot(
                old(self).state(),
                slot@,
                match warning {
                    Some(w) => Some(w@),
                    None => None,
                },
                found_view(found),
                is_dir,
            ),
    {
        match warning {
            Some(w) => {
                self.plan.warn(w);
            },
            None => {},
        }
        match slot {
            Slot::Stock(s) => match found {
                Some(f) => {
                    let Found { source, rows } = f;
                    self.plan.add_source(source);
                    self.plan.set_sheet(s.clone(), rows);
                },
                None => {
                    let mut text: String = "缺少 ".to_string();
                    text.append(s.as_str());
                    text.append(" 源文件，该工作表将保留原数据。");
                    self.plan.warn(text);
                },
            },
            Slot::Primary(p) => match found {
                Some(f) => {
                    let Found { source, rows } = f;
                    self.plan.add_source(source);
                    self.plan.set_sheet(slot.sheet(), rows);
                },
                None => {},
            },
            Slot::Country(p, c) => match found {
                Some(f) => {
                    self.take_country(c.as_str(), f);
                },
                None => {
                    if is_dir {
                        let mut text: String = c.clone();
                        text.append(" 缺少 ");
                        text.append(p.as_str());
                        text.append("天报告，此周期未包含该国。");
                        self.plan.warn(text);
                    }
                },
            },
            Slot::Mexico(p) => match found {
                Some(f) => {
                    self.take_mexico(p.as_str(), f);
                },
                None => {
                    if is_dir {
                        let mut text: String = "MX 缺少 ".to_string();
                        text.append(p.as_str());
                        text.append("天报告，此周期不追加 MX。");
                        self.plan.warn(text);
                    }
                },
            },
            Slot::End(p) => {
                self.end_period(p.as_str());
            },
        }
    }
}

/// Why an inspection comes to nothing in the end.
pub enum InspectError {
    /// The workbook has no such worksheet.
    Missing(String),
    /// There is nothing to fill in; the folder that was searched.
    Nothing(String),
    /// The workbook changed.
    Changed,
}

/// Why an inspection comes to nothing in the end, in contracts.
pub enum InspectErrorView {
    Missing(Seq<char>),
    Nothing(Seq<char>),
    Changed,
}

impl View for InspectError {
    type V = InspectErrorView;

    open spec fn view(&self) -> InspectErrorView {
        match self {
            InspectError::Missing(s) => InspectErrorView::Missing(s@),
            InspectError::Nothing(r) => InspectErrorView::Nothing(r@),
            InspectError::Changed => InspectErrorView::Changed,
        }
    }
}

impl InspectErrorView {
    /// The error in words.
    pub open spec fn words(self) -> Seq<char> {
        match self {
            InspectErrorView::Missing(s) => "目标文件缺少工作表："@ + s + "，未修改原表"@,
            InspectErrorView::Nothing(r) =>
                "未找到可填充数据。请把补货表放在含 FBA库存、限制发货数量、业务报告 的站点文件夹中。识别目录："@
                + r,
            InspectErrorView::Changed => "识别期间补货表发生变化，请重试"@,
        }
    }
}

impl InspectError {
    /// The error in words.
    pub fn message(&self) -> (r: String)
        ensures
            r@ == self@.words(),
    {
        match self {
            InspectError::Missing(s) => {
                let mut r: String = "目标文件缺少工作表：".to_string();
                r.append(s.as_str());
                r.append("，未修改原表");
                r
            },
            InspectError::Nothing(root) => {
                let mut r: String =
                    "未找到可填充数据。请把补货表放在含 FBA库存、限制发货数量、业务报告 的站点文件夹中。识别目录：".to_string();
                r.append(root.as_str());
                r
            },
            InspectError::Changed => "识别期间补货表发生变化，请重试".to_string(),
        }
    }
}

/// The first of the first `n` worksheets of a plan that the workbook does not have.
pub open spec fn first_missing(
    names: Seq<Seq<char>>,
    present: Seq<Seq<char>>,
    n: nat,
) -> Option<Seq<char>>
    decreases n,
{
    if n == 0 {
        None
    } else {
        match first_missing(names, present, (n - 1) as nat) {
            Some(s) => Some(s),
            None => if present.contains(names[n - 1]) {
                None
            } else {
                Some(names[n - 1])
            },
        }
    }
}

/// Why a plan is refused in the end, if it is: the workbook with the given worksheets lacks one,
/// there is nothing to fill in, or its fingerprint is no longer the one of the plan.
pub open spec fn finish_fault(
    plan: PlanView,
    present: Seq<Seq<char>>,
    now: Seq<char>,
) -> Option<InspectErrorView> {
    match first_missing(plan.names, present, plan.names.len()) {
        Some(s) => Some(InspectErrorView::Missing(s)),
        None => if plan.names.len() == 0 {
            Some(InspectErrorView::Nothing(plan.root))
        } else if now != plan.target_hash {
            Some(InspectErrorView::Changed)
        } else {
            None
        },
    }
}

proof fn first_missing_stays(names: Seq<Seq<char>>, present: Seq<Seq<char>>, m: nat, n: nat)
    requires
        m <= n,
        first_missing(names, present, m) is Some,
    ensures
        first_missing(names, present, n) == first_missing(names, present, m),
    decreases n,
{
    if m < n {
        first_missing_stays(names, present, m, (n - 1) as nat);
    }
}

/// Why a plan is refused in the end, if it is. `present` are the worksheets of the workbook, and
/// `now` is its fingerprint.
pub fn finish(plan: &Plan, present: &Vec<String>, now: &str) -> (r: Option<InspectError>)
    ensures
        finish_fault(plan@, texts_of(present@), now@) == (match r {
            Some(e) => Some(e@),
            None => None,
        }),
{
    let ghost names = plan@.names;
    let ghost list = texts_of(present@);
    let mut i: usize = 0;
    while i < plan.sheets.len()
        invariant
            names == plan.sheets.keys(),
            names == plan@.names,
            list == texts_of(present@),
            i <= names.len(),
            first_missing(names, list, i as nat) is None,
        decreases names.len() - i,
    {
        if !has_text(present, plan.sheets.key(i).as_str()) {
            proof {
                first_missing_stays(names, list, (i + 1) as nat, names.len());
            }
            return Some(InspectError::Missing(plan.sheets.key(i).clone()));
        }
        i = i + 1;
    }
    if plan.sheets.len() == 0 {
        return Some(InspectError::Nothing(plan.root.clone()));
    }
    if !same(now, plan.target_hash.as_str()) {
        return Some(InspectError::Changed);
    }
    None
}

/// A plan that is not refused has a worksheet to fill, only such as the workbook has, and is of
/// the workbook as it is.
pub proof fn finished_plans_fit(plan: PlanView, present: Seq<Seq<char>>, now: Seq<char>, i: int)
    requires
        finish_fault(plan, present, now) is None,
        0 <= i < plan.names.len(),
    ensures
        plan.names.len() > 0,
        present.contains(plan.names[i]),
        now == plan.target_hash,
{
    none_missing(plan.names, present, plan.names.len(), i);
}

proof fn none_missing(names: Seq<Seq<char>>, present: Seq<Seq<char>>, n: nat, i: int)
    requires
        first_missing(names, present, n) is None,
        0 <= i < n,
    ensures
        present.contains(names[i]),
    decreases n,
{
    if i < n - 1 {
        none_missing(names, present, (n - 1) as nat, i);
    }
}

/// Looking for a source never changes what a plan is for, and takes at most one source and some
/// warnings in, behind those that there are.
pub proof fn settling_only_adds(
    state: State,
    slot: SlotView,
    warning: Option<Seq<char>>,
    found: FoundView,
    is_dir: bool,
)
    ensures
        ({
            let old_plan = state.0;
            let new_plan = after_slot(state, slot, warning, found, is_dir).0;
            &&& new_plan.target == old_plan.target
            &&& new_plan.station == old_plan.station
            &&& new_plan.code == old_plan.code
            &&& new_plan.date == old_plan.date
            &&& new_plan.root == old_plan.root
            &&& new_plan.target_hash == old_plan.target_hash
            &&& new_plan.sources == (match (slot, found) {
                (SlotView::End(_), _) => old_plan.sources,
                (_, Some((source, _))) => old_plan.sources.push(source),
                (_, None) => old_plan.sources,
            })
            &&& new_plan.warnings.len() >= old_plan.warnings.len()
            &&& new_plan.warnings.take(old_plan.warnings.len() as int) == old_plan.warnings
        }),
{
    let old_plan = state.0;
    let new_plan = after_slot(state, slot, warning, found, is_dir).0;
    assert(new_plan.warnings.take(old_plan.warnings.len() as int) =~= old_plan.warnings);
}

/// The rows of Mexico follow those of the United States: these stay, then come two empty rows and
/// the Mexican rows without their header; every other worksheet keeps its rows.
pub proof fn mexico_follows(
    plan: PlanView,
    period: Seq<char>,
    source: SourceView,
    rows: Seq<Seq<ValueView>>,
    other: Seq<char>,
)
    requires
        ascending(plan.names),
        plan.names.len() == plan.tables.len(),
    ensures
        ({
            let sheet = period_sheet(period);
            let new = after_mexico(plan, period, Some((source, rows)), true);
            &&& lookup(new.names, new.tables, sheet) == (match lookup(
                plan.names,
                plan.tables,
                sheet,
            ) {
                Some(existing) => Some(existing + gap() + rows.skip(1)),
                None => Some(rows),
            })
            &&& other != sheet ==> lookup(new.names, new.tables, other) == lookup(
                plan.names,
                plan.tables,
                other,
            )
        }),
{
    let sheet = period_sheet(period);
    let value = match lookup(plan.names, plan.tables, sheet) {
        Some(existing) => existing + gap() + rows.skip(1),
        None => rows,
    };
    what_is_put_is_found(plan.names, plan.tables, sheet, value, other);
}

/// The rows of the first `n` of several countries together.
pub open spec fn together(blocks: Seq<Seq<Seq<ValueView>>>, n: nat) -> Seq<Seq<ValueView>>
    decreases n,
{
    if n == 0 {
        Seq::empty()
    } else {
        joined(together(blocks, (n - 1) as nat), blocks[n - 1])
    }
}

/// Where the rows of country `k` start.
pub open spec fn start_of(blocks: Seq<Seq<Seq<ValueView>>>, k: nat) -> int
    decreases k,
{
    if k == 0 {
        0
    } else {
        start_of(blocks, (k - 1) as nat) + blocks[k - 1].len() + 2
    }
}

/// The rows of several countries stand in the order of the countries, each country's unbroken, with
/// two empty rows between one country and the next.
pub proof fn countries_stand_in_order(blocks: Seq<Seq<Seq<ValueView>>>, n: nat, k: nat)
    requires
        k < n <= blocks.len(),
        forall|i: int| 0 <= i < blocks.len() ==> (#[trigger] blocks[i]).len() > 0,
    ensures
        ({
            let all = together(blocks, n);
            let start = start_of(blocks, k);
            &&& all.len() == start_of(blocks, n) - 2
            &&& 0 <= start && start + blocks[k as int].len() <= all.len()
            &&& all.subrange(start, start + blocks[k as int].len()) == blocks[k as int]
            &&& k > 0 ==> start >= 2 && all[start - 1] == Seq::<ValueView>::empty() && all[start - 2]
                == Seq::<ValueView>::empty()
        }),
    decreases n,
{
    let all = together(blocks, n);
    let before = together(blocks, (n - 1) as nat);
    if n == 1 {
        assert(all =~= blocks[0]);
        assert(all.subrange(0, blocks[0].len() as int) =~= blocks[0]);
    } else {
        countries_stand_in_order(blocks, (n - 1) as nat, 0);
        assert(blocks[0].len() > 0);
        assert(all =~= before + gap() + blocks[n - 1]);
        if k < n - 1 {
            countries_stand_in_order(blocks, (n - 1) as nat, k);
            let start = start_of(blocks, k);
            assert(all.subrange(start, start + blocks[k as int].len()) =~= before.subrange(
                start,
                start + blocks[k as int].len(),
            ));
        } else {
            let start = start_of(blocks, k);
            assert(start == before.len() + 2);
            assert(all.subrange(start, start + blocks[k as int].len()) =~= blocks[k as int]);
            assert(all[start - 1] == gap()[1]);
            assert(all[start - 2] == gap()[0]);
        }
    }
}

/// The report of a country goes into the worksheet of its period as a block of its own: behind what is
/// there already and two empty rows, first a row of seventeen cells with the headings of the report
/// and, in the last of them, the country, and then every further row of the report as it is.
pub proof fn countries_have_blocks(
    state: State,
    period: Seq<char>,
    country: Seq<char>,
    warning: Option<Seq<char>>,
    source: SourceView,
    rows: Seq<Seq<ValueView>>,
    is_dir: bool,
)
    requires
        rows.len() > 0,
    ensures
        ({
            let new = after_slot(
                state,
                SlotView::Country(period, country),
                warning,
                Some((source, rows)),
                is_dir,
            ).1;
            let old = state.1;
            let start = if old.len() == 0 {
                0
            } else {
                old.len() + 2
            };
            &&& new.len() == start + rows.len()
            &&& forall|i: int| 0 <= i < old.len() ==> #[trigger] new[i] == old[i]
            &&& old.len() > 0 ==> new[old.len() as int].len() == 0 && new[old.len() as int + 1].len() == 0
            &&& new[start as int].len() == 17
            &&& forall|j: int|
                0 <= j < 16 && j < rows[0].len() ==> #[trigger] new[start as int][j] == rows[0][j]
            &&& forall|j: int|
                rows[0].len() <= j < 16 ==> #[trigger] new[start as int][j] == ValueView::Blank
            &&& new[start as int][16] == ValueView::Text(country)
            &&& forall|i: int| 1 <= i < rows.len() ==> new[start + i] == #[trigger] rows[i]
        }),
{
}

/// A country without a report changes nothing but, where it has a folder, the warnings.
pub proof fn countries_without_reports_are_told(
    state: State,
    period: Seq<char>,
    country: Seq<char>,
    is_dir: bool,
)
    ensures
        ({
            let new = after_slot(state, SlotView::Country(period, country), None, None, is_dir);
            &&& new.1 == state.1
            &&& new.0.names == state.0.names
            &&& new.0.tables == state.0.tables
            &&& !is_dir ==> new.0.warnings == state.0.warnings
            &&& is_dir ==> new.0.warnings == state.0.warnings.push(
                country + " 缺少 "@ + period + "天报告，此周期未包含该国。"@,
            )
        }),
{
}

/// The rows of a stock list, and those of the report of the plan's own code, go into their worksheet as
/// they are, and every other worksheet keeps its rows. A stock list that is not found is told of.
pub proof fn reports_fill_their_worksheets(
    state: State,
    stock: Seq<char>,
    period: Seq<char>,
    warning: Option<Seq<char>>,
    source: SourceView,
    rows: Seq<Seq<ValueView>>,
    is_dir: bool,
    other: Seq<char>,
)
    requires
        ascending(state.0.names),
        state.0.names.len() == state.0.tables.len(),
    ensures
        ({
            let found = Some((source, rows));
            let listed = after_slot(state, SlotView::Stock(stock), warning, found, is_dir);
            let sold = after_slot(state, SlotView::Primary(period), warning, found, is_dir);
            let none = after_slot(state, SlotView::Stock(stock), None, None, is_dir);
            let sheet = period + "天销"@;
            let before = lookup(state.0.names, state.0.tables, other);
            &&& lookup(listed.0.names, listed.0.tables, stock) == Some(rows)
            &&& other != stock ==> lookup(listed.0.names, listed.0.tables, other) == before
            &&& listed.1 == state.1
            &&& listed.0.sources == state.0.sources.push(source)
            &&& lookup(sold.0.names, sold.0.tables, sheet) == Some(rows)
            &&& other != sheet ==> lookup(sold.0.names, sold.0.tables, other) == before
            &&& sold.1 == state.1
            &&& sold.0.sources == state.0.sources.push(source)
            &&& none.0.warnings == state.0.warnings.push(
                "缺少 "@ + stock + " 源文件，该工作表将保留原数据。"@,
            )
            &&& none.0.names == state.0.names && none.0.tables == state.0.tables
            &&& after_slot(state, SlotView::Primary(period), None, None, is_dir) == state
        }),
{
    what_is_put_is_found(state.0.names, state.0.tables, stock, rows, other);
    what_is_put_is_found(state.0.names, state.0.tables, period_sheet(period), rows, other);
}

/// The rows of Mexico follow those of the United States: behind two empty rows come all of them but the
/// header. Without those of the United States they come with their header, and that is told.
pub proof fn mexico_comes_behind(
    state: State,
    period: Seq<char>,
    source: SourceView,
    rows: Seq<Seq<ValueView>>,
    is_dir: bool,
)
    requires
        ascending(state.0.names),
        state.0.names.len() == state.0.tables.len(),
        rows.len() > 0,
    ensures
        ({
            let sheet = period + "天销"@;
            let new = after_slot(
                state,
                SlotView::Mexico(period),
                None,
                Some((source, rows)),
                is_dir,
            );
            let none = after_slot(state, SlotView::Mexico(period), None, None, is_dir);
            let all = lookup(new.0.names, new.0.tables, sheet);
            &&& all is Some
            &&& match lookup(state.0.names, state.0.tables, sheet) {
                Some(old) => {
                    &&& all->Some_0.len() == old.len() + 2 + rows.len() - 1
                    &&& forall|i: int| 0 <= i < old.len() ==> #[trigger] all->Some_0[i] == old[i]
                    &&& all->Some_0[old.len() as int].len() == 0
                    &&& all->Some_0[old.len() as int + 1].len() == 0
                    &&& forall|i: int|
                        1 <= i < rows.len() ==> all->Some_0[old.len() + 1 + i] == #[trigger] rows[i]
                    &&& new.0.warnings == state.0.warnings
                },
                None => {
                    &&& all == Some(rows)
                    &&& new.0.warnings == state.0.warnings.push(
                        sheet + " 缺少 US，仅使用 MX 报告（沿用原脚本规则）。"@,
                    )
                },
            }
            &&& none.0.names == state.0.names && none.0.tables == state.0.tables
            &&& !is_dir ==> none.0.warnings == state.0.warnings
            &&& is_dir ==> none.0.warnings == state.0.warnings.push(
                "MX 缺少 "@ + period + "天报告，此周期不追加 MX。"@,
            )
        }),
{
    mexico_follows(state.0, period, source, rows, period_sheet(period));
}

/// At the end of a period its worksheet is given the rows of the countries, where there are any. A
/// worksheet without rows is told of, and the next period starts without rows.
pub proof fn periods_end_with_a_worksheet(state: State, period: Seq<char>, other: Seq<char>)
    requires
        ascending(state.0.names),
        state.0.names.len() == state.0.tables.len(),
    ensures
        ({
            let sheet = period + "天销"@;
            let new = after_slot(state, SlotView::End(period), None, None, false);
            let before = lookup(state.0.names, state.0.tables, sheet);
            let after = lookup(new.0.names, new.0.tables, sheet);
            &&& new.1.len() == 0
            &&& state.1.len() > 0 ==> after == Some(state.1)
            &&& state.1.len() == 0 ==> after == before
            &&& other != sheet ==> lookup(new.0.names, new.0.tables, other) == lookup(
                state.0.names,
                state.0.tables,
                other,
            )
            &&& after is Some ==> new.0.warnings == state.0.warnings
            &&& after is None ==> new.0.warnings == state.0.warnings.push(
                "缺少 "@ + sheet + " 源文件，该工作表将保留原数据。"@,
            )
        }),
{
    what_is_put_is_found(state.0.names, state.0.tables, period_sheet(period), state.1, other);
}

/// The warning of choosing a source comes before all others that the source brings.
pub proof fn choices_are_told_first(
    state: State,
    slot: SlotView,
    warning: Seq<char>,
    found: FoundView,
    is_dir: bool,
)
    ensures
        ({
            let told = (PlanView { warnings: state.0.warnings.push(warning), ..state.0 }, state.1);
            after_slot(state, slot, Some(warning), found, is_dir) == after_slot(
                told,
                slot,
                None,
                found,
                is_dir,
            )
        }),
{
}

/// What is looked for, and in which order: the two stock lists, and then for each of the five periods
/// the reports of all countries in the EU, those of the United States and of Mexico in the United
/// States, and one report elsewhere.
pub proof fn everything_is_looked_for(station: Seq<char>, k: int, i: int)
    requires
        0 <= k < 5,
        0 <= i < 24,
    ensures
        ({
            let slots = slots_of(station);
            let period = period_names()[k];
            &&& slots[0] == SlotView::Stock("FBA库存"@)
            &&& slots[1] == SlotView::Stock("限制发货数量"@)
            &&& station == "EU"@ ==> slots.len() == 127 && slots[2 + 25 * k + i]
                == SlotView::Country(period, eu_codes()[i]) && slots[2 + 25 * k + 24]
                == SlotView::End(period)
            &&& station == "US"@ ==> slots.len() == 17 && slots[2 + 3 * k] == SlotView::Primary(
                period,
            ) && slots[3 + 3 * k] == SlotView::Mexico(period) && slots[4 + 3 * k]
                == SlotView::End(period)
            &&& station != "EU"@ && station != "US"@ ==> slots.len() == 12 && slots[2 + 2 * k]
                == SlotView::Primary(period) && slots[3 + 2 * k] == SlotView::End(period)
        }),
{
    reveal_strlit("EU");
    reveal_strlit("US");
    assert("EU"@[0] != "US"@[0]);
    reveal_with_fuel(sales_slots, 6);
    let a = period_slots(station, period_names()[0]);
    let b = period_slots(station, period_names()[1]);
    let c = period_slots(station, period_names()[2]);
    let d = period_slots(station, period_names()[3]);
    let e = period_slots(station, period_names()[4]);
    let all = sales_slots(station, 5);
    assert(all =~= a + b + c + d + e);
    let n = a.len();
    let own = period_slots(station, period_names()[k]);
    assert forall|j: int| 0 <= j < n implies all[n * k + j] == #[trigger] own[j] by {
        if k == 0 {
        } else if k == 1 {
            assert(n * k == n) by (nonlinear_arith)
                requires
                    k == 1,
            ;
        } else if k == 2 {
            assert(n * k == 2 * n) by (nonlinear_arith)
                requires
                    k == 2,
            ;
        } else if k == 3 {
            assert(n * k == 3 * n) by (nonlinear_arith)
                requires
                    k == 3,
            ;
        } else {
            assert(n * k == 4 * n) by (nonlinear_arith)
                requires
                    k == 4,
            ;
        }
    }
    let slots = slots_of(station);
    if station == "EU"@ {
        assert(n == 25);
        assert(slots[2 + 25 * k + i] == all[25 * k + i] && all[n * k + i] == own[i]);
        assert(slots[2 + 25 * k + 24] == all[25 * k + 24] && all[n * k + 24] == own[24]);
    } else if station == "US"@ {
        assert(n == 3);
        assert(all[n * k + 0] == own[0] && all[n * k + 1] == own[1] && all[n * k + 2] == own[2]);
    } else {
        assert(n == 2);
        assert(all[n * k + 0] == own[0] && all[n * k + 1] == own[1]);
    }
}

/// Where a source is looked for, and for which country and worksheet: stock lists in the folder with
/// their name, reports in the folder of the date under that of the reports, those of a country in its
/// folder there.
pub proof fn sources_have_their_folders(
    name: Seq<char>,
    period: Seq<char>,
    country: Seq<char>,
    code: Seq<char>,
    date: Seq<char>,
)
    ensures
        folder_for(SlotView::Stock(name), date) == seq![name],
        folder_for(SlotView::Primary(period), date) == seq!["业务报告"@, date],
        folder_for(SlotView::Country(period, country), date) == seq!["业务报告"@, date, country],
        folder_for(SlotView::Mexico(period), date) == seq!["业务报告"@, date, "MX"@],
        code_for(SlotView::Stock(name), code) == code,
        code_for(SlotView::Primary(period), code) == code,
        code_for(SlotView::Country(period, country), code) == country,
        code_for(SlotView::Mexico(period), code) == "MX"@,
        sheet_for(SlotView::Stock(name)) == name,
        sheet_for(SlotView::Primary(period)) == period + "天销"@,
        sheet_for(SlotView::Country(period, country)) == period + "天销"@,
        sheet_for(SlotView::Mexico(period)) == period + "天销"@,
        sheet_for(SlotView::End(period)) == period + "天销"@,
{
}

/// Whether an entry is a candidate for a slot: a source in the folder of a stock list, and elsewhere one
/// with the name of the report, in capital or in small letters.
pub open spec fn is_candidate(
    slot: SlotView,
    code: Seq<char>,
    date: Seq<char>,
    e: ListedView,
) -> bool {
    let report = |c: Seq<char>, p: Seq<char>|
        lower(stem_of(e.name)) == lower("AVT-"@ + c + "-"@ + p + "T-"@ + date);
    is_source_entry(e) && match slot {
        SlotView::Stock(_) => true,
        SlotView::Primary(p) => report(code, p),
        SlotView::Country(p, c) => report(c, p),
        SlotView::Mexico(p) => report("MX"@, p),
        SlotView::End(_) => false,
    }
}

/// The source that is taken is a candidate, no candidate was modified later, and none that was modified
/// at the same time comes behind it by name. None is taken only where there is no candidate.
pub proof fn the_newest_candidate_is_taken(
    slot: SlotView,
    code: Seq<char>,
    date: Seq<char>,
    entries: Seq<ListedView>,
    i: int,
)
    requires
        0 <= i < entries.len(),
    ensures
        match choice_for(slot, code, date, entries).0 {
            None => !is_candidate(slot, code, date, entries[i]),
            Some(k) => {
                &&& 0 <= k < entries.len()
                &&& is_candidate(slot, code, date, entries[k])
                &&& is_candidate(slot, code, date, entries[i]) ==> entries[i].modified
                    <= entries[k].modified && (entries[i].modified == entries[k].modified ==> !before(
                    entries[k].name,
                    entries[i].name,
                ))
            },
        },
{
    let places = match slot {
        SlotView::Stock(_) => source_places(entries, entries.len()),
        SlotView::Primary(p) => report_places(entries, code, p, date),
        SlotView::Country(p, c) => report_places(entries, c, p, date),
        SlotView::Mexico(p) => report_places(entries, "MX"@, p, date),
        SlotView::End(_) => Seq::empty(),
    };
    candidates_have_places(slot, code, date, entries, i);
    if places.len() > 0 {
        none_is_newer(entries, places, 0);
        let k = newest(entries, places)->Some_0;
        let m = choose|m: int| 0 <= m < places.len() && places[m] == k;
        sources_are_in_range(entries, entries.len());
        candidates_have_places(slot, code, date, entries, k);
        if places.contains(i) {
            let j = choose|j: int| 0 <= j < places.len() && places[j] == i;
            none_is_newer(entries, places, j);
        }
    }
}

/// The places of the candidates are exactly those at which a candidate stands.
proof fn candidates_have_places(
    slot: SlotView,
    code: Seq<char>,
    date: Seq<char>,
    entries: Seq<ListedView>,
    i: int,
)
    ensures
        ({
            let places = match slot {
                SlotView::Stock(_) => source_places(entries, entries.len()),
                SlotView::Primary(p) => report_places(entries, code, p, date),
                SlotView::Country(p, c) => report_places(entries, c, p, date),
                SlotView::Mexico(p) => report_places(entries, "MX"@, p, date),
                SlotView::End(_) => Seq::empty(),
            };
            places.contains(i) <==> 0 <= i < entries.len() && is_candidate(
                slot,
                code,
                date,
                entries[i],
            )
        }),
{
    sources_have_places(entries, entries.len(), i);
    let all = source_places(entries, entries.len());
    match slot {
        SlotView::Primary(p) => {
            stems_are_kept(entries, all, report_stem(code, p, date), i);
        },
        SlotView::Country(p, c) => {
            stems_are_kept(entries, all, report_stem(c, p, date), i);
        },
        SlotView::Mexico(p) => {
            stems_are_kept(entries, all, report_stem("MX"@, p, date), i);
        },
        _ => {},
    }
}

/// A choice among several candidates is told, with how many there were, and no other is.
pub proof fn choices_among_several_are_told(
    slot: SlotView,
    code: Seq<char>,
    date: Seq<char>,
    entries: Seq<ListedView>,
)
    requires
        !(slot is End),
    ensures
        ({
            let candidates = Set::new(
                |i: int| 0 <= i < entries.len() && is_candidate(slot, code, date, entries[i]),
            );
            let label = match slot {
                SlotView::Stock(s) => s,
                SlotView::Primary(p) => code + " "@ + p + "天销"@,
                SlotView::Country(p, c) => c + " "@ + p + "天销"@,
                SlotView::Mexico(p) => "MX"@ + " "@ + p + "天销"@,
                SlotView::End(_) => Seq::empty(),
            };
            &&& candidates.finite()
            &&& choice_for(slot, code, date, entries).1 == (if candidates.len() > 1 {
                Some(
                    label + "有 "@ + numeral(candidates.len())
                        + " 个候选文件，按修改时间选取最新文件，请核对。"@,
                )
            } else {
                None
            })
        }),
{
    let places = match slot {
        SlotView::Stock(_) => source_places(entries, entries.len()),
        SlotView::Primary(p) => report_places(entries, code, p, date),
        SlotView::Country(p, c) => report_places(entries, c, p, date),
        SlotView::Mexico(p) => report_places(entries, "MX"@, p, date),
        SlotView::End(_) => Seq::empty(),
    };
    let candidates = Set::new(
        |i: int| 0 <= i < entries.len() && is_candidate(slot, code, date, entries[i]),
    );
    assert forall|i: int| candidates.contains(i) <==> #[trigger] places.contains(i) by {
        candidates_have_places(slot, code, date, entries, i);
    }
    sources_ascend(entries, entries.len());
    let all = source_places(entries, entries.len());
    match slot {
        SlotView::Primary(p) => {
            stems_ascend(entries, all, report_stem(code, p, date));
        },
        SlotView::Country(p, c) => {
            stems_ascend(entries, all, report_stem(c, p, date));
        },
        SlotView::Mexico(p) => {
            stems_ascend(entries, all, report_stem("MX"@, p, date));
        },
        _ => {},
    }
    places.unique_seq_to_set();
    assert(candidates =~= places.to_set());
}

/// What is known of a source: where it is, what it is for, what was loaded of it, and what its file was
/// like when it was opened. The header is no row of it.
pub proof fn sources_are_described(
    path: Seq<char>,
    sheet: Seq<char>,
    country: Seq<char>,
    loaded: LoadedView,
    before: Seq<char>,
    modified: Seq<char>,
)
    requires
        loaded.rows.len() > 0,
    ensures
        ({
            let s = source_of(path, sheet, country, loaded, before, modified);
            &&& s.path == path && s.sheet == sheet && s.country == country
            &&& s.rows + 1 == loaded.rows.len()
            &&& s.columns == loaded.columns
            &&& s.converted == loaded.converted
            &&& s.encoding == loaded.encoding
            &&& s.modified == modified
            &&& s.hash == before
        }),
{
}

/// A plan is refused because of the first of its worksheets that the workbook does not have, because it
/// has none, or because the workbook changed, and for no other reason.
pub proof fn refusals_have_their_reason(plan: PlanView, present: Seq<Seq<char>>, now: Seq<char>)
    ensures
        match finish_fault(plan, present, now) {
            Some(InspectErrorView::Missing(s)) => exists|i: int|
                0 <= i < plan.names.len() && #[trigger] plan.names[i] == s && !present.contains(s)
                    && forall|j: int| 0 <= j < i ==> present.contains(#[trigger] plan.names[j]),
            Some(InspectErrorView::Nothing(root)) => plan.names.len() == 0 && root == plan.root,
            Some(InspectErrorView::Changed) => plan.names.len() > 0 && now != plan.target_hash
                && forall|j: int|
                0 <= j < plan.names.len() ==> present.contains(#[trigger] plan.names[j]),
            None => plan.names.len() > 0 && now == plan.target_hash && forall|j: int|
                0 <= j < plan.names.len() ==> present.contains(#[trigger] plan.names[j]),
        },
{
    missing_is_first(plan.names, present, plan.names.len());
}

proof fn missing_is_first(names: Seq<Seq<char>>, present: Seq<Seq<char>>, n: nat)
    requires
        n <= names.len(),
    ensures
        match first_missing(names, present, n) {
            Some(s) => exists|i: int|
                0 <= i < n && #[trigger] names[i] == s && !present.contains(s) && forall|j: int|
                    0 <= j < i ==> present.contains(#[trigger] names[j]),
            None => forall|j: int| 0 <= j < n ==> present.contains(#[trigger] names[j]),
        },
    decreases n,
{
    if n > 0 {
        missing_is_first(names, present, (n - 1) as nat);
        if first_missing(names, present, (n - 1) as nat) is None && first_missing(
            names,
            present,
            n,
        ) is Some {
            assert(names[n - 1] == first_missing(names, present, n)->Some_0);
        }
    }
}

/// What is said of a plan that is refused: the words are fixed, and what they are
/// about stands in them as it is.
pub proof fn refused_plans_are_worded(error: InspectErrorView)
    ensures
        match error {
            InspectErrorView::Missing(s) => stands_between(
                error.words(),
                "目标文件缺少工作表："@,
                s,
                "，未修改原表"@,
            ),
            InspectErrorView::Nothing(r) => stands_between(
                error.words(),
                "未找到可填充数据。请把补货表放在含 FBA库存、限制发货数量、业务报告 的站点文件夹中。识别目录："@,
                r,
                Seq::<char>::empty(),
            ),
            InspectErrorView::Changed => error.words() == "识别期间补货表发生变化，请重试"@,
        },
{
}

} // verus!
