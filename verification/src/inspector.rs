//! The course of an inspection: what is read when, from the workbook to its sources and back.

use crate::identify::{identified, identify, Identity, IdentifyError};
use crate::inspect::{
    after_slot, choice_for, code_for, finish, finish_fault, finished_plans_fit, folder_for,
    found_view, missing_text, register, schedule, settling_only_adds, sheet_for, slots_of,
    slots_view, source_of, Found, FoundView, InspectError, InspectErrorView, Inspection, Slot,
    SlotView, State,
};
use crate::load::{load, loaded, LoadError, LoadErrorView, Loaded};
use crate::map::{keys_with, lookup_nothing, only_the_key_is_new, TextMap};
use crate::plan::{sources_view, Plan, PlanView};
use crate::report::Content;
use crate::rewrite::{sheet_name_list, sheet_names, tables_view, RewriteError, RewriteErrorView};
use crate::settled::{
    accounted, balanced, candidates_are_not_missing, opened, schedules_are_laid,
    slots_keep_the_balance, the_balance_accounts, well_laid,
};
use crate::source::{
    fingerprint, hash, listing_view, report_places, source_places, Choice, Listed, ListedView,
};
use crate::text::texts_of;
use crate::value::ValueView;
use vstd::prelude::*;

verus! {

/// What is to be done next.
pub enum Action {
    /// Read the workbook.
    ReadTarget,
    /// List the folder that the names lead to from the folder of the workbook.
    List(Vec<String>),
    /// Read the file with the last name in the folder that the names lead to.
    Open(Vec<String>, String),
    /// Nothing: the plan is made.
    Done,
}

/// What is to be done next, in contracts.
pub enum ActionView {
    ReadTarget,
    List(Seq<Seq<char>>),
    Open(Seq<Seq<char>>, Seq<char>),
    Done,
}

impl View for Action {
    type V = ActionView;

    open spec fn view(&self) -> ActionView {
        match self {
            Action::ReadTarget => ActionView::ReadTarget,
            Action::List(f) => ActionView::List(texts_of(f@)),
            Action::Open(f, n) => ActionView::Open(texts_of(f@), n@),
            Action::Done => ActionView::Done,
        }
    }
}

/// Why an inspection is broken off.
pub enum Refusal {
    Workbook(RewriteError),
    Source(LoadError),
    Plan(InspectError),
}

/// Why an inspection is broken off, in contracts.
pub enum RefusalView {
    Workbook(RewriteErrorView),
    Source(LoadErrorView),
    Plan(InspectErrorView),
}

impl View for Refusal {
    type V = RefusalView;

    open spec fn view(&self) -> RefusalView {
        match self {
            Refusal::Workbook(e) => RefusalView::Workbook(e@),
            Refusal::Source(e) => RefusalView::Source(e@),
            Refusal::Plan(e) => RefusalView::Plan(e@),
        }
    }
}

impl RefusalView {
    /// The reason in words.
    pub open spec fn words(self) -> Seq<char> {
        match self {
            RefusalView::Workbook(e) => e.words(),
            RefusalView::Source(e) => e.words(),
            RefusalView::Plan(e) => e.words(),
        }
    }
}

impl Refusal {
    /// The reason in words.
    pub fn message(&self) -> (r: String)
        ensures
            r@ == self@.words(),
    {
        match self {
            Refusal::Workbook(e) => e.message(),
            Refusal::Source(e) => e.message(),
            Refusal::Plan(e) => e.message(),
        }
    }
}

/// What an inspection waits for.
#[derive(Clone, Copy, Debug, PartialEq, Eq, Structural)]
pub enum Stage {
    /// The workbook.
    Target,
    /// The entries of the folder of a slot.
    Folder,
    /// A source.
    Report,
    /// The workbook once more.
    Again,
    /// Nothing: the plan is made.
    Over,
    /// Nothing: there is no plan.
    Refused,
}

/// An inspection and how far it is.
pub struct Inspector {
    pub inspection: Inspection,
    pub present: Vec<String>,
    pub slots: Vec<Slot>,
    pub at: usize,
    pub warning: Option<String>,
    pub stage: Stage,
}

/// An inspection and how far it is, in contracts.
pub struct InspectorView {
    pub state: State,
    pub present: Seq<Seq<char>>,
    pub slots: Seq<SlotView>,
    pub at: int,
    pub warning: Option<Seq<char>>,
    pub stage: Stage,
}

impl View for Inspector {
    type V = InspectorView;

    open spec fn view(&self) -> InspectorView {
        InspectorView {
            state: self.inspection.state(),
            present: texts_of(self.present@),
            slots: slots_view(self.slots@),
            at: self.at as int,
            warning: match self.warning {
                Some(w) => Some(w@),
                None => None,
            },
            stage: self.stage,
        }
    }
}

/// A plan without sources.
pub open spec fn empty_plan(
    target: Seq<char>,
    root: Seq<char>,
    identity: (Seq<char>, Seq<char>, Seq<char>),
) -> PlanView {
    PlanView {
        target,
        station: identity.0,
        code: identity.1,
        date: identity.2,
        root,
        sources: Seq::empty(),
        warnings: Seq::empty(),
        target_hash: Seq::empty(),
        names: Seq::empty(),
        tables: Seq::empty(),
    }
}

/// The state and the place once the ends of periods from place `at` on are gone through.
pub open spec fn past_ends(state: State, slots: Seq<SlotView>, at: int) -> (State, int)
    decreases slots.len() - at,
{
    if 0 <= at < slots.len() && slots[at] is End {
        past_ends(after_slot(state, slots[at], None, None, false), slots, at + 1)
    } else {
        (state, at)
    }
}

/// The inspection once the slot that it was at has been settled.
pub open spec fn moved_on(i: InspectorView, state: State) -> InspectorView {
    let next = past_ends(state, i.slots, i.at + 1);
    InspectorView {
        state: next.0,
        at: next.1,
        warning: None,
        stage: if next.1 < i.slots.len() {
            Stage::Folder
        } else {
            Stage::Again
        },
        ..i
    }
}

/// What an inspection asks for when it is at a slot or through with them.
pub open spec fn asks(i: InspectorView) -> ActionView {
    if i.at < i.slots.len() {
        ActionView::List(folder_for(i.slots[i.at], i.state.0.date))
    } else {
        ActionView::ReadTarget
    }
}

impl Inspector {
    /// Whether the inspection is well formed.
    pub open spec fn wf(&self) -> bool {
        &&& self.inspection.wf()
        &&& self.at <= self.slots.len()
        &&& self.stage == Stage::Folder || self.stage == Stage::Report ==> self.at
            < self.slots.len()
        &&& slots_view(self.slots@) == slots_of(self.inspection.plan.station@)
    }

    /// Starts the inspection of the workbook `target` with the given file name, in the folder
    /// `root` with the given name. The workbook is to be read first.
    pub fn new(target: &str, name: &str, root: &str, folder: &str) -> (r: Result<
        Inspector,
        IdentifyError,
    >)
        ensures
            match identified(name@, folder@) {
                Ok(identity) => r matches Ok(i) && i.wf() && i@ == (InspectorView {
                    state: (empty_plan(target@, root@, identity), Seq::empty()),
                    present: Seq::empty(),
                    slots: slots_of(identity.0),
                    at: 0,
                    warning: None,
                    stage: Stage::Target,
                }),
                Err(e) => r matches Err(f) && f@ == e,
            },
    {
        let identity: Identity = match identify(name, folder) {
            Ok(identity) => identity,
            Err(e) => {
                return Err(e);
            },
        };
        let slots: Vec<Slot> = schedule(identity.station.as_str());
        let plan: Plan = Plan {
            target: target.to_string(),
            station: identity.station,
            code: identity.code,
            date: identity.date,
            root: root.to_string(),
            sources: Vec::new(),
            warnings: Vec::new(),
            target_hash: String::new(),
            sheets: TextMap::new(),
        };
        assert(sources_view(plan.sources@) =~= Seq::empty());
        assert(texts_of(plan.warnings@) =~= Seq::<Seq<char>>::empty());
        assert(tables_view(plan.sheets.values()) =~= Seq::<Seq<Seq<ValueView>>>::empty());
        let i: Inspector = Inspector {
            inspection: Inspection::new(plan),
            present: Vec::new(),
            slots,
            at: 0,
            warning: None,
            stage: Stage::Target,
        };
        assert(texts_of(i.present@) =~= Seq::<Seq<char>>::empty());
        Ok(i)
    }

    /// Settles the slot and goes on to the next one that a source is looked for in.
    fn move_on(&mut self, found: Option<Found>, is_dir: bool) -> (r: Action)
        requires
            old(self).wf(),
            old(self).at < old(self).slots.len(),
            found matches Some(f) ==> f.rows.len() > 0,
        ensures
            final(self).wf(),
            final(self)@ == moved_on(
                old(self)@,
                after_slot(
                    old(self)@.state,
                    old(self)@.slots[old(self)@.at],
                    old(self)@.warning,
                    found_view(found),
                    is_dir,
                ),
            ),
            r@ == asks(final(self)@),
    {
        let ghost slots = self@.slots;
        let ghost station = self.inspection.plan.station@;
        let ghost first = after_slot(
            self@.state,
            self@.slots[self@.at],
            self@.warning,
            found_view(found),
            is_dir,
        );
        assert(slots[self.at as int] == self.slots@[self.at as int]@);
        let mut warning: Option<String> = None;
        std::mem::swap(&mut warning, &mut self.warning);
        self.inspection.settle(&self.slots[self.at], warning, found, is_dir);
        self.at = self.at + 1;
        let ghost start = self.at as int;
        while self.at < self.slots.len() && is_end(&self.slots[self.at])
            invariant
                self.inspection.wf(),
                self.at <= self.slots.len(),
                slots == slots_view(self.slots@),
                slots == slots_of(station),
                self.inspection.plan.station@ == station,
                self.warning is None,
                past_ends(first, slots, start) == past_ends(
                    self.inspection.state(),
                    slots,
                    self.at as int,
                ),
                texts_of(self.present@) == old(self)@.present,
            decreases self.slots.len() - self.at,
        {
            assert(slots[self.at as int] == self.slots@[self.at as int]@);
            self.inspection.settle(&self.slots[self.at], None, None, false);
            self.at = self.at + 1;
        }
        assert(self.at < slots.len() ==> slots[self.at as int] == self.slots@[self.at as int]@);
        if self.at < self.slots.len() {
            self.stage = Stage::Folder;
            Action::List(self.slots[self.at].folder(self.inspection.plan.date.as_str()))
        } else {
            self.stage = Stage::Again;
            Action::ReadTarget
        }
    }
}

/// Whether a slot is the end of a period.
fn is_end(slot: &Slot) -> (r: bool)
    ensures
        r == slot@ is End,
{
    match slot {
        Slot::End(_) => true,
        _ => false,
    }
}

/// A plan of a workbook with the given fingerprint.
pub open spec fn with_hash(plan: PlanView, hash: Seq<char>) -> PlanView {
    PlanView { target_hash: hash, ..plan }
}

/// What comes of reading the workbook for the first time.
pub open spec fn after_target(i: InspectorView, bytes: Seq<u8>) -> Result<
    InspectorView,
    RefusalView,
> {
    match sheet_name_list(bytes) {
        Err(e) => Err(RefusalView::Workbook(e)),
        Ok(names) => Ok(
            InspectorView {
                state: (with_hash(i.state.0, fingerprint(bytes)), i.state.1),
                present: names,
                stage: Stage::Folder,
                ..i
            },
        ),
    }
}

/// What comes of listing the folder of a slot: either a source is to be read, or the slot is
/// settled without one.
pub open spec fn after_listing(i: InspectorView, entries: Seq<ListedView>, is_dir: bool) -> (
    InspectorView,
    ActionView,
) {
    let slot = i.slots[i.at];
    let choice = choice_for(slot, i.state.0.code, i.state.0.date, entries);
    match choice.0 {
        Some(k) => (
            InspectorView { warning: choice.1, stage: Stage::Report, ..i },
            ActionView::Open(folder_for(slot, i.state.0.date), entries[k].name),
        ),
        None => {
            let next = moved_on(i, after_slot(i.state, slot, choice.1, None, is_dir));
            (next, asks(next))
        },
    }
}

/// A source as it was read: its path, its content, its fingerprint before and after that, and when
/// it was modified.
pub struct Reading {
    pub path: String,
    pub content: Content,
    pub before: String,
    pub after: String,
    pub modified: String,
}

/// What comes of reading a source.
pub open spec fn after_report(i: InspectorView, reading: Reading) -> Result<
    InspectorView,
    RefusalView,
> {
    let slot = i.slots[i.at];
    let plan = i.state.0;
    let code = code_for(slot, plan.code);
    match loaded(
        plan.station,
        reading.path@,
        sheet_for(slot),
        code,
        !(slot is Stock),
        reading.content,
    ) {
        Err(e) => Err(RefusalView::Source(e)),
        Ok(l) => if reading.before@ != reading.after@ {
            Err(RefusalView::Source(LoadErrorView::Changed))
        } else {
            let source = source_of(
                reading.path@,
                sheet_for(slot),
                code,
                l,
                reading.before@,
                reading.modified@,
            );
            Ok(
                moved_on(
                    i,
                    after_slot(i.state, slot, i.warning, Some((source, l.rows)), true),
                ),
            )
        },
    }
}

impl Inspector {
    /// Takes the workbook in, when it is read for the first time: its fingerprint and the names of
    /// its worksheets; `None` where nothing can be told of it. The folder of the first slot is to be
    /// listed next.
    pub fn take_target(&mut self, bytes: &[u8]) -> (r: Option<Result<Action, Refusal>>)
        requires
            old(self).wf(),
            old(self)@.stage == Stage::Target,
            old(self)@.at == 0,
        ensures
            match after_target(old(self)@, bytes@) {
                Ok(next) => final(self).wf() && final(self)@ == next && (r matches Some(Ok(a)) && a@
                    == asks(next)),
                Err(e) => final(self)@.stage == Stage::Refused && (if e == RefusalView::Workbook(
                    RewriteErrorView::Beyond,
                ) {
                    r is None
                } else {
                    r matches Some(Err(f)) && f@ == e
                }),
            },
    {
        let names: Vec<String> = match sheet_names(bytes) {
            Some(Ok(v)) => v,
            Some(Err(e)) => {
                self.stage = Stage::Refused;
                return Some(Err(Refusal::Workbook(e)));
            },
            None => {
                self.stage = Stage::Refused;
                return None;
            },
        };
        self.present = names;
        self.inspection.plan.target_hash = hash(bytes);
        self.stage = Stage::Folder;
        assert(self.slots@.len() == slots_view(self.slots@).len());
        assert(slots_view(self.slots@)[0] == self.slots@[0]@);
        Some(Ok(Action::List(self.slots[0].folder(self.inspection.plan.date.as_str()))))
    }

    /// Takes the entries of the folder of the slot in, and whether that folder is there.
    pub fn take_listing(&mut self, entries: &Vec<Listed>, is_dir: bool) -> (r: Action)
        requires
            old(self).wf(),
            old(self)@.stage == Stage::Folder,
        ensures
            final(self).wf(),
            (final(self)@, r@) == after_listing(old(self)@, listing_view(entries@), is_dir),
    {
        assert(slots_view(self.slots@)[self.at as int] == self.slots@[self.at as int]@);
        let choice: Choice = self.slots[self.at].choose_from(
            self.inspection.plan.code.as_str(),
            self.inspection.plan.date.as_str(),
            entries,
        );
        self.warning = choice.warning;
        match choice.place {
            Some(k) => {
                self.stage = Stage::Report;
                Action::Open(
                    self.slots[self.at].folder(self.inspection.plan.date.as_str()),
                    entries[k].name.clone(),
                )
            },
            None => self.move_on(None, is_dir),
        }
    }

    /// Takes a source in.
    pub fn take_report(&mut self, reading: &Reading) -> (r: Result<Action, Refusal>)
        requires
            old(self).wf(),
            old(self)@.stage == Stage::Report,
            reading.content matches Content::Bytes(bytes) ==> bytes@.len() <= usize::MAX / 12,
        ensures
            match after_report(old(self)@, *reading) {
                Ok(next) => final(self).wf() && final(self)@ == next && (r matches Ok(a) && a@
                    == asks(next)),
                Err(e) => final(self)@.stage == Stage::Refused && (r matches Err(f) && f@ == e),
            },
    {
        assert(slots_view(self.slots@)[self.at as int] == self.slots@[self.at as int]@);
        let slot: &Slot = &self.slots[self.at];
        let plan: &Plan = &self.inspection.plan;
        let sheet: String = slot.sheet();
        let code: String = slot.country(plan.code.as_str());
        let report: Loaded = match load(
            plan.station.as_str(),
            reading.path.as_str(),
            sheet.as_str(),
            code.as_str(),
            slot.is_sales(),
            &reading.content,
        ) {
            Ok(l) => l,
            Err(e) => {
                self.stage = Stage::Refused;
                return Err(Refusal::Source(e));
            },
        };
        let found: Found = match register(
            reading.path.as_str(),
            slot,
            plan.code.as_str(),
            report,
            reading.before.as_str(),
            reading.after.as_str(),
            reading.modified.as_str(),
        ) {
            Ok(f) => f,
            Err(e) => {
                self.stage = Stage::Refused;
                return Err(Refusal::Source(e));
            },
        };
        Ok(self.move_on(Some(found), true))
    }

    /// Takes the workbook in once more, when all sources are: the plan is made unless it is refused.
    pub fn take_target_again(&mut self, bytes: &[u8]) -> (r: Result<Action, Refusal>)
        requires
            old(self).wf(),
            old(self)@.stage == Stage::Again,
        ensures
            final(self).wf(),
            match finish_fault(old(self)@.state.0, old(self)@.present, fingerprint(bytes@)) {
                Some(e) => final(self)@ == (InspectorView { stage: Stage::Refused, ..old(self)@ })
                    && (r matches Err(f) && f@ == RefusalView::Plan(e)),
                None => final(self)@ == (InspectorView { stage: Stage::Over, ..old(self)@ }) && (
                r matches Ok(a) && a@ == ActionView::Done),
            },
    {
        let now: String = hash(bytes);
        match finish(&self.inspection.plan, &self.present, now.as_str()) {
            Some(e) => {
                self.stage = Stage::Refused;
                Err(Refusal::Plan(e))
            },
            None => {
                self.stage = Stage::Over;
                Ok(Action::Done)
            },
        }
    }

    /// The plan that was made.
    pub fn into_plan(self) -> (r: Plan)
        requires
            self.wf(),
            self@.stage == Stage::Over,
        ensures
            r.wf(),
            r@ == self@.state.0,
    {
        self.inspection.plan
    }
}

/// An inspection goes through its slots in order and leaves none out: it moves on from each to the
/// next one that is not the end of a period, and asks for the workbook once more only when it is
/// through with all of them.
pub proof fn every_slot_is_gone_through(i: InspectorView, state: State)
    requires
        0 <= i.at < i.slots.len(),
    ensures
        ({
            let next = moved_on(i, state);
            &&& i.at < next.at <= i.slots.len()
            &&& forall|k: int| i.at < k < next.at ==> #[trigger] i.slots[k] is End
            &&& next.stage == Stage::Again <==> next.at == i.slots.len()
            &&& next.at < i.slots.len() ==> !(i.slots[next.at] is End)
        }),
{
    ends_are_gone_through(state, i.slots, i.at + 1);
}

proof fn ends_are_gone_through(state: State, slots: Seq<SlotView>, at: int)
    requires
        0 <= at <= slots.len(),
    ensures
        ({
            let next = past_ends(state, slots, at).1;
            &&& at <= next <= slots.len()
            &&& forall|k: int| at <= k < next ==> #[trigger] slots[k] is End
            &&& next < slots.len() ==> !(slots[next] is End)
        }),
    decreases slots.len() - at,
{
    if at < slots.len() && slots[at] is End {
        ends_are_gone_through(
            after_slot(state, slots[at], None, None, false),
            slots,
            at + 1,
        );
    }
}

/// What an inspection is told: the workbook, the entries of a folder and whether that is there, a
/// source, or the workbook once more.
pub enum Sight {
    Target(Seq<u8>),
    Listing(Seq<ListedView>, bool),
    Report(Reading),
    Again(Seq<u8>),
}

/// The inspection once it was told something that it waited for, unless it is broken off.
pub open spec fn told(i: InspectorView, sight: Sight) -> Option<InspectorView> {
    match (i.stage, sight) {
        (Stage::Target, Sight::Target(bytes)) => match after_target(i, bytes) {
            Ok(next) => Some(next),
            Err(_) => None,
        },
        (Stage::Folder, Sight::Listing(entries, is_dir)) => Some(
            after_listing(i, entries, is_dir).0,
        ),
        (Stage::Report, Sight::Report(reading)) => match after_report(i, reading) {
            Ok(next) => Some(next),
            Err(_) => None,
        },
        (Stage::Again, Sight::Again(bytes)) => match finish_fault(
            i.state.0,
            i.present,
            fingerprint(bytes),
        ) {
            None => Some(InspectorView { stage: Stage::Over, ..i }),
            Some(_) => None,
        },
        _ => None,
    }
}

/// The inspection once it was told several things one after the other, unless it is broken off.
pub open spec fn course(start: InspectorView, sights: Seq<Sight>) -> Option<InspectorView>
    decreases sights.len(),
{
    if sights.len() == 0 {
        Some(start)
    } else {
        match course(start, sights.drop_last()) {
            None => None,
            Some(i) => told(i, sights.last()),
        }
    }
}

/// Whether a worksheet is one that a slot is for.
pub open spec fn is_slot_sheet(slots: Seq<SlotView>, name: Seq<char>) -> bool {
    exists|k: int| 0 <= k < slots.len() && sheet_for(#[trigger] slots[k]) == name
}

/// Whether two plans are of the same workbook and for the same, and the second one has rows only for
/// such worksheets more as the slots are for.
spec fn grown(a: PlanView, b: PlanView, slots: Seq<SlotView>) -> bool {
    &&& b.target == a.target
    &&& b.station == a.station
    &&& b.code == a.code
    &&& b.date == a.date
    &&& b.root == a.root
    &&& b.target_hash == a.target_hash
    &&& forall|name: Seq<char>| #[trigger]
        b.names.contains(name) ==> a.names.contains(name) || is_slot_sheet(slots, name)
}

proof fn slots_grow_plans(
    state: State,
    slots: Seq<SlotView>,
    k: int,
    warning: Option<Seq<char>>,
    found: FoundView,
    is_dir: bool,
)
    requires
        0 <= k < slots.len(),
    ensures
        grown(state.0, after_slot(state, slots[k], warning, found, is_dir).0, slots),
{
    let a = state.0;
    let b = after_slot(state, slots[k], warning, found, is_dir).0;
    settling_only_adds(state, slots[k], warning, found, is_dir);
    assert forall|name: Seq<char>| #[trigger] b.names.contains(name) implies a.names.contains(name)
        || is_slot_sheet(slots, name) by {
        if keys_with(a.names, sheet_for(slots[k])).contains(name) {
            only_the_key_is_new(a.names, sheet_for(slots[k]), name);
        }
        assert(sheet_for(slots[k]) == name ==> is_slot_sheet(slots, name));
    }
}

proof fn ends_grow_plans(state: State, slots: Seq<SlotView>, at: int)
    requires
        0 <= at <= slots.len(),
    ensures
        grown(state.0, past_ends(state, slots, at).0.0, slots),
    decreases slots.len() - at,
{
    if at < slots.len() && slots[at] is End {
        slots_grow_plans(state, slots, at, None, None, false);
        ends_grow_plans(after_slot(state, slots[at], None, None, false), slots, at + 1);
    }
}

proof fn moving_on_grows_plans(
    i: InspectorView,
    warning: Option<Seq<char>>,
    found: FoundView,
    is_dir: bool,
)
    requires
        0 <= i.at < i.slots.len(),
    ensures
        ({
            let next = moved_on(i, after_slot(i.state, i.slots[i.at], warning, found, is_dir));
            grown(i.state.0, next.state.0, i.slots)
        }),
{
    let state = after_slot(i.state, i.slots[i.at], warning, found, is_dir);
    slots_grow_plans(i.state, i.slots, i.at, warning, found, is_dir);
    ends_grow_plans(state, i.slots, i.at + 1);
}

/// What an inspection has come to, by what it was told.
spec fn trail(start: InspectorView, sights: Seq<Sight>, i: InspectorView) -> bool {
    if i.stage == Stage::Target {
        sights.len() == 0 && i == start
    } else {
        &&& sights.len() > 0
        &&& i.slots == start.slots
        &&& 0 <= i.at <= i.slots.len()
        &&& i.stage == Stage::Folder || i.stage == Stage::Report ==> i.at < i.slots.len()
        &&& i.stage == Stage::Again || i.stage == Stage::Over ==> i.at == i.slots.len()
        &&& sights[0] matches Sight::Target(bytes) && sheet_name_list(bytes) == Ok::<
            Seq<Seq<char>>,
            RewriteErrorView,
        >(i.present) && grown(with_hash(start.state.0, fingerprint(bytes)), i.state.0, i.slots)
        &&& i.stage == Stage::Over ==> (sights.last() matches Sight::Again(bytes) && finish_fault(
            i.state.0,
            i.present,
            fingerprint(bytes),
        ) is None)
    }
}

proof fn trail_is_followed(start: InspectorView, sights: Seq<Sight>)
    requires
        start.stage == Stage::Target,
        start.at == 0,
        start.slots.len() > 0,
        course(start, sights) is Some,
    ensures
        trail(start, sights, course(start, sights)->Some_0),
    decreases sights.len(),
{
    if sights.len() > 0 {
        let before = sights.drop_last();
        let sight = sights.last();
        trail_is_followed(start, before);
        let i = course(start, before)->Some_0;
        let next = course(start, sights)->Some_0;
        assert(before.len() > 0 ==> before[0] == sights[0]);
        match (i.stage, sight) {
            (Stage::Folder, Sight::Listing(entries, is_dir)) => {
                let choice = choice_for(i.slots[i.at], i.state.0.code, i.state.0.date, entries);
                if choice.0 is None {
                    let state = after_slot(i.state, i.slots[i.at], choice.1, None, is_dir);
                    moving_on_grows_plans(i, choice.1, None, is_dir);
                    every_slot_is_gone_through(i, state);
                }
            },
            (Stage::Report, Sight::Report(reading)) => {
                let slot = i.slots[i.at];
                let code = code_for(slot, i.state.0.code);
                let l = loaded(
                    i.state.0.station,
                    reading.path@,
                    sheet_for(slot),
                    code,
                    !(slot is Stock),
                    reading.content,
                )->Ok_0;
                let source = source_of(
                    reading.path@,
                    sheet_for(slot),
                    code,
                    l,
                    reading.before@,
                    reading.modified@,
                );
                let found = Some((source, l.rows));
                moving_on_grows_plans(i, i.warning, found, true);
                every_slot_is_gone_through(i, after_slot(i.state, slot, i.warning, found, true));
            },
            _ => {},
        }
    }
}

proof fn ends_keep_the_balance(state: State, slots: Seq<SlotView>, at: int, name: Seq<char>)
    requires
        well_laid(slots),
        0 <= at <= slots.len(),
        balanced(state, slots, at, name),
    ensures
        balanced(past_ends(state, slots, at).0, slots, past_ends(state, slots, at).1, name),
    decreases slots.len() - at,
{
    if at < slots.len() && slots[at] is End {
        slots_keep_the_balance(state, slots, at, None, None, false, name);
        ends_keep_the_balance(
            after_slot(state, slots[at], None, None, false),
            slots,
            at + 1,
            name,
        );
    }
}

/// What an inspection has come to keeps the balance of a worksheet.
spec fn keeps_balance(i: InspectorView, name: Seq<char>) -> bool {
    &&& balanced(i.state, i.slots, i.at, name)
    &&& i.warning matches Some(w) ==> w != missing_text(name)
}

proof fn the_balance_is_kept(start: InspectorView, sights: Seq<Sight>, name: Seq<char>)
    requires
        start.stage == Stage::Target,
        start.at == 0,
        well_laid(start.slots),
        start.slots.len() > 0,
        keeps_balance(start, name),
        course(start, sights) is Some,
    ensures
        keeps_balance(course(start, sights)->Some_0, name),
    decreases sights.len(),
{
    if sights.len() > 0 {
        let before = sights.drop_last();
        let sight = sights.last();
        the_balance_is_kept(start, before, name);
        trail_is_followed(start, before);
        let i = course(start, before)->Some_0;
        match (i.stage, sight) {
            (Stage::Folder, Sight::Listing(entries, is_dir)) => {
                let slot = i.slots[i.at];
                let choice = choice_for(slot, i.state.0.code, i.state.0.date, entries);
                choices_are_not_missing(slot, i.state.0.code, i.state.0.date, entries, name);
                if choice.0 is None {
                    slots_keep_the_balance(
                        i.state,
                        i.slots,
                        i.at,
                        choice.1,
                        None,
                        is_dir,
                        name,
                    );
                    let state = after_slot(i.state, slot, choice.1, None, is_dir);
                    ends_keep_the_balance(state, i.slots, i.at + 1, name);
                }
            },
            (Stage::Report, Sight::Report(reading)) => {
                let slot = i.slots[i.at];
                let code = code_for(slot, i.state.0.code);
                let l = loaded(
                    i.state.0.station,
                    reading.path@,
                    sheet_for(slot),
                    code,
                    !(slot is Stock),
                    reading.content,
                )->Ok_0;
                let source = source_of(
                    reading.path@,
                    sheet_for(slot),
                    code,
                    l,
                    reading.before@,
                    reading.modified@,
                );
                let found = Some((source, l.rows));
                slots_keep_the_balance(i.state, i.slots, i.at, i.warning, found, true, name);
                let state = after_slot(i.state, slot, i.warning, found, true);
                ends_keep_the_balance(state, i.slots, i.at + 1, name);
            },
            _ => {},
        }
    }
}

proof fn choices_are_not_missing(
    slot: SlotView,
    code: Seq<char>,
    date: Seq<char>,
    entries: Seq<ListedView>,
    name: Seq<char>,
)
    ensures
        choice_for(slot, code, date, entries).1 matches Some(w) ==> w != missing_text(name),
{
    match slot {
        SlotView::Stock(s) => {
            candidates_are_not_missing(s, source_places(entries, entries.len()).len(), name);
        },
        SlotView::End(_) => {},
        SlotView::Primary(p) | SlotView::Country(p, _) | SlotView::Mexico(p) => {
            let c = code_for(slot, code);
            candidates_are_not_missing(
                c + " "@ + p + "天销"@,
                report_places(entries, c, p, date).len(),
                name,
            );
        },
    }
}

/// A plan that is made is of the workbook as it was first and as it was last, and for what its name
/// said; it has rows for a worksheet at least, and only for worksheets that the workbook has and a
/// slot is for. Each worksheet that a slot is for has rows, or the warning that it stays as it is, and
/// never both.
pub proof fn made_plans_fit(start: InspectorView, sights: Seq<Sight>, name: Seq<char>)
    requires
        start.stage == Stage::Target,
        start.at == 0,
        start.slots == slots_of(start.state.0.station),
        start.warning is None,
        start.state.0.names.len() == 0,
        start.state.0.tables.len() == 0,
        start.state.0.warnings.len() == 0,
        course(start, sights) matches Some(i) && i.stage == Stage::Over,
    ensures
        ({
            let i = course(start, sights)->Some_0;
            let plan = i.state.0;
            &&& i.at == i.slots.len()
            &&& sights[0] matches Sight::Target(bytes) && plan.target_hash == fingerprint(bytes)
            &&& sights.last() matches Sight::Again(bytes) && plan.target_hash == fingerprint(bytes)
            &&& plan.target == start.state.0.target
            &&& plan.station == start.state.0.station
            &&& plan.code == start.state.0.code
            &&& plan.date == start.state.0.date
            &&& plan.names.len() > 0
            &&& plan.names.contains(name) ==> i.present.contains(name) && is_slot_sheet(
                start.slots,
                name,
            )
            &&& is_slot_sheet(start.slots, name) ==> accounted(plan, name)
        }),
{
    schedules_are_laid(start.state.0.station);
    trail_is_followed(start, sights);
    let i = course(start, sights)->Some_0;
    let plan = i.state.0;
    let last = sights.last()->Again_0;
    finished_plans_fit(plan, i.present, fingerprint(last), 0);
    if plan.names.contains(name) {
        let k = choose|k: int| 0 <= k < plan.names.len() && plan.names[k] == name;
        finished_plans_fit(plan, i.present, fingerprint(last), k);
    }
    if is_slot_sheet(start.slots, name) {
        lookup_nothing(start.state.0.names, start.state.0.tables, name);
        the_balance_is_kept(start, sights, name);
        let k = choose|k: int|
            0 <= k < start.slots.len() && sheet_for(#[trigger] start.slots[k]) == name;
        assert(opened(i.slots, i.slots.len() as int, name));
        the_balance_accounts(i.state, i.slots, name);
    }
}

/// What comes of a folder that was listed: where it has a candidate, the newest one is opened in that very
/// folder, and the warning of the choice is kept for it; where it has none, the slot is settled without a
/// source and the folder of the next one is asked for, or the workbook once more.
pub proof fn listings_lead_on(i: InspectorView, entries: Seq<ListedView>, is_dir: bool)
    ensures
        ({
            let slot = i.slots[i.at];
            let date = i.state.0.date;
            let (place, warning) = choice_for(slot, i.state.0.code, date, entries);
            let (next, action) = after_listing(i, entries, is_dir);
            &&& place matches Some(k) ==> action == ActionView::Open(
                folder_for(slot, date),
                entries[k].name,
            ) && next.warning == warning && next.stage == Stage::Report && next.state == i.state
                && next.at == i.at && next.slots == i.slots
            &&& place is None ==> next.at > i.at && next.warning is None && (next.at < i.slots.len()
                ==> next.stage == Stage::Folder && action == ActionView::List(
                folder_for(i.slots[next.at], next.state.0.date),
            )) && (next.at >= i.slots.len() ==> next.stage == Stage::Again && action
                == ActionView::ReadTarget)
        }),
{
    let slot = i.slots[i.at];
    let warning = choice_for(slot, i.state.0.code, i.state.0.date, entries).1;
    ends_move_on(after_slot(i.state, slot, warning, None, is_dir), i.slots, i.at + 1);
}

proof fn ends_move_on(state: State, slots: Seq<SlotView>, at: int)
    ensures
        past_ends(state, slots, at).1 >= at,
        ({
            let to = past_ends(state, slots, at).1;
            forall|k: int| at <= k < to ==> #[trigger] slots[k] is End
        }),
        ({
            let to = past_ends(state, slots, at).1;
            0 <= to < slots.len() ==> !(slots[to] is End)
        }),
    decreases slots.len() - at,
{
    if 0 <= at < slots.len() && slots[at] is End {
        ends_move_on(after_slot(state, slots[at], None, None, false), slots, at + 1);
    }
}

/// What comes of a source that was read: it is loaded for the station of the plan, as a sales report
/// unless it is a stock list; it is refused where it cannot be loaded, or changed meanwhile; and else it
/// and its rows settle the slot, with the warning of its choice.
pub proof fn reports_settle_their_slot(i: InspectorView, reading: Reading)
    ensures
        ({
            let slot = i.slots[i.at];
            let plan = i.state.0;
            let code = code_for(slot, plan.code);
            let sheet = sheet_for(slot);
            let sales = !(slot is Stock);
            let l = loaded(plan.station, reading.path@, sheet, code, sales, reading.content);
            let next = after_report(i, reading);
            &&& l matches Err(e) ==> next == Err::<InspectorView, RefusalView>(
                RefusalView::Source(e),
            )
            &&& l is Ok && reading.before@ != reading.after@ ==> next == Err::<
                InspectorView,
                RefusalView,
            >(RefusalView::Source(LoadErrorView::Changed))
            &&& l is Ok && reading.before@ == reading.after@ ==> next == Ok::<
                InspectorView,
                RefusalView,
            >(
                moved_on(
                    i,
                    after_slot(
                        i.state,
                        slot,
                        i.warning,
                        Some(
                            (
                                source_of(
                                    reading.path@,
                                    sheet,
                                    code,
                                    l->Ok_0,
                                    reading.before@,
                                    reading.modified@,
                                ),
                                l->Ok_0.rows,
                            ),
                        ),
                        true,
                    ),
                ),
            )
        }),
{
}

/// What comes of the workbook that is read first: its fingerprint goes into the plan and the names of its
/// worksheets are kept, and it is refused where they cannot be told.
pub proof fn workbooks_are_taken_in(i: InspectorView, bytes: Seq<u8>)
    ensures
        match (sheet_name_list(bytes), after_target(i, bytes)) {
            (Ok(names), Ok(next)) => {
                &&& next.present == names
                &&& next.state.0.target_hash == fingerprint(bytes)
                &&& next.state.0.sources == i.state.0.sources
                &&& next.state.0.warnings == i.state.0.warnings
                &&& next.state.0.names == i.state.0.names
                &&& next.state.0.tables == i.state.0.tables
                &&& next.state.1 == i.state.1
                &&& next.at == i.at
                &&& next.slots == i.slots
                &&& next.stage == Stage::Folder
            },
            (Err(e), Err(r)) => r == RefusalView::Workbook(e),
            _ => false,
        },
{
}

/// The ends of periods are settled as soon as they are reached, one after the other.
pub proof fn ends_are_settled(state: State, slots: Seq<SlotView>, at: int)
    ensures
        0 <= at < slots.len() && slots[at] is End ==> past_ends(state, slots, at) == past_ends(
            after_slot(state, slots[at], None, None, false),
            slots,
            at + 1,
        ),
        0 <= at < slots.len() && !(slots[at] is End) ==> past_ends(state, slots, at) == (state, at),
        at >= slots.len() ==> past_ends(state, slots, at) == (state, at),
{
}

/// An inspection starts with an empty plan of the workbook that it is of: for the station, the code and
/// the date that the names of the workbook and the folder tell.
pub proof fn inspections_start_with_an_empty_plan(
    target: &str,
    name: &str,
    root: &str,
    folder: &str,
    r: Result<Inspector, IdentifyError>,
)
    requires
        call_ensures(Inspector::new, (target, name, root, folder), r),
    ensures
        r is Ok <==> identified(name@, folder@) is Ok,
        r matches Ok(i) ==> {
            let plan = i@.state.0;
            &&& plan.target == target@
            &&& plan.root == root@
            &&& identified(name@, folder@)->Ok_0 == (plan.station, plan.code, plan.date)
            &&& plan.sources.len() == 0
            &&& plan.warnings.len() == 0
            &&& plan.names.len() == 0
            &&& plan.tables.len() == 0
            &&& plan.target_hash.len() == 0
            &&& i@.present.len() == 0
            &&& i@.at == 0
            &&& i@.warning is None
            &&& i@.stage == Stage::Target
        },
{
}

/// What a plan is of stays as it is, whatever is taken in.
pub proof fn plans_stay_of_their_workbook(
    i: InspectorView,
    bytes: Seq<u8>,
    slot: SlotView,
    warning: Option<Seq<char>>,
    found: FoundView,
    is_dir: bool,
)
    ensures
        after_target(i, bytes) matches Ok(next) ==> same_workbook(next.state.0, i.state.0),
        same_workbook(after_slot(i.state, slot, warning, found, is_dir).0, i.state.0),
        after_slot(i.state, slot, warning, found, is_dir).0.target_hash == i.state.0.target_hash,
{
}

/// Whether two plans are of the same workbook.
pub open spec fn same_workbook(a: PlanView, b: PlanView) -> bool {
    &&& a.target == b.target
    &&& a.station == b.station
    &&& a.code == b.code
    &&& a.date == b.date
    &&& a.root == b.root
}

/// What is said of a refusal: the words are fixed, and what they are
/// about stands in them as it is.
pub proof fn refusals_are_worded(error: RefusalView)
    ensures
        match error {
            RefusalView::Workbook(e) => error.words() == e.words(),
            RefusalView::Source(e) => error.words() == e.words(),
            RefusalView::Plan(e) => error.words() == e.words(),
        },
{
}

} // verus!
