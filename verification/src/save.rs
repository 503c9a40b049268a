//! Filling a workbook: everything is checked again, the new workbook is written beside the old one
//! and read back, and only then takes its place.

use crate::map::TextMap;
use crate::plan::{converted_in, converted_total, Outcome, Plan, PlanView};
use crate::rewrite::{
    check_rewrite, prepare, prepared, read_back_fault, rewrite_fault, rewritten, RewriteError,
    RewriteErrorView, Texts,
};
use crate::text::{same, stands_between, texts_of};
use vstd::prelude::*;
use vstd::string::StringExecFns;

verus! {

/// What was seen or done.
pub enum Event {
    /// The fingerprint of the file that was asked for.
    Hash(String),
    /// Whether the lock file is there.
    Lock(bool),
    /// The bytes of the file that was asked for.
    Bytes(Vec<u8>),
    /// The new workbook has taken the place of the old one.
    Replaced,
}

/// What was seen or done, in contracts.
pub enum EventView {
    Hash(Seq<char>),
    Lock(bool),
    Bytes(Seq<u8>),
    Replaced,
}

impl View for Event {
    type V = EventView;

    open spec fn view(&self) -> EventView {
        match self {
            Event::Hash(h) => EventView::Hash(h@),
            Event::Lock(b) => EventView::Lock(*b),
            Event::Bytes(v) => EventView::Bytes(v@),
            Event::Replaced => EventView::Replaced,
        }
    }
}

/// What is to be done next.
pub enum Step {
    /// Tell the fingerprint of the workbook.
    HashTarget,
    /// Tell the fingerprint of the source at the given place.
    HashSource(usize),
    /// Tell whether the lock file is there.
    CheckLock,
    /// Read the workbook.
    ReadTarget,
    /// Write the given bytes beside the workbook and read them back.
    WriteBeside(Vec<u8>),
    /// Copy the workbook to a backup and tell the fingerprint of that.
    Backup,
    /// Put the new workbook in the place of the old one.
    Replace,
    /// Nothing: the workbook is filled.
    Done,
}

/// What is to be done next, in contracts.
pub enum StepView {
    HashTarget,
    HashSource(int),
    CheckLock,
    ReadTarget,
    WriteBeside(Seq<u8>),
    Backup,
    Replace,
    Done,
}

impl View for Step {
    type V = StepView;

    open spec fn view(&self) -> StepView {
        match self {
            Step::HashTarget => StepView::HashTarget,
            Step::HashSource(i) => StepView::HashSource(*i as int),
            Step::CheckLock => StepView::CheckLock,
            Step::ReadTarget => StepView::ReadTarget,
            Step::WriteBeside(v) => StepView::WriteBeside(v@),
            Step::Backup => StepView::Backup,
            Step::Replace => StepView::Replace,
            Step::Done => StepView::Done,
        }
    }
}

/// Why a workbook is not filled.
pub enum SaveError {
    /// The workbook changed since the inspection.
    TargetChanged,
    /// The source with the given path changed since the inspection.
    SourceChanged(String),
    /// The workbook is open elsewhere.
    Locked,
    /// The workbook cannot be rewritten.
    Rewrite(RewriteError),
    /// The workbook changed while it was rewritten.
    ChangedMeanwhile,
    /// The backup is not what it should be.
    BadBackup,
    /// Something was told that was not asked for.
    OutOfTurn,
}

/// Why a workbook is not filled, in contracts.
pub enum SaveErrorView {
    TargetChanged,
    SourceChanged(Seq<char>),
    Locked,
    Rewrite(RewriteErrorView),
    ChangedMeanwhile,
    BadBackup,
    OutOfTurn,
}

impl View for SaveError {
    type V = SaveErrorView;

    open spec fn view(&self) -> SaveErrorView {
        match self {
            SaveError::TargetChanged => SaveErrorView::TargetChanged,
            SaveError::SourceChanged(p) => SaveErrorView::SourceChanged(p@),
            SaveError::Locked => SaveErrorView::Locked,
            SaveError::Rewrite(e) => SaveErrorView::Rewrite(e@),
            SaveError::ChangedMeanwhile => SaveErrorView::ChangedMeanwhile,
            SaveError::BadBackup => SaveErrorView::BadBackup,
            SaveError::OutOfTurn => SaveErrorView::OutOfTurn,
        }
    }
}

impl SaveErrorView {
    /// The error in words.
    pub open spec fn words(self) -> Seq<char> {
        match self {
            SaveErrorView::TargetChanged => "补货表在识别后已变化，请重新识别再填充"@,
            SaveErrorView::SourceChanged(p) => "源文件在识别后已变化，请重新识别："@ + p,
            SaveErrorView::Locked => "补货表可能正在 Excel / WPS 中打开，请关闭后重试"@,
            SaveErrorView::Rewrite(e) => e.words(),
            SaveErrorView::ChangedMeanwhile => "保存前发现原表发生变化，未覆盖"@,
            SaveErrorView::BadBackup => "备份校验失败，未覆盖原表"@,
            SaveErrorView::OutOfTurn => "填充步骤次序错误"@,
        }
    }
}

impl SaveError {
    /// The error in words.
    pub fn message(&self) -> (r: String)
        ensures
            r@ == self@.words(),
    {
        match self {
            SaveError::TargetChanged => "补货表在识别后已变化，请重新识别再填充".to_string(),
            SaveError::SourceChanged(p) => {
                let mut r: String = "源文件在识别后已变化，请重新识别：".to_string();
                r.append(p.as_str());
                r
            },
            SaveError::Locked => "补货表可能正在 Excel / WPS 中打开，请关闭后重试".to_string(),
            SaveError::Rewrite(e) => e.message(),
            SaveError::ChangedMeanwhile => "保存前发现原表发生变化，未覆盖".to_string(),
            SaveError::BadBackup => "备份校验失败，未覆盖原表".to_string(),
            SaveError::OutOfTurn => "填充步骤次序错误".to_string(),
        }
    }
}

/// What the filling of a workbook waits for.
#[derive(Clone, Copy, Debug, PartialEq, Eq, Structural)]
pub enum Waiting {
    /// The fingerprint of the workbook.
    Target,
    /// The fingerprint of a source.
    Source,
    /// Whether the workbook is locked.
    Lock,
    /// The workbook.
    Workbook,
    /// The new workbook, read back.
    Written,
    /// The fingerprint of the workbook once more.
    Again,
    /// The fingerprint of the backup.
    Backup,
    /// That the new workbook has taken the place of the old one.
    Replacing,
    /// Nothing.
    Over,
}

/// The filling of a workbook that is under way.
pub struct Saver {
    pub waiting: Waiting,
    pub at: usize,
    pub bytes: Vec<u8>,
    pub changed: TextMap<String>,
}

/// The filling of a workbook that is under way, in contracts: what it waits for, the source that it
/// is at, the workbook and the new texts of the parts that change.
pub struct SaverView {
    pub waiting: Waiting,
    pub at: int,
    pub bytes: Seq<u8>,
    pub changed: Texts,
}

impl View for Saver {
    type V = SaverView;

    open spec fn view(&self) -> SaverView {
        SaverView {
            waiting: self.waiting,
            at: self.at as int,
            bytes: self.bytes@,
            changed: (self.changed.keys(), texts_of(self.changed.values())),
        }
    }
}

/// The filling of a workbook at its start.
pub open spec fn start() -> SaverView {
    SaverView {
        waiting: Waiting::Target,
        at: 0,
        bytes: Seq::empty(),
        changed: (Seq::empty(), Seq::empty()),
    }
}

/// On to the source at place `i`, or past the last one.
pub open spec fn to_source(plan: PlanView, s: SaverView, i: int) -> (SaverView, StepView) {
    if i < plan.sources.len() {
        (SaverView { waiting: Waiting::Source, at: i, ..s }, StepView::HashSource(i))
    } else {
        (SaverView { waiting: Waiting::Lock, at: i, ..s }, StepView::CheckLock)
    }
}

/// What follows on an event.
pub open spec fn next(plan: PlanView, backup: bool, s: SaverView, e: EventView) -> Result<
    (SaverView, StepView),
    SaveErrorView,
> {
    match (s.waiting, e) {
        (Waiting::Target, EventView::Hash(h)) => if h != plan.target_hash {
            Err(SaveErrorView::TargetChanged)
        } else {
            Ok(to_source(plan, s, 0))
        },
        (Waiting::Source, EventView::Hash(h)) => if h != plan.sources[s.at].hash {
            Err(SaveErrorView::SourceChanged(plan.sources[s.at].path))
        } else {
            Ok(to_source(plan, s, s.at + 1))
        },
        (Waiting::Lock, EventView::Lock(b)) => if b {
            Err(SaveErrorView::Locked)
        } else {
            Ok((SaverView { waiting: Waiting::Workbook, ..s }, StepView::ReadTarget))
        },
        (Waiting::Workbook, EventView::Bytes(b)) => match prepared(b, plan.names, plan.tables) {
            Err(e) => Err(SaveErrorView::Rewrite(e)),
            Ok((new, changed)) => Ok(
                (
                    SaverView { waiting: Waiting::Written, bytes: b, changed, ..s },
                    StepView::WriteBeside(new),
                ),
            ),
        },
        (Waiting::Written, EventView::Bytes(w)) => match written_fault(s, w) {
            Some(e) => Err(SaveErrorView::Rewrite(e)),
            None => Ok((SaverView { waiting: Waiting::Again, ..s }, StepView::HashTarget)),
        },
        (Waiting::Again, EventView::Hash(h)) => if h != plan.target_hash {
            Err(SaveErrorView::ChangedMeanwhile)
        } else if backup {
            Ok((SaverView { waiting: Waiting::Backup, ..s }, StepView::Backup))
        } else {
            Ok((SaverView { waiting: Waiting::Replacing, ..s }, StepView::Replace))
        },
        (Waiting::Backup, EventView::Hash(h)) => if h != plan.target_hash {
            Err(SaveErrorView::BadBackup)
        } else {
            Ok((SaverView { waiting: Waiting::Replacing, ..s }, StepView::Replace))
        },
        (Waiting::Replacing, EventView::Replaced) => Ok(
            (SaverView { waiting: Waiting::Over, ..s }, StepView::Done),
        ),
        _ => Err(SaveErrorView::OutOfTurn),
    }
}

/// Why a workbook is not filled, or that nothing is told.
pub open spec fn save_fault(e: Option<SaveError>) -> SaveErrorView {
    match e {
        Some(e) => e@,
        None => SaveErrorView::Rewrite(RewriteErrorView::Beyond),
    }
}

/// Why the new workbook that was read back is not right, if it is not.
pub open spec fn written_fault(s: SaverView, written: Seq<u8>) -> Option<RewriteErrorView> {
    read_back_fault(s.bytes, written, s.changed)
}

impl Saver {
    /// Whether the filling is well formed, for a plan.
    pub open spec fn wf(&self, plan: PlanView) -> bool {
        &&& self.changed.wf()
        &&& self.waiting == Waiting::Source ==> self.at < plan.sources.len()
    }

    /// Starts to fill a workbook. Its fingerprint is to be told first.
    pub fn new() -> (r: Self)
        ensures
            forall|plan: PlanView| #[trigger] r.wf(plan),
            r@ == start(),
    {
        let r: Saver = Saver {
            waiting: Waiting::Target,
            at: 0,
            bytes: Vec::new(),
            changed: TextMap::new(),
        };
        assert(texts_of(r.changed.values()) =~= Seq::<Seq<char>>::empty());
        r
    }

    /// On to the source at place `i`, or past the last one.
    fn go_to_source(&mut self, plan: &Plan, i: usize) -> (r: Step)
        requires
            old(self).changed.wf(),
        ensures
            final(self).wf(plan@),
            (final(self)@, r@) == to_source(plan@, old(self)@, i as int),
    {
        self.at = i;
        if i < plan.sources.len() {
            self.waiting = Waiting::Source;
            Step::HashSource(i)
        } else {
            self.waiting = Waiting::Lock;
            Step::CheckLock
        }
    }

    /// Goes on from an event; `None` where nothing can be told of the workbook. Then, and once there was
    /// an error, nothing is waited for any more.
    pub fn step(&mut self, plan: &Plan, backup: bool, event: Event) -> (r: Option<
        Result<Step, SaveError>,
    >)
        requires
            old(self).wf(plan@),
            plan.wf(),
        ensures
            final(self).wf(plan@),
            match next(plan@, backup, old(self)@, event@) {
                Ok((state, step)) => final(self)@ == state && (r matches Some(Ok(a)) && a@ == step),
                Err(e) => final(self)@.waiting == Waiting::Over && (if e == SaveErrorView::Rewrite(
                    RewriteErrorView::Beyond,
                ) {
                    r is None
                } else {
                    r matches Some(Err(f)) && f@ == e
                }),
            },
    {
        match self.take(plan, backup, event) {
            Ok(step) => Some(Ok(step)),
            Err(e) => {
                self.waiting = Waiting::Over;
                match e {
                    Some(e) => Some(Err(e)),
                    None => None,
                }
            },
        }
    }

    /// Takes an event in.
    fn take(&mut self, plan: &Plan, backup: bool, event: Event) -> (r: Result<
        Step,
        Option<SaveError>,
    >)
        requires
            old(self).wf(plan@),
            plan.wf(),
        ensures
            final(self).wf(plan@),
            match next(plan@, backup, old(self)@, event@) {
                Ok((state, step)) => final(self)@ == state && (r matches Ok(a) && a@ == step),
                Err(e) => r matches Err(f) && save_fault(f) == e,
            },
    {
        match (self.waiting, event) {
            (Waiting::Target, Event::Hash(h)) => {
                if !same(h.as_str(), plan.target_hash.as_str()) {
                    return Err(Some(SaveError::TargetChanged));
                }
                Ok(self.go_to_source(plan, 0))
            },
            (Waiting::Source, Event::Hash(h)) => {
                let count: usize = plan.sources.len();
                assert(self.at < count);
                assert(plan@.sources[self.at as int] == plan.sources@[self.at as int]@);
                if !same(h.as_str(), plan.sources[self.at].hash.as_str()) {
                    return Err(Some(SaveError::SourceChanged(plan.sources[self.at].path.clone())));
                }
                let i: usize = self.at + 1;
                Ok(self.go_to_source(plan, i))
            },
            (Waiting::Lock, Event::Lock(b)) => {
                if b {
                    return Err(Some(SaveError::Locked));
                }
                self.waiting = Waiting::Workbook;
                Ok(Step::ReadTarget)
            },
            (Waiting::Workbook, Event::Bytes(b)) => match prepare(b.as_slice(), &plan.sheets) {
                None => Err(None),
                Some(Err(e)) => Err(Some(SaveError::Rewrite(e))),
                Some(Ok((new, changed))) => {
                    self.waiting = Waiting::Written;
                    self.bytes = b;
                    self.changed = changed;
                    Ok(Step::WriteBeside(new))
                },
            },
            (Waiting::Written, Event::Bytes(w)) => match check_rewrite(
                self.bytes.as_slice(),
                w.as_slice(),
                &self.changed,
            ) {
                None => Err(None),
                Some(Err(e)) => Err(Some(SaveError::Rewrite(e))),
                Some(Ok(())) => {
                    self.waiting = Waiting::Again;
                    Ok(Step::HashTarget)
                },
            },
            (Waiting::Again, Event::Hash(h)) => {
                if !same(h.as_str(), plan.target_hash.as_str()) {
                    return Err(Some(SaveError::ChangedMeanwhile));
                }
                if backup {
                    self.waiting = Waiting::Backup;
                    Ok(Step::Backup)
                } else {
                    self.waiting = Waiting::Replacing;
                    Ok(Step::Replace)
                }
            },
            (Waiting::Backup, Event::Hash(h)) => {
                if !same(h.as_str(), plan.target_hash.as_str()) {
                    return Err(Some(SaveError::BadBackup));
                }
                self.waiting = Waiting::Replacing;
                Ok(Step::Replace)
            },
            (Waiting::Replacing, Event::Replaced) => {
                self.waiting = Waiting::Over;
                Ok(Step::Done)
            },
            _ => Err(Some(SaveError::OutOfTurn)),
        }
    }
}

/// The name of the lock file of a workbook.
pub fn lock_name(name: &str) -> (r: String)
    ensures
        r@ == "~$"@ + name@,
{
    let mut r: String = "~$".to_string();
    r.append(name);
    r
}

/// The name of a backup of a workbook with the given stem, made at the given time.
pub fn backup_name(stem: &str, stamp: &str) -> (r: String)
    ensures
        r@ == stem@ + "_backup_"@ + stamp@ + ".xlsx"@,
{
    let mut r: String = stem.to_string();
    r.append("_backup_");
    r.append(stamp);
    r.append(".xlsx");
    r
}

/// What filling a workbook came to.
pub fn outcome(plan: &Plan, backup: Option<String>) -> (r: Outcome)
    ensures
        r.target@ == plan@.target,
        r.backup == backup,
        r.sheets == plan@.names.len(),
        r.converted == converted_in(plan@.sources, plan@.sources.len()) % (usize::MAX as nat + 1),
        r.message@
            == "填充完成。打开 Excel / WPS 后由表格软件重算公式；原模板已有公式错误不在本次修复范围。"@,
{
    Outcome {
        target: plan.target.clone(),
        backup,
        sheets: plan.sheets.len(),
        converted: converted_total(&plan.sources),
        message: "填充完成。打开 Excel / WPS 后由表格软件重算公式；原模板已有公式错误不在本次修复范围。".to_string(),
    }
}

/// How far the filling of a workbook is after some events, and what is to be done next.
pub open spec fn run(plan: PlanView, backup: bool, events: Seq<EventView>) -> Result<
    (SaverView, StepView),
    SaveErrorView,
>
    decreases events.len(),
{
    if events.len() == 0 {
        Ok((start(), StepView::HashTarget))
    } else {
        match run(plan, backup, events.drop_last()) {
            Err(e) => Err(e),
            Ok((s, _)) => next(plan, backup, s, events.last()),
        }
    }
}

/// Whether the events start with the fingerprints of the workbook and of the first `k` sources, as
/// they are in the plan.
pub open spec fn unchanged(plan: PlanView, events: Seq<EventView>, k: int) -> bool {
    &&& events.len() > k
    &&& events[0] == EventView::Hash(plan.target_hash)
    &&& forall|i: int|
        0 <= i < k ==> #[trigger] events[i + 1] == EventView::Hash(plan.sources[i].hash)
}

/// Whether the events have led to the new workbook being written and read back: nothing has changed
/// since the inspection, the workbook is not locked, and what was read back is the workbook with the
/// rows of the plan in it and everything else kept.
pub open spec fn written_and_checked(plan: PlanView, events: Seq<EventView>) -> bool {
    let n = plan.sources.len() as int;
    &&& unchanged(plan, events, n)
    &&& events.len() > n + 3
    &&& events[n + 1] == EventView::Lock(false)
    &&& events[n + 2] matches EventView::Bytes(old_bytes) && events[n + 3] matches EventView::Bytes(
        new_bytes,
    ) && prepared(old_bytes, plan.names, plan.tables) matches Ok((_, changed)) && rewrite_fault(
        old_bytes,
        new_bytes,
        changed,
    ) is None
}

/// What the events have led to, by what is waited for.
spec fn trail(plan: PlanView, backup: bool, events: Seq<EventView>, s: SaverView, step: StepView) -> bool {
    let n = plan.sources.len() as int;
    match s.waiting {
        Waiting::Target => events.len() == 0 && step == StepView::HashTarget,
        Waiting::Source => 0 <= s.at < n && events.len() == s.at + 1 && unchanged(
            plan,
            events,
            s.at,
        ) && step == StepView::HashSource(s.at),
        Waiting::Lock => events.len() == n + 1 && unchanged(plan, events, n) && step
            == StepView::CheckLock,
        Waiting::Workbook => events.len() == n + 2 && unchanged(plan, events, n) && events[n + 1]
            == EventView::Lock(false) && step == StepView::ReadTarget,
        Waiting::Written => {
            &&& events.len() == n + 3
            &&& unchanged(plan, events, n)
            &&& events[n + 1] == EventView::Lock(false)
            &&& events[n + 2] == EventView::Bytes(s.bytes)
            &&& prepared(s.bytes, plan.names, plan.tables) matches Ok((new, changed)) && changed
                == s.changed && step == StepView::WriteBeside(new)
        },
        Waiting::Again => events.len() == n + 4 && written_and_checked(plan, events) && step
            == StepView::HashTarget,
        Waiting::Backup => events.len() == n + 5 && written_and_checked(plan, events) && events[n
            + 4] == EventView::Hash(plan.target_hash) && backup && step == StepView::Backup,
        Waiting::Replacing => {
            &&& events.len() == n + (if backup {
                6int
            } else {
                5int
            })
            &&& written_and_checked(plan, events)
            &&& events[n + 4] == EventView::Hash(plan.target_hash)
            &&& backup ==> events[n + 5] == EventView::Hash(plan.target_hash)
            &&& step == StepView::Replace
        },
        Waiting::Over => step == StepView::Done,
    }
}

/// Events that follow do not change what went before.
proof fn unchanged_stays(plan: PlanView, events: Seq<EventView>, e: EventView, k: int)
    requires
        unchanged(plan, events, k),
        0 <= k,
    ensures
        unchanged(plan, events.push(e), k),
{
    let more = events.push(e);
    assert forall|i: int| 0 <= i < k implies #[trigger] more[i + 1] == EventView::Hash(
        plan.sources[i].hash,
    ) by {
        assert(events[i + 1] == EventView::Hash(plan.sources[i].hash));
    }
}

/// Where the events have led, follows them.
proof fn trail_is_followed(plan: PlanView, backup: bool, events: Seq<EventView>)
    requires
        run(plan, backup, events) is Ok,
    ensures
        ({
            let (s, step) = run(plan, backup, events)->Ok_0;
            trail(plan, backup, events, s, step)
        }),
    decreases events.len(),
{
    if events.len() > 0 {
        let before = events.drop_last();
        let e = events.last();
        trail_is_followed(plan, backup, before);
        let (s, _) = run(plan, backup, before)->Ok_0;
        assert(events =~= before.push(e));
        let n = plan.sources.len() as int;
        match s.waiting {
            Waiting::Target => {
                assert(unchanged(plan, events, 0));
            },
            Waiting::Source => {
                unchanged_stays(plan, before, e, s.at);
                assert(unchanged(plan, events, s.at + 1));
            },
            Waiting::Lock | Waiting::Workbook | Waiting::Written | Waiting::Again
            | Waiting::Backup => {
                unchanged_stays(plan, before, e, n);
            },
            _ => {},
        }
    }
}

/// A workbook is replaced only after everything was checked: the workbook and every source are as
/// they were inspected, the workbook is not open elsewhere, the new one was read back with its new
/// rows and everything else kept, the old one is still as it was inspected and, where a backup is
/// asked for, the backup is the same as that.
pub proof fn replacing_comes_last(plan: PlanView, backup: bool, events: Seq<EventView>)
    requires
        run(plan, backup, events) matches Ok((_, step)) && step == StepView::Replace,
    ensures
        written_and_checked(plan, events),
        events[plan.sources.len() as int + 4] == EventView::Hash(plan.target_hash),
        backup ==> events[plan.sources.len() as int + 5] == EventView::Hash(plan.target_hash),
{
    trail_is_followed(plan, backup, events);
}

/// A source that changed since the inspection stops the filling before anything is written.
pub proof fn changed_sources_stop_the_filling(
    plan: PlanView,
    backup: bool,
    events: Seq<EventView>,
    i: int,
)
    requires
        0 <= i < plan.sources.len(),
        events.len() > i + 1,
        events[i + 1] != EventView::Hash(plan.sources[i].hash),
    ensures
        !(run(plan, backup, events) matches Ok((_, StepView::WriteBeside(_)))),
        !(run(plan, backup, events) matches Ok((_, StepView::Backup))),
        !(run(plan, backup, events) matches Ok((_, StepView::Replace))),
{
    if run(plan, backup, events) is Ok {
        trail_is_followed(plan, backup, events);
    }
}

/// A backup is made only where it is asked for.
pub proof fn backups_are_asked_for(plan: PlanView, backup: bool, events: Seq<EventView>)
    requires
        run(plan, backup, events) matches Ok((_, step)) && step == StepView::Backup,
    ensures
        backup,
        written_and_checked(plan, events),
{
    trail_is_followed(plan, backup, events);
}

/// The fingerprints of the workbook and of the first `k` sources, as they are in the plan.
pub open spec fn same_files(plan: PlanView, k: nat) -> Seq<EventView>
    decreases k,
{
    if k == 0 {
        seq![EventView::Hash(plan.target_hash)]
    } else {
        same_files(plan, (k - 1) as nat).push(EventView::Hash(plan.sources[k - 1].hash))
    }
}

/// Where the files are as they were, the sources are gone through one after the other.
proof fn same_files_lead_on(plan: PlanView, backup: bool, k: nat)
    requires
        k <= plan.sources.len(),
    ensures
        run(plan, backup, same_files(plan, k)) == Ok::<(SaverView, StepView), SaveErrorView>(
            to_source(plan, start(), k as int),
        ),
    decreases k,
{
    let events = same_files(plan, k);
    if k > 0 {
        same_files_lead_on(plan, backup, (k - 1) as nat);
        assert(events.drop_last() =~= same_files(plan, (k - 1) as nat));
    } else {
        assert(events.drop_last() =~= Seq::<EventView>::empty());
        assert(run(plan, backup, Seq::<EventView>::empty()) == Ok::<
            (SaverView, StepView),
            SaveErrorView,
        >((start(), StepView::HashTarget)));
    }
}

/// What is seen of a filling in which nothing goes wrong: the files are as they were, the workbook is
/// not locked, it can be rewritten, what was written is read back as it was, and the backup, where
/// one is made, is the same as the workbook.
pub open spec fn smooth(plan: PlanView, backup: bool, bytes: Seq<u8>, new: Seq<u8>) -> Seq<
    EventView,
> {
    let checked = same_files(plan, plan.sources.len()).push(EventView::Lock(false)).push(
        EventView::Bytes(bytes),
    ).push(EventView::Bytes(new)).push(EventView::Hash(plan.target_hash));
    (if backup {
        checked.push(EventView::Hash(plan.target_hash))
    } else {
        checked
    }).push(EventView::Replaced)
}

/// One more event leads on from where the events before it have led.
proof fn run_goes_on(plan: PlanView, backup: bool, events: Seq<EventView>, e: EventView)
    requires
        run(plan, backup, events) is Ok,
    ensures
        run(plan, backup, events.push(e)) == next(
            plan,
            backup,
            run(plan, backup, events)->Ok_0.0,
            e,
        ),
{
    assert(events.push(e).drop_last() =~= events);
}

/// Where the files are as they were and the workbook is not locked, the new workbook is written and
/// read back.
proof fn smooth_fillings_are_written(plan: PlanView, backup: bool, bytes: Seq<u8>)
    requires
        rewritten(bytes, plan.names, plan.tables) is Ok,
    ensures
        run(
            plan,
            backup,
            same_files(plan, plan.sources.len()).push(EventView::Lock(false)).push(
                EventView::Bytes(bytes),
            ).push(EventView::Bytes(rewritten(bytes, plan.names, plan.tables)->Ok_0)),
        ) matches Ok((s, _)) && s.waiting == Waiting::Again,
{
    let new = rewritten(bytes, plan.names, plan.tables)->Ok_0;
    let a = same_files(plan, plan.sources.len());
    let b = a.push(EventView::Lock(false));
    let c = b.push(EventView::Bytes(bytes));
    same_files_lead_on(plan, backup, plan.sources.len());
    run_goes_on(plan, backup, a, EventView::Lock(false));
    run_goes_on(plan, backup, b, EventView::Bytes(bytes));
    run_goes_on(plan, backup, c, EventView::Bytes(new));
}

/// Where nothing goes wrong the workbook is filled.
pub proof fn smooth_fillings_succeed(plan: PlanView, backup: bool, bytes: Seq<u8>)
    requires
        rewritten(bytes, plan.names, plan.tables) is Ok,
    ensures
        run(
            plan,
            backup,
            smooth(plan, backup, bytes, rewritten(bytes, plan.names, plan.tables)->Ok_0),
        ) matches Ok((_, step)) && step == StepView::Done,
{
    let new = rewritten(bytes, plan.names, plan.tables)->Ok_0;
    let hash = EventView::Hash(plan.target_hash);
    let d = same_files(plan, plan.sources.len()).push(EventView::Lock(false)).push(
        EventView::Bytes(bytes),
    ).push(EventView::Bytes(new));
    smooth_fillings_are_written(plan, backup, bytes);
    run_goes_on(plan, backup, d, hash);
    if backup {
        run_goes_on(plan, backup, d.push(hash), hash);
        run_goes_on(plan, backup, d.push(hash).push(hash), EventView::Replaced);
    } else {
        run_goes_on(plan, backup, d.push(hash), EventView::Replaced);
    }
}

/// Where a filling is refused, and why: at the fingerprint of the workbook, of a source or of the
/// backup that is not the one of the plan, at the lock, and at what cannot be rewritten or is not read
/// back as it should be.
pub proof fn fillings_are_refused(
    plan: PlanView,
    backup: bool,
    s: SaverView,
    hash: Seq<char>,
    bytes: Seq<u8>,
)
    ensures
        s.waiting == Waiting::Target && hash != plan.target_hash ==> next(
            plan,
            backup,
            s,
            EventView::Hash(hash),
        ) == Err::<(SaverView, StepView), SaveErrorView>(SaveErrorView::TargetChanged),
        s.waiting == Waiting::Source && hash != plan.sources[s.at].hash ==> next(
            plan,
            backup,
            s,
            EventView::Hash(hash),
        ) == Err::<(SaverView, StepView), SaveErrorView>(
            SaveErrorView::SourceChanged(plan.sources[s.at].path),
        ),
        s.waiting == Waiting::Lock ==> next(plan, backup, s, EventView::Lock(true)) == Err::<
            (SaverView, StepView),
            SaveErrorView,
        >(SaveErrorView::Locked),
        s.waiting == Waiting::Workbook && prepared(bytes, plan.names, plan.tables) is Err ==> next(
            plan,
            backup,
            s,
            EventView::Bytes(bytes),
        ) == Err::<(SaverView, StepView), SaveErrorView>(
            SaveErrorView::Rewrite(prepared(bytes, plan.names, plan.tables)->Err_0),
        ),
        s.waiting == Waiting::Written && read_back_fault(s.bytes, bytes, s.changed) is Some ==> next(
            plan,
            backup,
            s,
            EventView::Bytes(bytes),
        ) == Err::<(SaverView, StepView), SaveErrorView>(
            SaveErrorView::Rewrite(read_back_fault(s.bytes, bytes, s.changed)->Some_0),
        ),
        s.waiting == Waiting::Again && hash != plan.target_hash ==> next(
            plan,
            backup,
            s,
            EventView::Hash(hash),
        ) == Err::<(SaverView, StepView), SaveErrorView>(SaveErrorView::ChangedMeanwhile),
        s.waiting == Waiting::Backup && hash != plan.target_hash ==> next(
            plan,
            backup,
            s,
            EventView::Hash(hash),
        ) == Err::<(SaverView, StepView), SaveErrorView>(SaveErrorView::BadBackup),
        s.waiting == Waiting::Over ==> next(plan, backup, s, EventView::Replaced) == Err::<
            (SaverView, StepView),
            SaveErrorView,
        >(SaveErrorView::OutOfTurn),
{
}

/// A backup that is asked for is made before the workbook is replaced.
pub proof fn backups_come_before_replacing(plan: PlanView, s: SaverView)
    requires
        s.waiting == Waiting::Again,
    ensures
        next(plan, true, s, EventView::Hash(plan.target_hash)) matches Ok((t, step)) && step
            == StepView::Backup && t.waiting == Waiting::Backup,
        next(plan, false, s, EventView::Hash(plan.target_hash)) matches Ok((t, step)) && step
            == StepView::Replace && t.waiting == Waiting::Replacing,
{
}

/// What filling a workbook came to, and how the files around it are named.
pub proof fn outcomes_tell_of_the_plan(
    plan: &Plan,
    backup: Option<String>,
    name: &str,
    stem: &str,
    stamp: &str,
)
    ensures
        forall|r: Outcome| #[trigger]
            call_ensures(outcome, (plan, backup), r) ==> r.target@ == plan@.target && r.backup
                == backup && r.sheets == plan@.names.len(),
        forall|r: String| #[trigger]
            call_ensures(lock_name, (name,), r) ==> r@ == seq!['~', '$'] + name@,
        forall|r: String| #[trigger]
            call_ensures(backup_name, (stem, stamp), r) ==> r@ == stem@ + "_backup_"@ + stamp@
                + ".xlsx"@,
{
    reveal_strlit("~$");
    assert("~$"@ =~= seq!['~', '$']);
}

/// What is said of a filling that fails: the words are fixed, and what they are
/// about stands in them as it is.
pub proof fn faults_of_fillings_are_worded(error: SaveErrorView)
    ensures
        match error {
            SaveErrorView::TargetChanged => error.words() == "补货表在识别后已变化，请重新识别再填充"@,
            SaveErrorView::SourceChanged(p) => stands_between(
                error.words(),
                "源文件在识别后已变化，请重新识别："@,
                p,
                Seq::<char>::empty(),
            ),
            SaveErrorView::Locked => error.words() == "补货表可能正在 Excel / WPS 中打开，请关闭后重试"@,
            SaveErrorView::Rewrite(e) => error.words() == e.words(),
            SaveErrorView::ChangedMeanwhile => error.words() == "保存前发现原表发生变化，未覆盖"@,
            SaveErrorView::BadBackup => error.words() == "备份校验失败，未覆盖原表"@,
            SaveErrorView::OutOfTurn => error.words() == "填充步骤次序错误"@,
        },
{
}

} // verus!
