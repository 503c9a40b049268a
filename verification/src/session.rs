//! A session of the program with its window: what may be begun when, and what is shown.

use crate::plan::{Plan, PlanView};
use crate::text::{part, same, text, texts_of, trim, trimmed};
use crate::updates::{UpdateInfo, UpdateView};
use crate::window::Control;
use vstd::prelude::*;

verus! {

/// What a session holds: the plan that was inspected, whether something is under way, whether the
/// plan was carried out, whether there is a token, and the newest release.
pub struct Session {
    pub plan: Option<Plan>,
    pub busy: bool,
    pub done: bool,
    pub token: bool,
    pub available: Option<UpdateInfo>,
}

/// What a session holds, in contracts.
pub struct SessionView {
    pub plan: Option<PlanView>,
    pub busy: bool,
    pub done: bool,
    pub token: bool,
    pub available: Option<UpdateView>,
}

impl View for Session {
    type V = SessionView;

    open spec fn view(&self) -> SessionView {
        SessionView {
            plan: match self.plan {
                Some(p) => Some(p@),
                None => None,
            },
            busy: self.busy,
            done: self.done,
            token: self.token,
            available: match self.available {
                Some(u) => Some(u@),
                None => None,
            },
        }
    }
}

/// Whether the plan may be carried out: nothing is under way, it was not carried out yet, and its
/// warnings, if it has any, were acknowledged.
pub open spec fn may_fill(s: SessionView, acknowledged: bool) -> bool {
    &&& !s.busy
    &&& !s.done
    &&& s.plan matches Some(p) && (p.warnings.len() == 0 || acknowledged)
}

/// The session once an inspection was begun.
pub open spec fn inspecting(s: SessionView) -> SessionView {
    SessionView { plan: None, busy: true, done: false, ..s }
}

/// The session once something was begun that leaves the rest as it is.
pub open spec fn working(s: SessionView) -> SessionView {
    SessionView { busy: true, ..s }
}

/// `s` without the quotation marks that it starts with.
pub open spec fn unquoted_start(s: Seq<char>) -> Seq<char>
    decreases s.len(),
{
    if s.len() > 0 && s[0] == '"' {
        unquoted_start(s.drop_first())
    } else {
        s
    }
}

/// `s` without the quotation marks that it ends with.
pub open spec fn unquoted_end(s: Seq<char>) -> Seq<char>
    decreases s.len(),
{
    if s.len() > 0 && s.last() == '"' {
        unquoted_end(s.drop_last())
    } else {
        s
    }
}

/// A path as it was typed in: without white space around it and then without quotation marks.
pub open spec fn typed_path(typed: Seq<char>) -> Seq<char> {
    unquoted_end(unquoted_start(trimmed(typed)))
}

/// A path as it was typed in.
pub fn clean_path(typed: &str) -> (r: String)
    ensures
        r@ == typed_path(typed@),
{
    let x: Vec<char> = trim(typed);
    let mut from: usize = 0;
    assert(x@.subrange(0, x@.len() as int) =~= x@);
    while from < x.len() && x[from] == '"'
        invariant
            x@ == trimmed(typed@),
            from <= x.len(),
            unquoted_start(x@) == unquoted_start(x@.subrange(from as int, x@.len() as int)),
        decreases x.len() - from,
    {
        assert(x@.subrange(from as int, x@.len() as int).drop_first() =~= x@.subrange(
            from + 1,
            x@.len() as int,
        ));
        from = from + 1;
    }
    let ghost rest = x@.subrange(from as int, x@.len() as int);
    assert(unquoted_start(x@) == rest);
    let mut to: usize = x.len();
    while to > from && x[to - 1] == '"'
        invariant
            from <= to <= x.len(),
            unquoted_end(rest) == unquoted_end(x@.subrange(from as int, to as int)),
        decreases to,
    {
        assert(x@.subrange(from as int, to as int).drop_last() =~= x@.subrange(
            from as int,
            to - 1,
        ));
        to = to - 1;
    }
    let inner: Vec<char> = part(x.as_slice(), from, to);
    text(&inner)
}

/// What comes of asking to carry the plan out.
pub enum Fill {
    /// Nothing.
    Nothing,
    /// Another workbook was named, which is inspected first.
    Inspect(String),
    /// The plan is carried out.
    Fill,
}

/// What comes of asking to carry the plan out, in contracts.
pub enum FillView {
    Nothing,
    Inspect(Seq<char>),
    Fill,
}

impl View for Fill {
    type V = FillView;

    open spec fn view(&self) -> FillView {
        match self {
            Fill::Nothing => FillView::Nothing,
            Fill::Inspect(p) => FillView::Inspect(p@),
            Fill::Fill => FillView::Fill,
        }
    }
}

/// What comes of asking to carry the plan out, with the given path typed in.
pub open spec fn after_fill(s: SessionView, typed: Seq<char>, acknowledged: bool) -> (
    SessionView,
    FillView,
) {
    match s.plan {
        None => (s, FillView::Nothing),
        Some(p) => if s.busy || s.done {
            (s, FillView::Nothing)
        } else if typed_path(typed) != p.target {
            (inspecting(s), FillView::Inspect(typed_path(typed)))
        } else if !may_fill(s, acknowledged) {
            (s, FillView::Nothing)
        } else {
            (working(s), FillView::Fill)
        },
    }
}

/// What comes of asking for an update.
#[derive(Clone, Copy, Debug, PartialEq, Eq, Structural)]
pub enum Check {
    /// Nothing.
    Nothing,
    /// There is no token.
    NeedToken,
    /// The newest release is asked for.
    Check,
}

/// What comes of asking for an update, in contracts.
pub open spec fn after_check(s: SessionView) -> (SessionView, Check) {
    if s.busy {
        (s, Check::Nothing)
    } else if !s.token {
        (s, Check::NeedToken)
    } else {
        (SessionView { busy: true, available: None, ..s }, Check::Check)
    }
}

/// Whether the update may be downloaded: nothing is under way, there is a token, and there is a newer
/// release.
pub open spec fn may_download(s: SessionView) -> bool {
    !s.busy && s.token && (s.available matches Some(u) && u.newer)
}

/// What a message to the window leads to.
#[derive(Clone, Copy, Debug, PartialEq, Eq, Structural)]
pub enum Deed {
    /// What the system does by itself.
    Default,
    /// The controls are made.
    Create,
    /// The controls are put in their places.
    Layout,
    /// The result of what is under way is looked for.
    Poll,
    /// Files that were dropped are taken.
    Drop,
    /// The window is closed.
    Close,
    /// The window is not closed, for something is under way.
    Stay,
    /// The program ends.
    Quit,
    /// The state of the window is given up.
    Discard,
    /// The window is told how small it may be.
    Limits,
    /// The workbook in the arguments is inspected.
    Open,
    /// The token is asked for, and then, where that holds, the newest release.
    Authorize(bool),
    /// The window is kept on top, or is not any more.
    Pin,
    /// The newest release is asked for.
    CheckUpdate,
    /// The token is forgotten.
    Forget,
    /// The update is downloaded.
    Download,
    /// A workbook is picked.
    Pick,
    /// The workbook that is typed in is inspected.
    Scan,
    /// The plan is carried out.
    Fill,
    /// The acknowledgement changed.
    Ready,
    /// Nothing.
    Nothing,
}

/// What pressing the control with the given number leads to.
pub open spec fn press(s: SessionView, id: int) -> Deed {
    if !s.busy && (id == Control::Authorize.id() || (id == Control::Update.id() && !s.token)) {
        Deed::Authorize(id == Control::Update.id())
    } else if id == Control::Pin.id() {
        Deed::Pin
    } else if id == Control::Update.id() {
        Deed::CheckUpdate
    } else if id == Control::Forget.id() {
        Deed::Forget
    } else if id == Control::Release.id() {
        Deed::Download
    } else if id == Control::Pick.id() {
        Deed::Pick
    } else if id == Control::Scan.id() {
        Deed::Scan
    } else if id == Control::Fill.id() {
        Deed::Fill
    } else if id == Control::Acknowledge.id() {
        Deed::Ready
    } else {
        Deed::Nothing
    }
}

/// What a message to the window leads to, by its number and its first parameter. A command is one
/// where a button was pressed, and its parameter is the number of the button then.
pub open spec fn deed_of(s: SessionView, message: u32, parameter: usize) -> Deed {
    if message == 0x1 {
        Deed::Create
    } else if message == 0x111 {
        if parameter < 0x10000 {
            press(s, parameter as int)
        } else {
            Deed::Default
        }
    } else if message == 0x5 {
        Deed::Layout
    } else if message == 0x113 {
        Deed::Poll
    } else if message == 0x233 {
        Deed::Drop
    } else if message == 0x10 {
        if s.busy {
            Deed::Stay
        } else {
            Deed::Close
        }
    } else if message == 0x2 {
        Deed::Quit
    } else if message == 0x82 {
        Deed::Discard
    } else if message == 0x24 {
        Deed::Limits
    } else if message == 0x8001 {
        Deed::Open
    } else {
        Deed::Default
    }
}

/// The session once a deed was done: `typed` is the path that is typed in, and `given` says whether a
/// workbook was picked, dropped or named in the arguments, or a token was given.
pub open spec fn after_deed(
    s: SessionView,
    deed: Deed,
    typed: Seq<char>,
    acknowledged: bool,
    given: bool,
) -> SessionView {
    match deed {
        Deed::Scan => started(s),
        Deed::Pick | Deed::Drop | Deed::Open => if given {
            started(s)
        } else {
            s
        },
        Deed::Fill => after_fill(s, typed, acknowledged).0,
        Deed::CheckUpdate => after_check(s).0,
        Deed::Download => if may_download(s) {
            working(s)
        } else {
            s
        },
        Deed::Authorize(check) => if given {
            let with = SessionView { token: true, ..s };
            if check {
                after_check(with).0
            } else {
                with
            }
        } else {
            s
        },
        Deed::Forget => forgotten(s),
        _ => s,
    }
}

/// The session once an inspection was asked for: it is begun unless something is under way.
pub open spec fn started(s: SessionView) -> SessionView {
    if s.busy {
        s
    } else {
        inspecting(s)
    }
}

/// The session without a token.
pub open spec fn forgotten(s: SessionView) -> SessionView {
    SessionView { token: false, available: None, ..s }
}

impl Session {
    /// What a message to the window leads to.
    pub fn deed(&self, message: u32, parameter: usize) -> (r: Deed)
        ensures
            r == deed_of(self@, message, parameter),
    {
        match message {
            0x1 => Deed::Create,
            0x111 => if parameter < 0x10000 {
                self.pressed(parameter)
            } else {
                Deed::Default
            },
            0x5 => Deed::Layout,
            0x113 => Deed::Poll,
            0x233 => Deed::Drop,
            0x10 => if self.may_close() {
                Deed::Close
            } else {
                Deed::Stay
            },
            0x2 => Deed::Quit,
            0x82 => Deed::Discard,
            0x24 => Deed::Limits,
            0x8001 => Deed::Open,
            _ => Deed::Default,
        }
    }

    /// What pressing the control with the given number leads to.
    fn pressed(&self, id: usize) -> (r: Deed)
        ensures
            r == press(self@, id as int),
    {
        let update: bool = id == 112;
        if self.asks_for_token(id == 113, update) {
            return Deed::Authorize(update);
        }
        match id {
            111 => Deed::Pin,
            112 => Deed::CheckUpdate,
            114 => Deed::Forget,
            115 => Deed::Download,
            102 => Deed::Pick,
            103 => Deed::Scan,
            108 => Deed::Fill,
            107 => Deed::Ready,
            _ => Deed::Nothing,
        }
    }
}

impl Session {
    /// A session without a plan.
    pub fn new(token: bool) -> (r: Self)
        ensures
            r@ == (SessionView {
                plan: None,
                busy: false,
                done: false,
                token,
                available: None,
            }),
    {
        Session { plan: None, busy: false, done: false, token, available: None }
    }

    /// Whether the plan may be carried out.
    pub fn ready(&self, acknowledged: bool) -> (r: bool)
        ensures
            r == may_fill(self@, acknowledged),
    {
        match &self.plan {
            Some(p) => {
                assert(texts_of(p.warnings@).len() == p.warnings@.len());
                !self.busy && !self.done && (p.warnings.len() == 0 || acknowledged)
            },
            None => false,
        }
    }

    /// Whether the button for the update can be pressed.
    pub fn release_enabled(&self) -> (r: bool)
        ensures
            r == (!self@.busy && (self@.available matches Some(u) && u.newer)),
    {
        match &self.available {
            Some(u) => !self.busy && u.newer,
            None => false,
        }
    }

    /// Begins an inspection, unless something is under way.
    pub fn start(&mut self) -> (r: bool)
        ensures
            r == !old(self)@.busy,
            final(self)@ == started(old(self)@),
    {
        if self.busy {
            return false;
        }
        self.plan = None;
        self.done = false;
        self.busy = true;
        true
    }

    /// Begins to carry the plan out, or another inspection, where that may be.
    pub fn fill(&mut self, typed: &str, acknowledged: bool) -> (r: Fill)
        ensures
            (final(self)@, r@) == after_fill(old(self)@, typed@, acknowledged),
    {
        let target: String = match &self.plan {
            Some(p) => p.target.clone(),
            None => {
                return Fill::Nothing;
            },
        };
        if self.busy || self.done {
            return Fill::Nothing;
        }
        let path: String = clean_path(typed);
        if !same(path.as_str(), target.as_str()) {
            self.start();
            return Fill::Inspect(path);
        }
        if !self.ready(acknowledged) {
            return Fill::Nothing;
        }
        self.busy = true;
        Fill::Fill
    }

    /// Begins to ask for an update, where that may be.
    pub fn check_update(&mut self) -> (r: Check)
        ensures
            (final(self)@, r) == after_check(old(self)@),
    {
        if self.busy {
            Check::Nothing
        } else if !self.token {
            Check::NeedToken
        } else {
            self.busy = true;
            self.available = None;
            Check::Check
        }
    }

    /// Begins to download the update, where that may be.
    pub fn download_update(&mut self) -> (r: bool)
        ensures
            r == may_download(old(self)@),
            final(self)@ == (if r {
                working(old(self)@)
            } else {
                old(self)@
            }),
    {
        let newer: bool = match &self.available {
            Some(u) => u.newer,
            None => false,
        };
        if self.busy || !self.token || !newer {
            return false;
        }
        self.busy = true;
        true
    }

    /// Whether the token must be asked for before the given button does anything.
    pub fn asks_for_token(&self, authorize: bool, update: bool) -> (r: bool)
        ensures
            r == ((authorize || (update && !self@.token)) && !self@.busy),
    {
        (authorize || (update && !self.token)) && !self.busy
    }

    /// Whether a drop of so many files is taken.
    pub fn takes_drop(&self, count: u32) -> (r: bool)
        ensures
            r == (count == 1 && !self@.busy),
    {
        count == 1 && !self.busy
    }

    /// Whether the window may be closed.
    pub fn may_close(&self) -> (r: bool)
        ensures
            r == !self@.busy,
    {
        !self.busy
    }

    /// Ends what is under way without a result.
    pub fn end(&mut self)
        ensures
            final(self)@ == (SessionView { busy: false, ..old(self)@ }),
    {
        self.busy = false;
    }

    /// Ends an inspection with a plan.
    pub fn end_inspection(&mut self, plan: Plan)
        ensures
            final(self)@ == (SessionView { busy: false, plan: Some(plan@), ..old(self)@ }),
    {
        self.busy = false;
        self.plan = Some(plan);
    }

    /// Ends the carrying out of the plan.
    pub fn end_filling(&mut self)
        ensures
            final(self)@ == (SessionView { busy: false, done: true, ..old(self)@ }),
    {
        self.busy = false;
        self.done = true;
    }

    /// Ends asking for an update with what there is to know of the newest release.
    pub fn end_check(&mut self, info: UpdateInfo)
        ensures
            final(self)@ == (SessionView { busy: false, available: Some(info@), ..old(self)@ }),
    {
        self.busy = false;
        self.available = Some(info);
    }

    /// There is a token.
    pub fn take_token(&mut self)
        ensures
            final(self)@ == (SessionView { token: true, ..old(self)@ }),
    {
        self.token = true;
    }

    /// There is no token any more, and no release.
    pub fn forget(&mut self)
        ensures
            final(self)@ == forgotten(old(self)@),
    {
        self.token = false;
        self.available = None;
    }
}

/// While something is under way nothing else is begun, and the session stays as it is.
pub proof fn one_thing_at_a_time(s: SessionView, typed: Seq<char>, acknowledged: bool)
    requires
        s.busy,
    ensures
        after_fill(s, typed, acknowledged) == (s, FillView::Nothing),
        after_check(s) == (s, Check::Nothing),
        !may_download(s),
        !may_fill(s, acknowledged),
{
}

/// While something is under way no message to the window begins anything else: the token is not asked
/// for, the window is not closed, and the session stays as it is, but that a token may be forgotten.
pub proof fn no_message_interferes(
    s: SessionView,
    message: u32,
    parameter: usize,
    typed: Seq<char>,
    acknowledged: bool,
    given: bool,
)
    requires
        s.busy,
    ensures
        ({
            let deed = deed_of(s, message, parameter);
            let next = after_deed(s, deed, typed, acknowledged, given);
            &&& !(deed is Authorize)
            &&& !(deed is Close)
            &&& deed is Forget ==> next == forgotten(s)
            &&& !(deed is Forget) ==> next == s
            &&& next.busy && next.plan == s.plan && next.done == s.done
        }),
{
}

/// A plan is carried out once at most, only where its workbook is the one that is named, and only
/// once its warnings were acknowledged.
pub proof fn only_acknowledged_plans_are_filled(
    s: SessionView,
    typed: Seq<char>,
    acknowledged: bool,
)
    requires
        after_fill(s, typed, acknowledged).1 is Fill,
    ensures
        !s.busy,
        !s.done,
        s.plan matches Some(p) && p.target == typed_path(typed) && (p.warnings.len() == 0
            || acknowledged),
{
}

/// What asking to carry the plan out comes to. Without a plan, while something is under way, and once the
/// plan was carried out it comes to nothing; where another workbook is named, that is inspected and the
/// plan is dropped; where the warnings were not acknowledged it comes to nothing; and else the plan is
/// carried out.
pub proof fn fillings_are_asked_for(s: SessionView, typed: Seq<char>, acknowledged: bool)
    ensures
        ({
            let (next, fill) = after_fill(s, typed, acknowledged);
            let path = typed_path(typed);
            let idle = s.plan is Some && !s.busy && !s.done;
            let plan = s.plan->Some_0;
            &&& !idle ==> fill == FillView::Nothing && next == s
            &&& idle && path != plan.target ==> fill == FillView::Inspect(path) && next.busy
                && next.plan is None && !next.done && next.token == s.token && next.available
                == s.available
            &&& idle && path == plan.target && plan.warnings.len() > 0 && !acknowledged ==> fill
                == FillView::Nothing && next == s
            &&& idle && path == plan.target && (plan.warnings.len() == 0 || acknowledged) ==> fill
                == FillView::Fill && next.busy && next.plan == s.plan && !next.done && next.token
                == s.token && next.available == s.available
            &&& may_fill(s, acknowledged) <==> idle && (plan.warnings.len() == 0 || acknowledged)
        }),
{
}

/// What asking for an update comes to, and when one may be downloaded: not while something is under way,
/// and not without a token.
pub proof fn updates_are_asked_for(s: SessionView)
    ensures
        ({
            let (next, check) = after_check(s);
            &&& s.busy ==> check == Check::Nothing && next == s
            &&& !s.busy && !s.token ==> check == Check::NeedToken && next == s
            &&& !s.busy && s.token ==> check == Check::Check && next.busy && next.available is None
                && next.plan == s.plan && next.done == s.done && next.token
            &&& may_download(s) <==> !s.busy && s.token && s.available is Some
                && s.available->Some_0.newer
        }),
{
}

/// A path that is typed in is taken without the white space around it, and then without the quotation
/// marks around that, and as it is otherwise.
pub proof fn paths_are_taken_out_of_quotes(typed: Seq<char>)
    ensures
        exists|from: int, to: int|
            #![trigger trimmed(typed).subrange(from, to)]
            {
                let t = trimmed(typed);
                &&& 0 <= from <= to <= t.len()
                &&& typed_path(typed) == t.subrange(from, to)
                &&& forall|i: int| 0 <= i < from ==> #[trigger] t[i] == '"'
                &&& forall|i: int| to <= i < t.len() ==> #[trigger] t[i] == '"'
                &&& from < to ==> t[from] != '"' && t[to - 1] != '"'
            },
{
    let t = trimmed(typed);
    let from = quotes_at_start(t);
    let rest = t.subrange(from, t.len() as int);
    let n = quotes_at_end(rest);
    let to = from + n;
    assert(typed_path(typed) =~= t.subrange(from, to));
    assert forall|i: int| to <= i < t.len() implies #[trigger] t[i] == '"' by {
        assert(rest[i - from] == t[i]);
    }
    if from < to {
        assert(rest[0] == t[from]);
        assert(rest[n - 1] == t[to - 1]);
    }
    assert(t.subrange(from, to) == typed_path(typed));
}

proof fn quotes_at_start(s: Seq<char>) -> (from: int)
    ensures
        0 <= from <= s.len(),
        unquoted_start(s) == s.subrange(from, s.len() as int),
        forall|i: int| 0 <= i < from ==> #[trigger] s[i] == '"',
        from < s.len() ==> s[from] != '"',
    decreases s.len(),
{
    if s.len() > 0 && s[0] == '"' {
        let rest = s.drop_first();
        let m = quotes_at_start(rest);
        assert(rest.subrange(m, rest.len() as int) =~= s.subrange(m + 1, s.len() as int));
        assert forall|i: int| 0 <= i < m + 1 implies #[trigger] s[i] == '"' by {
            if i > 0 {
                assert(rest[i - 1] == s[i]);
            }
        }
        assert(m < rest.len() ==> rest[m] == s[m + 1]);
        m + 1
    } else {
        assert(s.subrange(0, s.len() as int) =~= s);
        0
    }
}

proof fn quotes_at_end(s: Seq<char>) -> (to: int)
    ensures
        0 <= to <= s.len(),
        unquoted_end(s) == s.subrange(0, to),
        forall|i: int| to <= i < s.len() ==> #[trigger] s[i] == '"',
        to > 0 ==> s[to - 1] != '"',
    decreases s.len(),
{
    if s.len() > 0 && s.last() == '"' {
        let rest = s.drop_last();
        let m = quotes_at_end(rest);
        assert(rest.subrange(0, m) =~= s.subrange(0, m));
        assert forall|i: int| m <= i < s.len() implies #[trigger] s[i] == '"' by {
            if i < rest.len() {
                assert(rest[i] == s[i]);
            }
        }
        assert(m > 0 ==> rest[m - 1] == s[m - 1]);
        m
    } else {
        assert(s.subrange(0, s.len() as int) =~= s);
        s.len() as int
    }
}

/// Each button does what it is for. The token is asked for by its own button, and by that for updates
/// where there is none, while nothing is under way; that a button was pressed is told by a parameter
/// without a code above its number.
pub proof fn buttons_do_what_they_are_for(s: SessionView, parameter: usize)
    ensures
        ({
            let deed = deed_of(s, 273, parameter);
            &&& parameter >= 65536 ==> deed == Deed::Default
            &&& parameter == 102 ==> deed == Deed::Pick
            &&& parameter == 103 ==> deed == Deed::Scan
            &&& parameter == 107 ==> deed == Deed::Ready
            &&& parameter == 108 ==> deed == Deed::Fill
            &&& parameter == 111 ==> deed == Deed::Pin
            &&& parameter == 112 && (s.busy || s.token) ==> deed == Deed::CheckUpdate
            &&& parameter == 112 && !s.busy && !s.token ==> deed == Deed::Authorize(true)
            &&& parameter == 113 && !s.busy ==> deed == Deed::Authorize(false)
            &&& parameter == 113 && s.busy ==> deed == Deed::Nothing
            &&& parameter == 114 ==> deed == Deed::Forget
            &&& parameter == 115 ==> deed == Deed::Download
            &&& parameter < 102 || 103 < parameter < 107 || 108 < parameter < 111 || 115 < parameter
                < 65536 ==> deed == Deed::Nothing
        }),
{
}

/// Each message to the window leads to its deed, and those that the window does not know are left to the
/// system. It is not closed while something is under way.
pub proof fn messages_are_answered(s: SessionView, message: u32, parameter: usize)
    ensures
        ({
            let deed = deed_of(s, message, parameter);
            &&& message == 1 ==> deed == Deed::Create
            &&& message == 2 ==> deed == Deed::Quit
            &&& message == 5 ==> deed == Deed::Layout
            &&& message == 16 && s.busy ==> deed == Deed::Stay
            &&& message == 16 && !s.busy ==> deed == Deed::Close
            &&& message == 36 ==> deed == Deed::Limits
            &&& message == 130 ==> deed == Deed::Discard
            &&& message == 275 ==> deed == Deed::Poll
            &&& message == 563 ==> deed == Deed::Drop
            &&& message == 32769 ==> deed == Deed::Open
            &&& message != 1 && message != 2 && message != 5 && message != 16 && message != 36
                && message != 130 && message != 273 && message != 275 && message != 563 && message
                != 32769 ==> deed == Deed::Default
        }),
{
}

} // verus!
