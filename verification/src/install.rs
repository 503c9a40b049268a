//! Installing a new version: a helper waits for the old program, puts the new one in its place and
//! starts it, and puts the old one back where that fails.

use crate::text::{
    begins, chars, decimal, has_prefix, numeral, parse_unsigned, read_fault, read_unsigned, same,
    stands_between, texts_of, unsigned_fault, Fault,
};
use vstd::prelude::*;
use vstd::string::StringExecFns;

verus! {

/// Why a new version is not installed.
pub enum InstallError {
    /// The arguments are incomplete.
    Arguments,
    /// The number of the process is none.
    Process(Fault),
    /// The directory is not that of an update.
    Directory,
    /// The new program is not the right one.
    Program,
    /// The old program cannot be waited for.
    CannotWait,
    /// The old program has not ended.
    StillRunning,
    /// The old program was changed.
    Changed,
    /// The program could not be replaced, with the number of the error.
    Replace(u32),
    /// The new program could not be started, with the message of the error.
    Start(String),
    /// The old program could not be put back, with the message of the error.
    Restore(String),
    /// The old program could not be copied back, with the message of the error.
    Copy(String),
    /// Something was told that was not asked for.
    OutOfTurn,
}

/// Why a new version is not installed, in contracts.
pub enum InstallErrorView {
    Arguments,
    Process(Fault),
    Directory,
    Program,
    CannotWait,
    StillRunning,
    Changed,
    Replace(nat),
    Start(Seq<char>),
    Restore(Seq<char>),
    Copy(Seq<char>),
    OutOfTurn,
}

impl View for InstallError {
    type V = InstallErrorView;

    open spec fn view(&self) -> InstallErrorView {
        match self {
            InstallError::Arguments => InstallErrorView::Arguments,
            InstallError::Process(f) => InstallErrorView::Process(*f),
            InstallError::Directory => InstallErrorView::Directory,
            InstallError::Program => InstallErrorView::Program,
            InstallError::CannotWait => InstallErrorView::CannotWait,
            InstallError::StillRunning => InstallErrorView::StillRunning,
            InstallError::Changed => InstallErrorView::Changed,
            InstallError::Replace(n) => InstallErrorView::Replace(*n as nat),
            InstallError::Start(m) => InstallErrorView::Start(m@),
            InstallError::Restore(m) => InstallErrorView::Restore(m@),
            InstallError::Copy(m) => InstallErrorView::Copy(m@),
            InstallError::OutOfTurn => InstallErrorView::OutOfTurn,
        }
    }
}

impl InstallErrorView {
    /// The error in words.
    pub open spec fn words(self) -> Seq<char> {
        match self {
            InstallErrorView::Arguments => "更新参数不完整"@,
            InstallErrorView::Process(f) => f.words(),
            InstallErrorView::Directory => "更新目录不匹配"@,
            InstallErrorView::Program => "待更新程序校验失败"@,
            InstallErrorView::CannotWait => "无法等待原程序退出"@,
            InstallErrorView::StillRunning => "原程序未退出，更新已停止"@,
            InstallErrorView::Changed => "原程序已发生变化，请重新检查更新"@,
            InstallErrorView::Replace(n) => replace_text(n),
            InstallErrorView::Start(m) => "新版无法启动: "@ + m,
            InstallErrorView::Restore(m) => "恢复旧程序失败，旧程序保留在更新目录的 old.exe: "@ + m,
            InstallErrorView::Copy(m) => "恢复旧程序失败: "@ + m,
            InstallErrorView::OutOfTurn => "更新步骤次序错误"@,
        }
    }
}

/// The error of replacing a program in words.
pub open spec fn replace_text(n: nat) -> Seq<char> {
    "替换程序失败（Windows 错误 "@ + numeral(n) + "），请关闭其他程序实例后重试"@
}

impl InstallError {
    /// The error in words.
    pub fn message(&self) -> (r: String)
        ensures
            r@ == self@.words(),
    {
        match self {
            InstallError::Arguments => "更新参数不完整".to_string(),
            InstallError::Process(f) => f.message(),
            InstallError::Directory => "更新目录不匹配".to_string(),
            InstallError::Program => "待更新程序校验失败".to_string(),
            InstallError::CannotWait => "无法等待原程序退出".to_string(),
            InstallError::StillRunning => "原程序未退出，更新已停止".to_string(),
            InstallError::Changed => "原程序已发生变化，请重新检查更新".to_string(),
            InstallError::Replace(n) => {
                let mut r: String = "替换程序失败（Windows 错误 ".to_string();
                let number: String = decimal(*n as u64);
                r.append(number.as_str());
                r.append("），请关闭其他程序实例后重试");
                r
            },
            InstallError::Start(m) => {
                let mut r: String = "新版无法启动: ".to_string();
                r.append(m.as_str());
                r
            },
            InstallError::Restore(m) => {
                let mut r: String = "恢复旧程序失败，旧程序保留在更新目录的 old.exe: ".to_string();
                r.append(m.as_str());
                r
            },
            InstallError::Copy(m) => {
                let mut r: String = "恢复旧程序失败: ".to_string();
                r.append(m.as_str());
                r
            },
            InstallError::OutOfTurn => "更新步骤次序错误".to_string(),
        }
    }

    /// The same error once more.
    fn duplicate(&self) -> (r: Self)
        ensures
            r@ == self@,
    {
        match self {
            InstallError::Arguments => InstallError::Arguments,
            InstallError::Process(f) => InstallError::Process(*f),
            InstallError::Directory => InstallError::Directory,
            InstallError::Program => InstallError::Program,
            InstallError::CannotWait => InstallError::CannotWait,
            InstallError::StillRunning => InstallError::StillRunning,
            InstallError::Changed => InstallError::Changed,
            InstallError::Replace(n) => InstallError::Replace(*n),
            InstallError::Start(m) => InstallError::Start(m.clone()),
            InstallError::Restore(m) => InstallError::Restore(m.clone()),
            InstallError::Copy(m) => InstallError::Copy(m.clone()),
            InstallError::OutOfTurn => InstallError::OutOfTurn,
        }
    }
}

/// Whether a directory is that of an update: beside the program, and named as such.
pub open spec fn update_dir(beside: bool, name: Option<Seq<char>>) -> bool {
    beside && (name matches Some(n) && begins(n, ".avt-update-"@))
}

/// Whether a directory is that of an update. `beside` is whether it is in the same directory as the
/// program, and `name` is its own name, if it has one.
pub fn valid_dir(beside: bool, name: Option<&str>) -> (r: bool)
    ensures
        r == update_dir(
            beside,
            match name {
                Some(n) => Some(n@),
                None => None,
            },
        ),
{
    match name {
        Some(n) => beside && has_prefix(n, ".avt-update-"),
        None => false,
    }
}

/// What the arguments of the program ask of it.
pub enum Task {
    /// Install the update for the program, once the process has ended, of the given digest.
    Install(String, u32, String),
    /// Say why no update can be installed.
    Fail(InstallError),
    /// Clean the directory of an update up, once the process has ended, and start.
    Clean(String, u32),
    /// Start.
    Start,
}

/// What the arguments of the program ask of it, in contracts.
pub enum TaskView {
    Install(Seq<char>, nat, Seq<char>),
    Fail(InstallErrorView),
    Clean(Seq<char>, nat),
    Start,
}

impl View for Task {
    type V = TaskView;

    open spec fn view(&self) -> TaskView {
        match self {
            Task::Install(t, p, e) => TaskView::Install(t@, *p as nat, e@),
            Task::Fail(e) => TaskView::Fail(e@),
            Task::Clean(d, p) => TaskView::Clean(d@, *p as nat),
            Task::Start => TaskView::Start,
        }
    }
}

/// What the arguments of the program, of which the first is its own name, ask of it.
pub open spec fn task_of(args: Seq<Seq<char>>) -> TaskView {
    if args.len() > 1 && args[1] == "--avt-install-update"@ {
        if args.len() != 5 {
            TaskView::Fail(InstallErrorView::Arguments)
        } else {
            match read_unsigned(args[3], u32::MAX as nat) {
                Some(pid) => TaskView::Install(args[2], pid, args[4]),
                None => TaskView::Fail(
                    InstallErrorView::Process(read_fault(args[3], u32::MAX as nat)),
                ),
            }
        }
    } else if args.len() == 4 && args[1] == "--avt-clean-update"@ {
        match read_unsigned(args[3], u32::MAX as nat) {
            Some(pid) => TaskView::Clean(args[2], pid),
            None => TaskView::Start,
        }
    } else {
        TaskView::Start
    }
}

/// What the arguments of the program, of which the first is its own name, ask of it.
pub fn read_args(args: &Vec<String>) -> (r: Task)
    ensures
        r@ == task_of(texts_of(args@)),
{
    let ghost v = texts_of(args@);
    if args.len() > 1 && same(args[1].as_str(), "--avt-install-update") {
        assert(v[1] == args@[1]@);
        if args.len() != 5 {
            return Task::Fail(InstallError::Arguments);
        }
        assert(v[2] == args@[2]@ && v[3] == args@[3]@ && v[4] == args@[4]@);
        return match parse_unsigned(args[3].as_str(), u32::MAX as u64) {
            Some(pid) => Task::Install(args[2].clone(), pid as u32, args[4].clone()),
            None => Task::Fail(
                InstallError::Process(unsigned_fault(args[3].as_str(), u32::MAX as u64)),
            ),
        };
    }
    if args.len() == 4 && same(args[1].as_str(), "--avt-clean-update") {
        assert(v[1] == args@[1]@ && v[2] == args@[2]@ && v[3] == args@[3]@);
        return match parse_unsigned(args[3].as_str(), u32::MAX as u64) {
            Some(pid) => Task::Clean(args[2].clone(), pid as u32),
            None => Task::Start,
        };
    }
    assert(args.len() > 1 ==> v[1] == args@[1]@);
    Task::Start
}

/// What waiting for a process came to: whether it could be opened and, if not, the number of the
/// error, and what the wait returned. A process that is not there has ended.
pub fn waited(opened: bool, error: u32, wait: u32) -> (r: Result<(), InstallError>)
    ensures
        match r {
            Ok(()) => (!opened && error == 87) || (opened && wait == 0),
            Err(e) => if opened {
                wait != 0 && e@ == InstallErrorView::StillRunning
            } else {
                error != 87 && e@ == InstallErrorView::CannotWait
            },
        },
{
    if !opened {
        if error == 87 {
            Ok(())
        } else {
            Err(InstallError::CannotWait)
        }
    } else if wait == 0 {
        Ok(())
    } else {
        Err(InstallError::StillRunning)
    }
}

/// How often a program is tried to be replaced.
pub const ATTEMPTS: u32 = 40;

/// Whether replacing a program is tried once more after so many attempts.
pub fn try_again(tried: u32) -> (r: bool)
    ensures
        r == (tried < ATTEMPTS),
{
    tried < ATTEMPTS
}

/// What was seen or done in an installation.
pub enum Seen {
    /// The fingerprint of the new program.
    New(String),
    /// The old program was waited for, or why not.
    Ended(Option<InstallError>),
    /// The fingerprints of the program and of the copy of the old one.
    Both(String, String),
    /// A program was replaced or started, or why not.
    Tried(Option<InstallError>),
    /// Whether the program is there.
    There(bool),
    /// The old program was copied back, or the message of the error.
    Copied(Option<String>),
}

/// What was seen or done in an installation, in contracts.
pub enum SeenView {
    New(Seq<char>),
    Ended(Option<InstallErrorView>),
    Both(Seq<char>, Seq<char>),
    Tried(Option<InstallErrorView>),
    There(bool),
    Copied(Option<Seq<char>>),
}

/// The error that there may be, in contracts.
pub open spec fn error_view(e: Option<InstallError>) -> Option<InstallErrorView> {
    match e {
        Some(f) => Some(f@),
        None => None,
    }
}

impl View for Seen {
    type V = SeenView;

    open spec fn view(&self) -> SeenView {
        match self {
            Seen::New(h) => SeenView::New(h@),
            Seen::Ended(e) => SeenView::Ended(error_view(*e)),
            Seen::Both(t, o) => SeenView::Both(t@, o@),
            Seen::Tried(e) => SeenView::Tried(error_view(*e)),
            Seen::There(b) => SeenView::There(*b),
            Seen::Copied(m) => SeenView::Copied(
                match m {
                    Some(s) => Some(s@),
                    None => None,
                },
            ),
        }
    }
}

/// What is to be done next in an installation.
pub enum Move {
    /// Tell the fingerprint of the new program.
    HashNew,
    /// Wait for the old program.
    Wait,
    /// Tell the fingerprints of the program and of the copy of the old one.
    HashBoth,
    /// Put the new program in the place of the old one.
    PutNew,
    /// Start the new program.
    StartNew,
    /// Look whether the program is there.
    Look,
    /// Put the old program in the place of the new one.
    PutOld,
    /// Copy the old program back.
    CopyOld,
    /// Start the old program.
    StartOld,
    /// Nothing: the new version is installed.
    Done,
    /// Nothing: the new version is not installed, and why.
    Fail(InstallError),
}

/// What is to be done next in an installation, in contracts.
pub enum MoveView {
    HashNew,
    Wait,
    HashBoth,
    PutNew,
    StartNew,
    Look,
    PutOld,
    CopyOld,
    StartOld,
    Done,
    Fail(InstallErrorView),
}

impl View for Move {
    type V = MoveView;

    open spec fn view(&self) -> MoveView {
        match self {
            Move::HashNew => MoveView::HashNew,
            Move::Wait => MoveView::Wait,
            Move::HashBoth => MoveView::HashBoth,
            Move::PutNew => MoveView::PutNew,
            Move::StartNew => MoveView::StartNew,
            Move::Look => MoveView::Look,
            Move::PutOld => MoveView::PutOld,
            Move::CopyOld => MoveView::CopyOld,
            Move::StartOld => MoveView::StartOld,
            Move::Done => MoveView::Done,
            Move::Fail(e) => MoveView::Fail(e@),
        }
    }
}

/// How far an installation is.
#[derive(Clone, Copy, Debug, PartialEq, Eq, Structural)]
pub enum Phase {
    HashingNew,
    Waiting,
    HashingBoth,
    PuttingNew,
    StartingNew,
    Looking,
    PuttingOld,
    CopyingOld,
    StartingOld,
    Over,
}

/// An installation that is under way, and the error for which it is taken back.
pub struct Installer {
    pub phase: Phase,
    pub error: Option<InstallError>,
}

/// An installation that is under way, in contracts.
pub type InstallerView = (Phase, Option<InstallErrorView>);

impl View for Installer {
    type V = InstallerView;

    open spec fn view(&self) -> InstallerView {
        (self.phase, error_view(self.error))
    }
}

/// What follows on what was seen, in an installation of a program with the given digest.
pub open spec fn advance(expected: Seq<char>, s: InstallerView, e: SeenView) -> (
    InstallerView,
    MoveView,
) {
    match (s.0, e) {
        (Phase::HashingNew, SeenView::New(h)) => if h != expected || expected.len() != 64 {
            ((Phase::Over, s.1), MoveView::Fail(InstallErrorView::Program))
        } else {
            ((Phase::Waiting, s.1), MoveView::Wait)
        },
        (Phase::Waiting, SeenView::Ended(None)) => ((Phase::HashingBoth, s.1), MoveView::HashBoth),
        (Phase::Waiting, SeenView::Ended(Some(f))) => ((Phase::Over, s.1), MoveView::Fail(f)),
        (Phase::HashingBoth, SeenView::Both(t, o)) => if t != o {
            ((Phase::Over, s.1), MoveView::Fail(InstallErrorView::Changed))
        } else {
            ((Phase::PuttingNew, s.1), MoveView::PutNew)
        },
        (Phase::PuttingNew, SeenView::Tried(None)) => ((Phase::StartingNew, s.1), MoveView::StartNew),
        (Phase::StartingNew, SeenView::Tried(None)) => ((Phase::Over, s.1), MoveView::Done),
        (Phase::PuttingNew, SeenView::Tried(Some(f))) => ((Phase::Looking, Some(f)), MoveView::Look),
        (Phase::StartingNew, SeenView::Tried(Some(f))) => (
            (Phase::Looking, Some(f)),
            MoveView::Look,
        ),
        (Phase::Looking, SeenView::There(true)) => ((Phase::PuttingOld, s.1), MoveView::PutOld),
        (Phase::Looking, SeenView::There(false)) => ((Phase::CopyingOld, s.1), MoveView::CopyOld),
        (Phase::PuttingOld, SeenView::Tried(None)) => ((Phase::StartingOld, s.1), MoveView::StartOld),
        (Phase::PuttingOld, SeenView::Tried(Some(f))) => (
            (Phase::Over, s.1),
            MoveView::Fail(InstallErrorView::Restore(f.words())),
        ),
        (Phase::CopyingOld, SeenView::Copied(None)) => (
            (Phase::StartingOld, s.1),
            MoveView::StartOld,
        ),
        (Phase::CopyingOld, SeenView::Copied(Some(m))) => (
            (Phase::Over, s.1),
            MoveView::Fail(InstallErrorView::Copy(m)),
        ),
        (Phase::StartingOld, SeenView::Tried(_)) => (
            (Phase::Over, s.1),
            MoveView::Fail(
                match s.1 {
                    Some(f) => f,
                    None => InstallErrorView::OutOfTurn,
                },
            ),
        ),
        _ => ((Phase::Over, s.1), MoveView::Fail(InstallErrorView::OutOfTurn)),
    }
}

impl Installer {
    /// Starts an installation. The fingerprint of the new program is to be told first.
    pub fn new() -> (r: Self)
        ensures
            r@ == (Phase::HashingNew, None::<InstallErrorView>),
    {
        Installer { phase: Phase::HashingNew, error: None }
    }

    /// Goes on from what was seen, in an installation of a program with the given digest.
    pub fn step(&mut self, expected: &str, seen: Seen) -> (r: Move)
        ensures
            (final(self)@, r@) == advance(expected@, old(self)@, seen@),
    {
        match (self.phase, seen) {
            (Phase::HashingNew, Seen::New(h)) => {
                let x: Vec<char> = chars(expected);
                if !same(h.as_str(), expected) || x.len() != 64 {
                    self.phase = Phase::Over;
                    Move::Fail(InstallError::Program)
                } else {
                    self.phase = Phase::Waiting;
                    Move::Wait
                }
            },
            (Phase::Waiting, Seen::Ended(None)) => {
                self.phase = Phase::HashingBoth;
                Move::HashBoth
            },
            (Phase::Waiting, Seen::Ended(Some(f))) => {
                self.phase = Phase::Over;
                Move::Fail(f)
            },
            (Phase::HashingBoth, Seen::Both(t, o)) => {
                if !same(t.as_str(), o.as_str()) {
                    self.phase = Phase::Over;
                    Move::Fail(InstallError::Changed)
                } else {
                    self.phase = Phase::PuttingNew;
                    Move::PutNew
                }
            },
            (Phase::PuttingNew, Seen::Tried(None)) => {
                self.phase = Phase::StartingNew;
                Move::StartNew
            },
            (Phase::StartingNew, Seen::Tried(None)) => {
                self.phase = Phase::Over;
                Move::Done
            },
            (Phase::PuttingNew, Seen::Tried(Some(f))) => {
                self.phase = Phase::Looking;
                self.error = Some(f);
                Move::Look
            },
            (Phase::StartingNew, Seen::Tried(Some(f))) => {
                self.phase = Phase::Looking;
                self.error = Some(f);
                Move::Look
            },
            (Phase::Looking, Seen::There(there)) => {
                if there {
                    self.phase = Phase::PuttingOld;
                    Move::PutOld
                } else {
                    self.phase = Phase::CopyingOld;
                    Move::CopyOld
                }
            },
            (Phase::PuttingOld, Seen::Tried(None)) => {
                self.phase = Phase::StartingOld;
                Move::StartOld
            },
            (Phase::PuttingOld, Seen::Tried(Some(f))) => {
                self.phase = Phase::Over;
                Move::Fail(InstallError::Restore(f.message()))
            },
            (Phase::CopyingOld, Seen::Copied(None)) => {
                self.phase = Phase::StartingOld;
                Move::StartOld
            },
            (Phase::CopyingOld, Seen::Copied(Some(m))) => {
                self.phase = Phase::Over;
                Move::Fail(InstallError::Copy(m))
            },
            (Phase::StartingOld, Seen::Tried(_)) => {
                self.phase = Phase::Over;
                match &self.error {
                    Some(f) => Move::Fail(f.duplicate()),
                    None => Move::Fail(InstallError::OutOfTurn),
                }
            },
            _ => {
                self.phase = Phase::Over;
                Move::Fail(InstallError::OutOfTurn)
            },
        }
    }
}

/// How far an installation is after some events, and what is to be done next.
pub open spec fn progress(expected: Seq<char>, seen: Seq<SeenView>) -> (InstallerView, MoveView)
    decreases seen.len(),
{
    if seen.len() == 0 {
        ((Phase::HashingNew, None), MoveView::HashNew)
    } else {
        advance(expected, progress(expected, seen.drop_last()).0, seen.last())
    }
}

/// Whether the events start with everything that must be seen before the program is touched: the
/// new program has the expected digest, the old one has ended, and the copy of it is the same.
pub open spec fn cleared(expected: Seq<char>, seen: Seq<SeenView>) -> bool {
    &&& seen.len() >= 3
    &&& seen[0] == SeenView::New(expected)
    &&& expected.len() == 64
    &&& seen[1] == SeenView::Ended(None)
    &&& seen[2] matches SeenView::Both(t, o) && t == o
}

proof fn progress_is_cleared(expected: Seq<char>, seen: Seq<SeenView>)
    ensures
        match progress(expected, seen).0.0 {
            Phase::HashingNew => seen.len() == 0,
            Phase::Waiting => seen.len() == 1 && seen[0] == SeenView::New(expected)
                && expected.len() == 64,
            Phase::HashingBoth => seen.len() == 2 && seen[0] == SeenView::New(expected)
                && expected.len() == 64 && seen[1] == SeenView::Ended(None),
            Phase::Over => progress(expected, seen).1 is Done ==> cleared(expected, seen),
            Phase::PuttingNew => cleared(expected, seen) && seen.len() == 3 && progress(
                expected,
                seen,
            ).1 is PutNew,
            _ => cleared(expected, seen),
        },
        progress(expected, seen).1 is PutNew ==> progress(expected, seen).0.0 == Phase::PuttingNew,
    decreases seen.len(),
{
    if seen.len() > 0 {
        progress_is_cleared(expected, seen.drop_last());
    }
}

/// The program is replaced only after the new one was checked, the old one has ended and its copy
/// was found to be the same.
pub proof fn replacing_is_cleared(expected: Seq<char>, seen: Seq<SeenView>)
    requires
        progress(expected, seen).1 is PutNew || progress(expected, seen).1 is Done,
    ensures
        cleared(expected, seen),
{
    progress_is_cleared(expected, seen);
}

/// Where the new program cannot be put in place or started, the old one is put back and started
/// again, and the installation fails for the first reason.
pub proof fn failures_are_taken_back(
    expected: Seq<char>,
    seen: Seq<SeenView>,
    failure: InstallErrorView,
    there: bool,
    restart: Option<InstallErrorView>,
)
    requires
        progress(expected, seen).0.0 == Phase::PuttingNew || progress(expected, seen).0.0
            == Phase::StartingNew,
    ensures
        ({
            let a = seen.push(SeenView::Tried(Some(failure)));
            let b = a.push(SeenView::There(there));
            let c = b.push(
                if there {
                    SeenView::Tried(None)
                } else {
                    SeenView::Copied(None)
                },
            );
            let d = c.push(SeenView::Tried(restart));
            &&& progress(expected, a).1 is Look
            &&& progress(expected, b).1 == (if there {
                MoveView::PutOld
            } else {
                MoveView::CopyOld
            })
            &&& progress(expected, c).1 is StartOld
            &&& progress(expected, d).1 == MoveView::Fail(failure)
        }),
{
    let a = seen.push(SeenView::Tried(Some(failure)));
    let b = a.push(SeenView::There(there));
    let c = b.push(
        if there {
            SeenView::Tried(None)
        } else {
            SeenView::Copied(None)
        },
    );
    let d = c.push(SeenView::Tried(restart));
    assert(a.drop_last() =~= seen);
    assert(b.drop_last() =~= a);
    assert(c.drop_last() =~= b);
    assert(d.drop_last() =~= c);
}

/// A directory is that of an update where it is beside the program and its name starts as such names do.
pub proof fn update_directories_are_told_by_name(beside: bool, name: Seq<char>)
    ensures
        ({
            let start = seq!['.', 'a', 'v', 't', '-', 'u', 'p', 'd', 'a', 't', 'e', '-'];
            &&& update_dir(beside, Some(name)) <==> beside && name.len() >= 12 && name.subrange(0, 12)
                == start
            &&& !update_dir(beside, None)
        }),
{
    reveal_strlit(".avt-update-");
    assert(".avt-update-"@ =~= seq!['.', 'a', 'v', 't', '-', 'u', 'p', 'd', 'a', 't', 'e', '-']);
}

/// What the arguments of the program ask of it: an installation with a program, a process and a digest,
/// which fails where they are not all there or the process is no number; a cleaning up; or nothing but
/// to start.
pub proof fn arguments_ask_for_tasks(args: Seq<Seq<char>>)
    ensures
        ({
            let install = args.len() >= 2 && args[1] == "--avt-install-update"@;
            let clean = args.len() == 4 && args[1] == "--avt-clean-update"@;
            let pid = read_unsigned(args[3], 4294967295);
            &&& install && args.len() != 5 ==> task_of(args) == TaskView::Fail(
                InstallErrorView::Arguments,
            )
            &&& install && args.len() == 5 && pid is Some ==> task_of(args) == TaskView::Install(
                args[2],
                pid->Some_0,
                args[4],
            )
            &&& install && args.len() == 5 && pid is None ==> task_of(args) == TaskView::Fail(
                InstallErrorView::Process(read_fault(args[3], 4294967295)),
            )
            &&& clean && pid is Some ==> task_of(args) == TaskView::Clean(args[2], pid->Some_0)
            &&& clean && pid is None ==> task_of(args) == TaskView::Start
            &&& !install && !clean ==> task_of(args) == TaskView::Start
        }),
{
    reveal_strlit("--avt-install-update");
    reveal_strlit("--avt-clean-update");
    assert("--avt-install-update"@.len() != "--avt-clean-update"@.len());
}

/// An installation in which nothing goes wrong: the new program is checked, the old one is waited for and
/// checked, and the new one is put in its place and started.
pub proof fn installations_run_to_their_end(expected: Seq<char>, program: Seq<char>)
    requires
        expected.len() == 64,
    ensures
        ({
            let a = seq![SeenView::New(expected)];
            let b = a.push(SeenView::Ended(None));
            let c = b.push(SeenView::Both(program, program));
            let d = c.push(SeenView::Tried(None));
            let e = d.push(SeenView::Tried(None));
            &&& progress(expected, Seq::empty()).1 == MoveView::HashNew
            &&& progress(expected, a).1 == MoveView::Wait
            &&& progress(expected, b).1 == MoveView::HashBoth
            &&& progress(expected, c).1 == MoveView::PutNew
            &&& progress(expected, d).1 == MoveView::StartNew
            &&& progress(expected, e).1 == MoveView::Done
        }),
{
    let a = seq![SeenView::New(expected)];
    let b = a.push(SeenView::Ended(None));
    let c = b.push(SeenView::Both(program, program));
    let d = c.push(SeenView::Tried(None));
    let e = d.push(SeenView::Tried(None));
    let none = Seq::<SeenView>::empty();
    assert(progress(expected, none) == ((Phase::HashingNew, None::<InstallErrorView>), MoveView::HashNew));
    assert(a.drop_last() =~= none);
    assert(b.drop_last() =~= a);
    assert(c.drop_last() =~= b);
    assert(d.drop_last() =~= c);
    assert(e.drop_last() =~= d);
}

/// What stops an installation before the program is touched, and why it then fails: a new program with
/// another digest, an old one that cannot be waited for, and one that was changed.
pub proof fn installations_are_stopped(
    expected: Seq<char>,
    hash: Seq<char>,
    error: Option<InstallErrorView>,
    reason: InstallErrorView,
    target: Seq<char>,
    copy: Seq<char>,
)
    ensures
        hash != expected || expected.len() != 64 ==> advance(
            expected,
            (Phase::HashingNew, error),
            SeenView::New(hash),
        ).1 == MoveView::Fail(InstallErrorView::Program),
        advance(expected, (Phase::Waiting, error), SeenView::Ended(Some(reason))).1
            == MoveView::Fail(reason),
        target != copy ==> advance(
            expected,
            (Phase::HashingBoth, error),
            SeenView::Both(target, copy),
        ).1 == MoveView::Fail(InstallErrorView::Changed),
        advance(expected, (Phase::PuttingOld, error), SeenView::Tried(Some(reason))).1
            == MoveView::Fail(InstallErrorView::Restore(reason.words())),
        advance(expected, (Phase::CopyingOld, error), SeenView::Copied(Some(hash))).1
            == MoveView::Fail(InstallErrorView::Copy(hash)),
{
}

/// A process that is not there has ended, and so has one that could be waited for; replacing a program is
/// tried forty times.
pub proof fn processes_are_waited_for(opened: bool, error: u32, wait: u32, tried: u32)
    ensures
        forall|r: Result<(), InstallError>| #[trigger]
            call_ensures(waited, (opened, error, wait), r) ==> {
                &&& opened && wait == 0 ==> r is Ok
                &&& opened && wait != 0 ==> (r matches Err(e) && e@ == InstallErrorView::StillRunning)
                &&& !opened && error == 87 ==> r is Ok
                &&& !opened && error != 87 ==> (r matches Err(e) && e@
                    == InstallErrorView::CannotWait)
            },
        forall|r: bool| #[trigger] call_ensures(try_again, (tried,), r) ==> (r <==> tried < 40),
{
}

/// What is said of an installation that fails: the words are fixed, and what they are
/// about stands in them as it is.
pub proof fn faults_of_installations_are_worded(error: InstallErrorView)
    ensures
        match error {
            InstallErrorView::Arguments => error.words() == "更新参数不完整"@,
            InstallErrorView::Process(f) => error.words() == f.words(),
            InstallErrorView::Directory => error.words() == "更新目录不匹配"@,
            InstallErrorView::Program => error.words() == "待更新程序校验失败"@,
            InstallErrorView::CannotWait => error.words() == "无法等待原程序退出"@,
            InstallErrorView::StillRunning => error.words() == "原程序未退出，更新已停止"@,
            InstallErrorView::Changed => error.words() == "原程序已发生变化，请重新检查更新"@,
            InstallErrorView::Replace(n) => error.words() == replace_text(n),
            InstallErrorView::Start(m) => stands_between(
                error.words(),
                "新版无法启动: "@,
                m,
                Seq::<char>::empty(),
            ),
            InstallErrorView::Restore(m) => stands_between(
                error.words(),
                "恢复旧程序失败，旧程序保留在更新目录的 old.exe: "@,
                m,
                Seq::<char>::empty(),
            ),
            InstallErrorView::Copy(m) => stands_between(
                error.words(),
                "恢复旧程序失败: "@,
                m,
                Seq::<char>::empty(),
            ),
            InstallErrorView::OutOfTurn => error.words() == "更新步骤次序错误"@,
        },
{
}

} // verus!
