//! The command line, and texts as the system takes them.

use crate::text::{chars, has_text, same, texts_of};
use vstd::prelude::*;

verus! {

/// What the command line asks for.
pub enum Command {
    /// Tell of the newest release.
    CheckUpdate,
    /// Tell of the newest release, and download and check it.
    VerifyUpdate,
    /// Show how the program is called.
    Usage,
    /// Inspect the workbook.
    Inspect(String),
    /// Inspect the workbook and carry the plan out, with a backup or without one.
    Apply(String, bool),
    /// Inspect the workbook, and say that the command is not known.
    Unknown(String),
}

/// What the command line asks for, in contracts.
pub enum CommandView {
    CheckUpdate,
    VerifyUpdate,
    Usage,
    Inspect(Seq<char>),
    Apply(Seq<char>, bool),
    Unknown(Seq<char>),
}

impl View for Command {
    type V = CommandView;

    open spec fn view(&self) -> CommandView {
        match self {
            Command::CheckUpdate => CommandView::CheckUpdate,
            Command::VerifyUpdate => CommandView::VerifyUpdate,
            Command::Usage => CommandView::Usage,
            Command::Inspect(p) => CommandView::Inspect(p@),
            Command::Apply(p, b) => CommandView::Apply(p@, *b),
            Command::Unknown(p) => CommandView::Unknown(p@),
        }
    }
}

/// What the arguments, of which the first is the name of the program, ask for. Updates are there only
/// where `updates` holds.
pub open spec fn command_of(args: Seq<Seq<char>>, updates: bool) -> CommandView {
    if updates && args.len() > 1 && args[1] == "check-update"@ {
        CommandView::CheckUpdate
    } else if updates && args.len() > 1 && args[1] == "verify-update"@ {
        CommandView::VerifyUpdate
    } else if args.len() < 3 {
        CommandView::Usage
    } else if args[1] == "inspect"@ {
        CommandView::Inspect(args[2])
    } else if args[1] == "apply"@ {
        CommandView::Apply(args[2], args.contains("--backup"@))
    } else {
        CommandView::Unknown(args[2])
    }
}

/// What the arguments, of which the first is the name of the program, ask for.
pub fn read_command(args: &Vec<String>, updates: bool) -> (r: Command)
    ensures
        r@ == command_of(texts_of(args@), updates),
{
    let ghost v = texts_of(args@);
    assert(args.len() > 1 ==> v[1] == args@[1]@);
    if updates && args.len() > 1 && same(args[1].as_str(), "check-update") {
        return Command::CheckUpdate;
    }
    if updates && args.len() > 1 && same(args[1].as_str(), "verify-update") {
        return Command::VerifyUpdate;
    }
    if args.len() < 3 {
        return Command::Usage;
    }
    assert(v[2] == args@[2]@);
    if same(args[1].as_str(), "inspect") {
        Command::Inspect(args[2].clone())
    } else if same(args[1].as_str(), "apply") {
        Command::Apply(args[2].clone(), has_text(args, "--backup"))
    } else {
        Command::Unknown(args[2].clone())
    }
}

/// The units of a character in UTF-16.
pub open spec fn units(c: char) -> Seq<u16> {
    let n = c as u32;
    if n < 0x10000 {
        seq![n as u16]
    } else {
        seq![(0xd800 + (n - 0x10000) / 0x400) as u16, (0xdc00 + (n - 0x10000) % 0x400) as u16]
    }
}

/// A text in UTF-16.
pub open spec fn utf16(s: Seq<char>) -> Seq<u16>
    decreases s.len(),
{
    if s.len() == 0 {
        Seq::empty()
    } else {
        utf16(s.drop_last()) + units(s.last())
    }
}

/// A text in UTF-16, with a zero at its end.
pub fn wide(s: &str) -> (r: Vec<u16>)
    ensures
        r@ == utf16(s@).push(0),
{
    let x: Vec<char> = chars(s);
    let mut r: Vec<u16> = Vec::new();
    let mut i: usize = 0;
    while i < x.len()
        invariant
            x@ == s@,
            i <= x.len(),
            r@ == utf16(x@.take(i as int)),
        decreases x.len() - i,
    {
        let n: u32 = x[i] as u32;
        assert(x@.take(i + 1).drop_last() =~= x@.take(i as int));
        let ghost before = r@;
        if n < 0x10000 {
            r.push(n as u16);
            assert(r@ =~= before + units(x@[i as int]));
        } else {
            r.push((0xd800 + (n - 0x10000) / 0x400) as u16);
            r.push((0xdc00 + (n - 0x10000) % 0x400) as u16);
            assert(r@ =~= before + units(x@[i as int]));
        }
        i = i + 1;
    }
    assert(x@.take(x@.len() as int) =~= x@);
    r.push(0);
    r
}

/// How many units there are before the first zero.
pub open spec fn before_zero(v: Seq<u16>) -> nat
    decreases v.len(),
{
    if v.len() == 0 || v[0] == 0 {
        0
    } else {
        1 + before_zero(v.drop_first())
    }
}

/// How many units there are before the first zero.
pub fn until_zero(v: &[u16]) -> (n: usize)
    ensures
        n == before_zero(v@),
        n <= v.len(),
{
    let mut i: usize = 0;
    assert(v@.skip(0) =~= v@);
    while i < v.len() && v[i] != 0
        invariant
            i <= v.len(),
            before_zero(v@) == i + before_zero(v@.skip(i as int)),
        decreases v.len() - i,
    {
        assert(v@.skip(i as int).drop_first() =~= v@.skip(i + 1));
        i = i + 1;
    }
    i
}

/// A text without a zero in it ends at the zero that is put behind it.
pub proof fn wide_texts_end_at_their_zero(s: Seq<char>)
    requires
        forall|i: int| 0 <= i < s.len() ==> #[trigger] s[i] != '\0',
    ensures
        before_zero(utf16(s).push(0)) == utf16(s).len(),
{
    no_zero_units(s);
    zero_ends(utf16(s));
}

proof fn no_zero_unit(c: char)
    requires
        c != '\0',
    ensures
        forall|i: int| 0 <= i < units(c).len() ==> #[trigger] units(c)[i] != 0,
{
}

proof fn no_zero_units(s: Seq<char>)
    requires
        forall|i: int| 0 <= i < s.len() ==> #[trigger] s[i] != '\0',
    ensures
        forall|i: int| 0 <= i < utf16(s).len() ==> #[trigger] utf16(s)[i] != 0,
    decreases s.len(),
{
    if s.len() > 0 {
        let t = s.drop_last();
        assert forall|i: int| 0 <= i < t.len() implies #[trigger] t[i] != '\0' by {
            assert(s[i] != '\0');
        }
        no_zero_units(t);
        let c = s.last();
        assert(s[s.len() - 1] != '\0');
        no_zero_unit(c);
        assert forall|i: int| 0 <= i < utf16(s).len() implies #[trigger] utf16(s)[i] != 0 by {
            if i < utf16(t).len() {
                assert(utf16(s)[i] == utf16(t)[i]);
            } else {
                assert(utf16(s)[i] == units(c)[i - utf16(t).len()]);
            }
        }
    }
}

proof fn zero_ends(v: Seq<u16>)
    requires
        forall|i: int| 0 <= i < v.len() ==> #[trigger] v[i] != 0,
    ensures
        before_zero(v.push(0)) == v.len(),
    decreases v.len(),
{
    if v.len() > 0 {
        assert(v.push(0).drop_first() =~= v.drop_first().push(0));
        assert(v.push(0)[0] == v[0]);
        zero_ends(v.drop_first());
    }
}

/// What the command line asks for: where there are updates, one of the two commands for them; without a
/// command and a path, how the program is called; and else what is to be done with the workbook at the
/// path, with a backup where that is asked for anywhere.
pub proof fn commands_are_told_apart(args: Seq<Seq<char>>, updates: bool)
    ensures
        ({
            let first = args[1];
            let asks = command_of(args, updates);
            let update = updates && args.len() >= 2 && (first == "check-update"@ || first
                == "verify-update"@);
            &&& update && first == "check-update"@ ==> asks == CommandView::CheckUpdate
            &&& update && first == "verify-update"@ ==> asks == CommandView::VerifyUpdate
            &&& !update && args.len() < 3 ==> asks == CommandView::Usage
            &&& !update && args.len() >= 3 && first == "inspect"@ ==> asks == CommandView::Inspect(
                args[2],
            )
            &&& !update && args.len() >= 3 && first == "apply"@ ==> asks == CommandView::Apply(
                args[2],
                exists|i: int| 0 <= i < args.len() && #[trigger] args[i] == "--backup"@,
            )
            &&& !update && args.len() >= 3 && first != "inspect"@ && first != "apply"@ ==> asks
                == CommandView::Unknown(args[2])
        }),
{
    reveal_strlit("check-update");
    reveal_strlit("verify-update");
    reveal_strlit("inspect");
    reveal_strlit("apply");
    assert("check-update"@.len() == 12 && "verify-update"@.len() == 13 && "inspect"@.len() == 7
        && "apply"@.len() == 5);
    if exists|i: int| 0 <= i < args.len() && #[trigger] args[i] == "--backup"@ {
        assert(args.contains("--backup"@));
    }
    if args.contains("--backup"@) {
        let i = choose|i: int| 0 <= i < args.len() && args[i] == "--backup"@;
        assert(args[i] == "--backup"@);
    }
}

/// A text in UTF-16 is that of its characters, one after the other; a character is one unit, or from the
/// 65536th on two from which it is put together again.
pub proof fn characters_are_units(a: Seq<char>, c: char)
    ensures
        utf16(Seq::empty()) == Seq::<u16>::empty(),
        utf16(a.push(c)) == utf16(a) + units(c),
        (c as int) < 65536 ==> units(c).len() == 1 && units(c)[0] == c as int,
        c as int >= 65536 ==> {
            let u = units(c);
            &&& u.len() == 2
            &&& 55296 <= u[0] < 56320
            &&& 56320 <= u[1] < 57344
            &&& c as int == 65536 + 1024 * (u[0] - 55296) + (u[1] - 56320)
        },
{
    assert(a.push(c).drop_last() =~= a);
}

/// What stands before the first zero is counted.
pub proof fn zeros_end_texts(v: Seq<u16>)
    ensures
        before_zero(v) <= v.len(),
        forall|i: int| 0 <= i < before_zero(v) ==> #[trigger] v[i] != 0,
        before_zero(v) < v.len() ==> v[before_zero(v) as int] == 0,
    decreases v.len(),
{
    if v.len() > 0 && v[0] != 0 {
        let rest = v.drop_first();
        zeros_end_texts(rest);
        assert forall|i: int| 0 <= i < before_zero(v) implies #[trigger] v[i] != 0 by {
            if i > 0 {
                assert(rest[i - 1] == v[i]);
            }
        }
    }
}

} // verus!
