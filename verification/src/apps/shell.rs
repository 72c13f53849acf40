use vstd::prelude::*;
use crate::library::text::{
    bytes_of, push_bytes, push_decimal, push_str, split_whitespace, trim, trim_bytes, views, words,
    decimal, BLANK,
};

verus! {

/// Words of a command line joined by single blanks.
pub open spec fn join_words(ws: Seq<Seq<u8>>) -> Seq<u8>
    decreases ws.len(),
{
    if ws.len() == 0 {
        Seq::empty()
    } else if ws.len() == 1 {
        ws[0]
    } else {
        join_words(ws.drop_last()) + seq![BLANK] + ws.last()
    }
}

/// The prefix that runs a command without waiting for it.
pub open spec fn detach_prefix() -> Seq<u8> {
    seq![0x2du8, 0x64u8, 0x20u8]
}

/// A command line split into whether to detach, the command and its arguments
/// joined by blanks.
pub open spec fn parse_line(line: Seq<u8>) -> (bool, Seq<u8>, Seq<u8>) {
    let detach = line.len() >= 3 && line.subrange(0, 3) == detach_prefix();
    let rest = if detach {
        trim(line.subrange(3, line.len() as int))
    } else {
        line
    };
    let ws = words(rest);
    let name = if ws.len() > 0 {
        ws[0]
    } else {
        Seq::empty()
    };
    let args = if ws.len() > 0 {
        join_words(ws.drop_first())
    } else {
        Seq::empty()
    };
    (detach, name, args)
}

/// What a command line of the user shell asks for.
#[derive(Debug)]
pub enum UserCommand {
    Help,
    Clear,
    Banner,
    History,
    Vmas,
    Spinner,
    Reboot,
    Panic,
    /// An empty line.
    Empty,
    /// Start the program `name` with `args`; wait for it unless `detach`.
    Run { name: Vec<u8>, args: Vec<u8>, detach: bool },
}

/// The command that `name` names, with `args` and `detach` for a program.
pub open spec fn command_for(name: Seq<u8>, args: Seq<u8>, detach: bool) -> UserCommand {
    if name == bytes_of("help") {
        UserCommand::Help
    } else if name == bytes_of("clear") {
        UserCommand::Clear
    } else if name == bytes_of("banner") {
        UserCommand::Banner
    } else if name == bytes_of("history") {
        UserCommand::History
    } else if name == bytes_of("vmas") {
        UserCommand::Vmas
    } else if name == bytes_of("spinner") {
        UserCommand::Spinner
    } else if name == bytes_of("reboot") {
        UserCommand::Reboot
    } else if name == bytes_of("panic") {
        UserCommand::Panic
    } else if name.len() == 0 {
        UserCommand::Empty
    } else {
        UserCommand::Run { name: arbitrary(), args: arbitrary(), detach }
    }
}

/// `c` is the command `command_for` gives, program name and arguments compared by
/// their contents.
pub open spec fn command_matches(c: UserCommand, name: Seq<u8>, args: Seq<u8>, detach: bool) -> bool {
    match command_for(name, args, detach) {
        UserCommand::Run { detach: d, .. } => c matches UserCommand::Run { name: n, args: a, detach: dd }
            && n@ == name && a@ == args && dd == d,
        other => c == other,
    }
}

/// `a` holds the same bytes as the string `s`.
pub fn equals_str(a: &Vec<u8>, s: &str) -> (r: bool)
    ensures
        r == (a@ == bytes_of(s)),
{
    let b = s.as_bytes();
    if a.len() != b.len() {
        return false;
    }
    let mut i: usize = 0;
    while i < a.len()
        invariant
            b@ == bytes_of(s),
            a@.len() == b@.len(),
            i <= a@.len(),
            forall|j: int| 0 <= j < i ==> a@[j] == b@[j],
        decreases a@.len() - i,
    {
        if a[i] != b[i] {
            return false;
        }
        i = i + 1;
    }
    assert(a@ =~= b@);
    true
}

/// The words joined by single blanks.
pub fn join(ws: &Vec<Vec<u8>>, from: usize) -> (r: Vec<u8>)
    requires
        from <= ws@.len(),
    ensures
        r@ == join_words(views(ws@).subrange(from as int, ws@.len() as int)),
{
    let mut out: Vec<u8> = Vec::new();
    let mut i: usize = from;
    while i < ws.len()
        invariant
            from <= i <= ws@.len(),
            out@ == join_words(views(ws@).subrange(from as int, i as int)),
        decreases ws@.len() - i,
    {
        let ghost before = out@;
        if i > from {
            out.push(BLANK);
        }
        push_bytes(&mut out, ws[i].as_slice());
        proof {
            let part = views(ws@).subrange(from as int, i + 1);
            assert(part.drop_last() == views(ws@).subrange(from as int, i as int));
            assert(part.last() == ws@[i as int]@);
            if i == from {
                assert(part.len() == 1);
                assert(out@ == part[0]);
            }
        }
        i = i + 1;
    }
    out
}

/// Split a command line: a leading `-d ` runs the command without waiting;
/// the first word names the command and the others, joined by blanks, are its
/// arguments.
pub fn execute_command(command_line: &Vec<u8>) -> (r: UserCommand)
    ensures
        ({
            let (detach, name, args) = parse_line(command_line@);
            command_matches(r, name, args, detach)
        }),
{
    let line = command_line.as_slice();
    let detach = line.len() >= 3 && line[0] == 0x2d && line[1] == 0x64 && line[2] == 0x20;
    proof {
        if command_line@.len() >= 3 {
            assert(detach == (command_line@.subrange(0, 3) == detach_prefix())) by {
                if command_line@.subrange(0, 3) == detach_prefix() {
                    assert(command_line@.subrange(0, 3)[0] == 0x2d);
                    assert(command_line@.subrange(0, 3)[1] == 0x64);
                    assert(command_line@.subrange(0, 3)[2] == 0x20);
                }
                if detach {
                    assert(command_line@.subrange(0, 3) =~= detach_prefix());
                }
            }
        }
    }
    let rest = if detach {
        let tail = crate::library::text::copy_range(line, 3, line.len());
        trim_bytes(tail.as_slice())
    } else {
        command_line.clone()
    };
    let parts = split_whitespace(rest.as_slice());
    let name = if parts.len() > 0 {
        parts[0].clone()
    } else {
        Vec::new()
    };
    let args = if parts.len() > 0 {
        join(&parts, 1)
    } else {
        Vec::new()
    };
    proof {
        if parts@.len() > 0 {
            assert(views(parts@)[0] == parts@[0]@);
            assert(views(parts@).subrange(1, parts@.len() as int) == views(parts@).drop_first());
        }
    }
    if equals_str(&name, "help") {
        UserCommand::Help
    } else if equals_str(&name, "clear") {
        UserCommand::Clear
    } else if equals_str(&name, "banner") {
        UserCommand::Banner
    } else if equals_str(&name, "history") {
        UserCommand::History
    } else if equals_str(&name, "vmas") {
        UserCommand::Vmas
    } else if equals_str(&name, "spinner") {
        UserCommand::Spinner
    } else if equals_str(&name, "reboot") {
        UserCommand::Reboot
    } else if equals_str(&name, "panic") {
        UserCommand::Panic
    } else if name.len() == 0 {
        UserCommand::Empty
    } else {
        UserCommand::Run { name, args, detach }
    }
}

/// The message for a command that no program answers.
pub fn not_found_message(command: &Vec<u8>) -> (r: Vec<u8>)
    ensures
        r@ == bytes_of("Error: Command not found '") + command@ + bytes_of("'"),
{
    let mut out: Vec<u8> = Vec::new();
    push_str(&mut out, "Error: Command not found '");
    push_bytes(&mut out, command.as_slice());
    push_str(&mut out, "'");
    assert(out@ == Seq::<u8>::empty() + bytes_of("Error: Command not found '") + command@ + bytes_of("'"));
    out
}

/// One line of the history listing: entry `index` (from 0) numbered from 1.
pub open spec fn history_line(index: int, entry: Seq<u8>) -> Seq<u8> {
    bytes_of("    ") + decimal((index + 1) as nat) + bytes_of(": ") + entry
}

/// The lines that list the history, numbered from 1.
pub fn history_lines(history: &Vec<Vec<u8>>) -> (r: Vec<Vec<u8>>)
    requires
        history@.len() < u64::MAX,
    ensures
        r@.len() == history@.len(),
        forall|i: int| 0 <= i < r@.len() ==> (#[trigger] r@[i])@ == history_line(i, history@[i]@),
{
    let mut out: Vec<Vec<u8>> = Vec::new();
    let mut i: usize = 0;
    while i < history.len()
        invariant
            i <= history@.len(),
            history@.len() < u64::MAX,
            out@.len() == i,
            forall|j: int| 0 <= j < i ==> (#[trigger] out@[j])@ == history_line(j, history@[j]@),
        decreases history@.len() - i,
    {
        let mut line: Vec<u8> = Vec::new();
        push_str(&mut line, "    ");
        push_decimal(&mut line, (i + 1) as u64);
        push_str(&mut line, ": ");
        push_bytes(&mut line, history[i].as_slice());
        assert(line@ == Seq::<u8>::empty() + bytes_of("    ") + decimal((i + 1) as nat) + bytes_of(
            ": ",
        ) + history@[i as int]@);
        out.push(line);
        i = i + 1;
    }
    out
}

/// The word of a built-in command of the user shell (none for the others).
pub open spec fn builtin_word(c: UserCommand) -> Seq<u8> {
    match c {
        UserCommand::Help => bytes_of("help"),
        UserCommand::Clear => bytes_of("clear"),
        UserCommand::Banner => bytes_of("banner"),
        UserCommand::History => bytes_of("history"),
        UserCommand::Vmas => bytes_of("vmas"),
        UserCommand::Spinner => bytes_of("spinner"),
        UserCommand::Reboot => bytes_of("reboot"),
        UserCommand::Panic => bytes_of("panic"),
        _ => Seq::empty(),
    }
}

/// `c` is a built-in command of the user shell, not an empty line or a program to run.
pub open spec fn is_builtin(c: UserCommand) -> bool {
    !(c is Empty) && !(c is Run)
}

/// The bytes of the words of the built-in commands.
proof fn lemma_builtin_word_bytes()
    ensures
        bytes_of("help").len() == 4,
        bytes_of("help")[0] == 104,
        bytes_of("help")[1] == 101,
        bytes_of("help")[2] == 108,
        bytes_of("help")[3] == 112,
        bytes_of("clear").len() == 5,
        bytes_of("clear")[0] == 99,
        bytes_of("clear")[1] == 108,
        bytes_of("clear")[2] == 101,
        bytes_of("clear")[3] == 97,
        bytes_of("clear")[4] == 114,
        bytes_of("banner").len() == 6,
        bytes_of("banner")[0] == 98,
        bytes_of("banner")[1] == 97,
        bytes_of("banner")[2] == 110,
        bytes_of("banner")[3] == 110,
        bytes_of("banner")[4] == 101,
        bytes_of("banner")[5] == 114,
        bytes_of("history").len() == 7,
        bytes_of("history")[0] == 104,
        bytes_of("history")[1] == 105,
        bytes_of("history")[2] == 115,
        bytes_of("history")[3] == 116,
        bytes_of("history")[4] == 111,
        bytes_of("history")[5] == 114,
        bytes_of("history")[6] == 121,
        bytes_of("vmas").len() == 4,
        bytes_of("vmas")[0] == 118,
        bytes_of("vmas")[1] == 109,
        bytes_of("vmas")[2] == 97,
        bytes_of("vmas")[3] == 115,
        bytes_of("spinner").len() == 7,
        bytes_of("spinner")[0] == 115,
        bytes_of("spinner")[1] == 112,
        bytes_of("spinner")[2] == 105,
        bytes_of("spinner")[3] == 110,
        bytes_of("spinner")[4] == 110,
        bytes_of("spinner")[5] == 101,
        bytes_of("spinner")[6] == 114,
        bytes_of("reboot").len() == 6,
        bytes_of("reboot")[0] == 114,
        bytes_of("reboot")[1] == 101,
        bytes_of("reboot")[2] == 98,
        bytes_of("reboot")[3] == 111,
        bytes_of("reboot")[4] == 111,
        bytes_of("reboot")[5] == 116,
        bytes_of("panic").len() == 5,
        bytes_of("panic")[0] == 112,
        bytes_of("panic")[1] == 97,
        bytes_of("panic")[2] == 110,
        bytes_of("panic")[3] == 105,
        bytes_of("panic")[4] == 99,
{
    broadcast use vstd::string::is_ascii_spec_bytes;

    reveal_strlit("help");
    assert(vstd::string::is_ascii("help"));
    reveal_strlit("clear");
    assert(vstd::string::is_ascii("clear"));
    reveal_strlit("banner");
    assert(vstd::string::is_ascii("banner"));
    reveal_strlit("history");
    assert(vstd::string::is_ascii("history"));
    reveal_strlit("vmas");
    assert(vstd::string::is_ascii("vmas"));
    reveal_strlit("spinner");
    assert(vstd::string::is_ascii("spinner"));
    reveal_strlit("reboot");
    assert(vstd::string::is_ascii("reboot"));
    reveal_strlit("panic");
    assert(vstd::string::is_ascii("panic"));
}

/// Each built-in command of the user shell answers to its own word and to no
/// other, whatever the arguments and the launch mode: `banner` prints the
/// banner, `clear` clears the screen, and so on, and no two words select the
/// same command.
pub proof fn law_builtin_words(c: UserCommand, name: Seq<u8>, args: Seq<u8>, detach: bool)
    requires
        is_builtin(c),
    ensures
        command_for(name, args, detach) == c <==> name == builtin_word(c),
{
    lemma_builtin_word_bytes();
}

/// A command line whose command word is that of a built-in command yields that
/// command, with or without a leading `-d`.
pub proof fn law_builtin_line(r: UserCommand, line: Seq<u8>, c: UserCommand)
    requires
        is_builtin(c),
        ({
            let (detach, name, args) = parse_line(line);
            command_matches(r, name, args, detach)
        }),
        parse_line(line).1 == builtin_word(c),
    ensures
        r == c,
{
    let (detach, name, args) = parse_line(line);
    law_builtin_words(c, name, args, detach);
}

/// A command word that names no built-in command starts the program of that
/// name, in the launch mode asked for; no word at all is an empty line.
pub proof fn law_other_words_run_programs(name: Seq<u8>, args: Seq<u8>, detach: bool)
    ensures
        command_for(name, args, detach) is Empty <==> name.len() == 0,
        command_for(name, args, detach) is Run <==> name.len() > 0 && forall|c: UserCommand|
            is_builtin(c) ==> name != #[trigger] builtin_word(c),
        command_for(name, args, detach) matches UserCommand::Run { detach: d, .. } ==> d == detach,
{
    lemma_builtin_word_bytes();
    if name.len() > 0 && !(command_for(name, args, detach) is Run) {
        let c = command_for(name, args, detach);
        assert(is_builtin(c));
        law_builtin_words(c, name, args, detach);
    }
}

/// A command line runs its command without waiting exactly when it starts with
/// `-d` and a blank.
pub proof fn law_detach_prefix(line: Seq<u8>)
    ensures
        parse_line(line).0 <==> line.len() >= 3 && line.subrange(0, 3) == bytes_of("-d "),
{
    broadcast use vstd::string::is_ascii_spec_bytes;

    reveal_strlit("-d ");
    assert(vstd::string::is_ascii("-d "));
    assert(bytes_of("-d ") =~= detach_prefix());
}

} // verus!
