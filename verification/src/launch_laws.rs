//! What holds of how the daemon of a session is started.

use vstd::prelude::*;

use crate::launch::{Course, Occurrence};
use crate::sys::Fork;

verus! {

/// A session runs exactly the command that was asked for, argument by argument. Without a
/// command it runs the user's shell alone, or `/bin/sh` where the user has none.
pub proof fn the_program_of_a_session(command: Seq<Seq<u8>>, shell: Option<Seq<u8>>)
    ensures
        ({
            let program = crate::launch::program_of(command, shell);
            &&& command.len() > 0 ==> program.len() == command.len() && forall|i: int|
                0 <= i < command.len() ==> (#[trigger] program[i]) == command[i]
            &&& command.len() == 0 ==> program.len() == 1
            &&& command.len() == 0 && shell is Some && shell->0.len() > 0 ==> program[0]
                == shell->0
            &&& command.len() == 0 && (shell is None || shell->0.len() == 0) ==> program[0] == seq![
                47u8,
                98,
                105,
                110,
                47,
                115,
                104,
            ]
        }),
{
    reveal_strlit("/bin/sh");
    vstd::utf8::is_ascii_chars_encode_utf8("/bin/sh"@);
    let path = vstd::utf8::encode_utf8("/bin/sh"@);
    assert(path == seq![47u8, 98, 105, 110, 47, 115, 104]) by {
        assert forall|i: int| 0 <= i < 7 implies #[trigger] path[i] == "/bin/sh"@[i] as u8 by {}
    }
}

/// Once the socket is there, the command is started as it was asked for, all of it; only a
/// NUL byte in it stops that.
pub proof fn the_command_is_started_whole(
    name: Seq<char>,
    command: Seq<Seq<u8>>,
    shell: Option<Seq<u8>>,
)
    requires
        command.len() > 0,
    ensures
        (forall|i: int| 0 <= i < command.len() ==> !(#[trigger] command[i]).contains(0))
            ==> crate::launch::launched(name, command, shell, Occurrence::Bound) == Course::Pipe(
            command,
        ),
        (exists|i: int| 0 <= i < command.len() && (#[trigger] command[i]).contains(0))
            ==> crate::launch::launched(name, command, shell, Occurrence::Bound) == Course::Return(
            Err("command contains a NUL byte"@),
        ),
{
    if forall|i: int| 0 <= i < command.len() ==> !(#[trigger] command[i]).contains(0) {
        assert forall|i: int, j: int|
            0 <= i < command.len() && 0 <= j < command[i].len() implies command[i][j] != 0 by {
            assert(!command[i].contains(0));
            assert(command[i].contains(command[i][j]));
        }
    }
    if exists|i: int| 0 <= i < command.len() && (#[trigger] command[i]).contains(0) {
        let i = choose|i: int| 0 <= i < command.len() && (#[trigger] command[i]).contains(0);
        let j = choose|j: int| 0 <= j < command[i].len() && command[i][j] == 0;
        assert(command[i][j] == 0);
    }
}

/// Without a command the shell is started, unless its path has a NUL byte.
pub proof fn the_shell_is_started(name: Seq<char>, shell: Seq<u8>)
    requires
        shell.len() > 0,
    ensures
        !shell.contains(0) ==> crate::launch::launched(
            name,
            Seq::empty(),
            Some(shell),
            Occurrence::Bound,
        ) == Course::Pipe(seq![shell]),
        shell.contains(0) ==> crate::launch::launched(
            name,
            Seq::empty(),
            Some(shell),
            Occurrence::Bound,
        ) == Course::Return(Err("command contains a NUL byte"@)),
{
    let program = crate::launch::program_of(Seq::empty(), Some(shell));
    assert(program == seq![shell]);
    assert(program[0] == shell);
    if !shell.contains(0) {
        assert forall|i: int, j: int|
            0 <= i < program.len() && 0 <= j < program[i].len() implies program[i][j] != 0 by {
            assert(shell.contains(shell[j]));
        }
    } else {
        let j = choose|j: int| 0 <= j < shell.len() && shell[j] == 0;
        assert(program[0][j] == 0);
    }
}

/// The way of the process that asks for a session, whatever the session: from the socket by
/// way of the report to the result. Every failure on the way is what starting the session
/// fails with, and a report is one exactly if it is not empty.
pub proof fn the_way_of_whoever_asks(
    name: Seq<char>,
    command: Seq<Seq<u8>>,
    shell: Option<Seq<u8>>,
    pid: i32,
    text: Seq<char>,
    path: Seq<char>,
)
    ensures
        crate::launch::launched(name, command, shell, Occurrence::Located(Ok(()))) == Course::Bind,
        crate::launch::launched(name, command, shell, Occurrence::Piped(Ok(()))) == Course::Fork,
        crate::launch::launched(name, command, shell, Occurrence::Forked(Ok(Fork::Parent(pid))))
            == Course::Wait(pid),
        crate::launch::launched(name, command, shell, Occurrence::Waited(Ok(())))
            == Course::ReadReport,
        crate::launch::launched(name, command, shell, Occurrence::Reported(Ok(Seq::empty())))
            == Course::Return(Ok(())),
        text.len() > 0 ==> crate::launch::launched(
            name,
            command,
            shell,
            Occurrence::Reported(Ok(text)),
        ) == Course::Return(Err(text)),
        crate::launch::launched(name, command, shell, Occurrence::NameTaken) == Course::Return(
            Err("session "@ + name + " already exists"@),
        ),
        crate::launch::launched(
            name,
            command,
            shell,
            (Occurrence::BindFailed { shown: path, error: text }),
        ) == Course::Return(Err(path + ": "@ + text)),
        crate::launch::launched(name, command, shell, Occurrence::Located(Err(text)))
            == Course::Return(Err(text)),
        crate::launch::launched(name, command, shell, Occurrence::Piped(Err(text)))
            == Course::Return(Err(text)),
        crate::launch::launched(name, command, shell, Occurrence::Forked(Err(text)))
            == Course::Return(Err(text)),
        crate::launch::launched(name, command, shell, Occurrence::Waited(Err(text)))
            == Course::Return(Err(text)),
        crate::launch::launched(name, command, shell, Occurrence::Reported(Err(text)))
            == Course::Return(Err(text)),
{
}

/// The way of the daemon, whatever the session: it leaves the process that was waited for,
/// starts the program, serves, and ends with 0 if it served well and 1 if not. Where it does
/// not come so far, it reports why.
pub proof fn the_way_of_the_daemon(
    name: Seq<char>,
    command: Seq<Seq<u8>>,
    shell: Option<Seq<u8>>,
    pid: i32,
    text: Seq<char>,
)
    ensures
        crate::launch::launched(name, command, shell, Occurrence::Forked(Ok(Fork::Child)))
            == Course::Daemonize,
        crate::launch::launched(
            name,
            command,
            shell,
            Occurrence::Daemonized(Ok(Fork::Parent(pid))),
        ) == Course::Exit(0),
        crate::launch::launched(name, command, shell, Occurrence::Daemonized(Ok(Fork::Child)))
            == Course::Start,
        crate::launch::launched(name, command, shell, Occurrence::Started(Ok(())))
            == Course::Serve,
        crate::launch::launched(name, command, shell, Occurrence::Served(true)) == Course::Leave(0),
        crate::launch::launched(name, command, shell, Occurrence::Served(false)) == Course::Leave(
            1,
        ),
        crate::launch::launched(name, command, shell, Occurrence::Daemonized(Err(text)))
            == Course::ReportAndExit(text),
        crate::launch::launched(name, command, shell, Occurrence::Started(Err(text)))
            == Course::ReportAndExit(text),
{
}

/// What is reported of a program that cannot be run names the program and the error.
pub proof fn unrunnable_programs(shown: Seq<char>, error: Seq<char>)
    ensures
        crate::launch::unrunnable(shown, error) == "cannot run "@ + shown + ": "@ + error,
{
}

} // verus!
