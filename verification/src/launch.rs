//! How the daemon of a session is started.
//!
//! Starting one takes a socket, a pipe for a report, and two forks; the process that
//! asked for the session waits until the program runs or the report says why it does not.

use vstd::prelude::*;
use vstd::slice::slice_to_vec;

use crate::sys::Fork;
use crate::text::{enclosed, lossy_text};

verus! {

/// A session to be started.
#[derive(Debug, PartialEq, Eq)]
pub struct Launch {
    pub name: String,
    pub command: Vec<Vec<u8>>,
    pub rows: u16,
    pub cols: u16,
}

/// What has happened on the way to a new session.
#[derive(Debug, PartialEq, Eq)]
pub enum Happened {
    /// The directory of the sockets was looked for.
    Located(Result<(), String>),
    /// The socket of the session is there, and listened on.
    Bound,
    /// There is a socket of that name already.
    NameTaken,
    /// There is no socket, for the reason given; `shown` is its path.
    BindFailed { shown: String, error: String },
    /// The pipe for the report was opened.
    Piped(Result<(), String>),
    /// This process was forked.
    Forked(Result<Fork, String>),
    /// The child process was waited for.
    Waited(Result<(), String>),
    /// The report was read.
    Reported(Result<String, String>),
    /// The child process was moved into a session of its own and forked.
    Daemonized(Result<Fork, String>),
    /// The program was started on a terminal of its own.
    Started(Result<(), String>),
    /// The daemon has come to its end, well or not.
    Served(bool),
}

/// What [`Happened`] says.
#[verifier::ext_equal]
pub enum Occurrence {
    Located(Result<(), Seq<char>>),
    Bound,
    NameTaken,
    BindFailed { shown: Seq<char>, error: Seq<char> },
    Piped(Result<(), Seq<char>>),
    Forked(Result<Fork, Seq<char>>),
    Waited(Result<(), Seq<char>>),
    Reported(Result<Seq<char>, Seq<char>>),
    Daemonized(Result<Fork, Seq<char>>),
    Started(Result<(), Seq<char>>),
    Served(bool),
}

impl View for Happened {
    type V = Occurrence;

    open spec fn view(&self) -> Occurrence {
        match *self {
            Happened::Located(result) => Occurrence::Located(crate::text::outcome(result)),
            Happened::Bound => Occurrence::Bound,
            Happened::NameTaken => Occurrence::NameTaken,
            Happened::BindFailed { shown, error } => Occurrence::BindFailed {
                shown: shown@,
                error: error@,
            },
            Happened::Piped(result) => Occurrence::Piped(crate::text::outcome(result)),
            Happened::Forked(result) => Occurrence::Forked(crate::text::outcome(result)),
            Happened::Waited(result) => Occurrence::Waited(crate::text::outcome(result)),
            Happened::Reported(result) => Occurrence::Reported(
                match result {
                    Ok(report) => Ok(report@),
                    Err(text) => Err(text@),
                },
            ),
            Happened::Daemonized(result) => Occurrence::Daemonized(crate::text::outcome(result)),
            Happened::Started(result) => Occurrence::Started(crate::text::outcome(result)),
            Happened::Served(well) => Occurrence::Served(well),
        }
    }
}

/// What to do next on the way to a new session.
#[derive(Debug, PartialEq, Eq)]
pub enum Next {
    /// Bind the socket of the session and listen on it.
    Bind,
    /// Open the pipe for the report. This is the program to run, with its arguments.
    Pipe(Vec<Vec<u8>>),
    /// Fork.
    Fork,
    /// Let go of the socket and of the pipe's writing end, and wait for this process.
    Wait(i32),
    /// Read the report to its end.
    ReadReport,
    /// Let go of the pipe's reading end, begin a session of processes, and fork.
    Daemonize,
    /// Start the program on a terminal of its own.
    Start,
    /// Let go of the pipe's writing end, and be the daemon.
    Serve,
    /// That is what starting the session comes to.
    Return(Result<(), String>),
    /// End this process, and nothing else.
    Exit(i32),
    /// Remove the socket, write this report, and end this process with status 1.
    ReportAndExit(String),
    /// Remove the socket, and end this process.
    Leave(i32),
}

/// What [`Next`] says.
#[verifier::ext_equal]
pub enum Course {
    Bind,
    Pipe(Seq<Seq<u8>>),
    Fork,
    Wait(i32),
    ReadReport,
    Daemonize,
    Start,
    Serve,
    Return(Result<(), Seq<char>>),
    Exit(i32),
    ReportAndExit(Seq<char>),
    Leave(i32),
}

impl View for Next {
    type V = Course;

    open spec fn view(&self) -> Course {
        match *self {
            Next::Bind => Course::Bind,
            Next::Pipe(program) => Course::Pipe(crate::cli::arg_views(program@)),
            Next::Fork => Course::Fork,
            Next::Wait(pid) => Course::Wait(pid),
            Next::ReadReport => Course::ReadReport,
            Next::Daemonize => Course::Daemonize,
            Next::Start => Course::Start,
            Next::Serve => Course::Serve,
            Next::Return(result) => Course::Return(crate::text::outcome(result)),
            Next::Exit(code) => Course::Exit(code),
            Next::ReportAndExit(report) => Course::ReportAndExit(report@),
            Next::Leave(code) => Course::Leave(code),
        }
    }
}

/// The program that a session runs, with its arguments: the command, or the user's shell
/// where there is none.
pub open spec fn program_of(command: Seq<Seq<u8>>, shell: Option<Seq<u8>>) -> Seq<Seq<u8>> {
    if command.len() > 0 {
        command
    } else {
        match shell {
            Some(shell) if shell.len() > 0 => seq![shell],
            _ => seq![vstd::utf8::encode_utf8("/bin/sh"@)],
        }
    }
}

/// Whether no argument has a NUL byte in it.
pub open spec fn without_nul(program: Seq<Seq<u8>>) -> bool {
    forall|i: int, j: int| 0 <= i < program.len() && 0 <= j < program[i].len() ==> program[i][j] != 0
}

/// The bytes of the user's shell.
pub open spec fn shell_view(shell: Option<Vec<u8>>) -> Option<Seq<u8>> {
    match shell {
        Some(shell) => Some(shell@),
        None => None,
    }
}

fn has_nul(arg: &Vec<u8>) -> (found: bool)
    ensures
        found == exists|j: int| 0 <= j < arg@.len() && arg@[j] == 0,
{
    let mut i: usize = 0;
    while i < arg.len()
        invariant
            i <= arg.len(),
            forall|j: int| 0 <= j < i ==> arg@[j] != 0,
        decreases arg.len() - i,
    {
        if arg[i] == 0 {
            return true;
        }
        i += 1;
    }
    false
}

fn copied(args: &Vec<Vec<u8>>) -> (copy: Vec<Vec<u8>>)
    ensures
        crate::cli::arg_views(copy@) == crate::cli::arg_views(args@),
{
    let mut copy: Vec<Vec<u8>> = Vec::new();
    let mut i: usize = 0;
    while i < args.len()
        invariant
            i <= args.len(),
            copy@.len() == i,
            forall|j: int| 0 <= j < i ==> (#[trigger] copy@[j])@ == args@[j]@,
        decreases args.len() - i,
    {
        copy.push(slice_to_vec(args[i].as_slice()));
        i += 1;
    }
    assert(crate::cli::arg_views(copy@) == crate::cli::arg_views(args@));
    copy
}

/// The program that a session runs, with its arguments.
pub fn command_line(command: &Vec<Vec<u8>>, shell: Option<Vec<u8>>) -> (result: Result<
    Vec<Vec<u8>>,
    String,
>)
    ensures
        ({
            let program = program_of(crate::cli::arg_views(command@), shell_view(shell));
            match result {
                Ok(args) => without_nul(program) && crate::cli::arg_views(args@) == program,
                Err(text) => !without_nul(program) && text@ == "command contains a NUL byte"@,
            }
        }),
{
    let ghost wanted = program_of(crate::cli::arg_views(command@), shell_view(shell));
    let mut program: Vec<Vec<u8>> = Vec::new();
    if command.len() > 0 {
        program = copied(command);
    } else {
        let mut path = slice_to_vec("/bin/sh".as_bytes());
        if let Some(shell) = shell {
            if shell.len() > 0 {
                path = shell;
            }
        }
        program.push(path);
    }
    assert(crate::cli::arg_views(program@) == wanted);
    let mut i: usize = 0;
    while i < program.len()
        invariant
            i <= program.len(),
            wanted == program_of(crate::cli::arg_views(command@), shell_view(shell)),
            crate::cli::arg_views(program@) == wanted,
            forall|k: int, j: int|
                0 <= k < i && 0 <= j < wanted[k].len() ==> (#[trigger] wanted[k][j]) != 0,
        decreases program.len() - i,
    {
        assert(wanted[i as int] == program@[i as int]@);
        if has_nul(&program[i]) {
            return Err("command contains a NUL byte".to_owned());
        }
        i += 1;
    }
    Ok(program)
}

/// What is reported when a program that is shown like this cannot be run.
pub open spec fn unrunnable(shown: Seq<char>, error: Seq<char>) -> Seq<char> {
    "cannot run "@ + shown + ": "@ + error
}

/// What is reported when a program that is shown like this cannot be run.
pub fn run_failure(shown: &str, error: &str) -> (message: String)
    ensures
        message@ == unrunnable(shown@, error@),
{
    let mut message = enclosed("cannot run ", shown, ": ");
    message.append(error);
    message
}

/// What is reported when a program cannot be run.
pub fn cannot_run(program: &[u8], error: &str) -> (message: String)
    ensures
        message@ == unrunnable(crate::text::lossy(program@), error@),
{
    run_failure(lossy_text(program).as_str(), error)
}

/// What a report says: all is well if it is empty.
pub fn reported(report: String) -> (result: Result<(), String>)
    ensures
        crate::text::outcome(result) == if report@.len() == 0 { Ok(()) } else { Err(report@) },
{
    proof {
        vstd::utf8::encode_utf8_decode_utf8(report@);
    }
    if report.as_str().as_bytes().len() == 0 {
        assert(vstd::utf8::encode_utf8(report@) == Seq::<u8>::empty());
        Ok(())
    } else {
        Err(report)
    }
}

/// What to do next on the way to the session `name`, with `command` to run in it, once
/// this has happened.
pub open spec fn launched(
    name: Seq<char>,
    command: Seq<Seq<u8>>,
    shell: Option<Seq<u8>>,
    happened: Occurrence,
) -> Course {
    match happened {
        Occurrence::Located(Ok(())) => Course::Bind,
        Occurrence::Bound => {
            let program = program_of(command, shell);
            if without_nul(program) {
                Course::Pipe(program)
            } else {
                Course::Return(Err("command contains a NUL byte"@))
            }
        },
        Occurrence::NameTaken => Course::Return(
            Err("session "@ + name + " already exists"@),
        ),
        Occurrence::BindFailed { shown, error } => Course::Return(Err(shown + ": "@ + error)),
        Occurrence::Piped(Ok(())) => Course::Fork,
        Occurrence::Forked(Ok(Fork::Parent(pid))) => Course::Wait(pid),
        Occurrence::Waited(Ok(())) => Course::ReadReport,
        Occurrence::Reported(Ok(report)) => if report.len() == 0 {
            Course::Return(Ok(()))
        } else {
            Course::Return(Err(report))
        },
        Occurrence::Forked(Ok(Fork::Child)) => Course::Daemonize,
        Occurrence::Daemonized(Ok(Fork::Parent(_))) => Course::Exit(0),
        Occurrence::Daemonized(Ok(Fork::Child)) => Course::Start,
        Occurrence::Started(Ok(())) => Course::Serve,
        Occurrence::Served(well) => Course::Leave(
            if well {
                0
            } else {
                1
            },
        ),
        Occurrence::Located(Err(text)) => Course::Return(Err(text)),
        Occurrence::Piped(Err(text)) => Course::Return(Err(text)),
        Occurrence::Forked(Err(text)) => Course::Return(Err(text)),
        Occurrence::Waited(Err(text)) => Course::Return(Err(text)),
        Occurrence::Reported(Err(text)) => Course::Return(Err(text)),
        Occurrence::Daemonized(Err(text)) => Course::ReportAndExit(text),
        Occurrence::Started(Err(text)) => Course::ReportAndExit(text),
    }
}

/// What to do next on the way to a new session. `shell` is the user's shell, as the
/// environment names it.
pub fn launch(wanted: &Launch, shell: Option<Vec<u8>>, happened: Happened) -> (next: Next)
    ensures
        next@ == launched(
            wanted.name@,
            crate::cli::arg_views(wanted.command@),
            shell_view(shell),
            happened@,
        ),
{
    match happened {
        Happened::Located(Ok(())) => Next::Bind,
        Happened::Bound => match command_line(&wanted.command, shell) {
            Ok(program) => Next::Pipe(program),
            Err(text) => Next::Return(Err(text)),
        },
        Happened::NameTaken => {
            let mut text = "session ".to_owned();
            text.append(wanted.name.as_str());
            text.append(" already exists");
            Next::Return(Err(text))
        },
        Happened::BindFailed { shown, error } => {
            let mut text = shown;
            text.append(": ");
            text.append(error.as_str());
            Next::Return(Err(text))
        },
        Happened::Piped(Ok(())) => Next::Fork,
        Happened::Forked(Ok(Fork::Parent(pid))) => Next::Wait(pid),
        Happened::Waited(Ok(())) => Next::ReadReport,
        Happened::Reported(Ok(report)) => Next::Return(reported(report)),
        Happened::Forked(Ok(Fork::Child)) => Next::Daemonize,
        Happened::Daemonized(Ok(Fork::Parent(_))) => Next::Exit(0),
        Happened::Daemonized(Ok(Fork::Child)) => Next::Start,
        Happened::Started(Ok(())) => Next::Serve,
        Happened::Served(well) => Next::Leave(
            if well {
                0
            } else {
                1
            },
        ),
        Happened::Located(Err(text)) => Next::Return(Err(text)),
        Happened::Piped(Err(text)) => Next::Return(Err(text)),
        Happened::Forked(Err(text)) => Next::Return(Err(text)),
        Happened::Waited(Err(text)) => Next::Return(Err(text)),
        Happened::Reported(Err(text)) => Next::Return(Err(text)),
        Happened::Daemonized(Err(text)) => Next::ReportAndExit(text),
        Happened::Started(Err(text)) => Next::ReportAndExit(text),
    }
}

/// A failure in the daemon before the program runs reaches whoever asked for the session:
/// what the daemon reports before it ends, without leaving a socket behind, is what
/// starting the session fails with.
pub proof fn failure_is_reported(
    name: Seq<char>,
    command: Seq<Seq<u8>>,
    shell: Option<Seq<u8>>,
    text: Seq<char>,
)
    requires
        text.len() > 0,
    ensures
        launched(name, command, shell, Occurrence::Started(Err(text))) == Course::ReportAndExit(
            text,
        ),
        launched(name, command, shell, Occurrence::Daemonized(Err(text))) == Course::ReportAndExit(
            text,
        ),
        launched(name, command, shell, Occurrence::Reported(Ok(text))) == Course::Return(Err(text)),
{
}

} // verus!
