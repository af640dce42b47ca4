//! What `boop` does for whoever calls it, up to the point where a terminal is attached.
//!
//! Each function here says what to do next; whoever does it comes back with what came of
//! it to the function that is named there.

use vstd::prelude::*;

use crate::cli::{key_name, session_name, Action, DEFAULT_SESSION, USAGE};
use crate::protocol::{Decoder, Message, VERSION};
use crate::relay::Outcome;
use crate::text::{enclosed, joined, push_signed, same_text};

verus! {

/// The size of a terminal that does not tell its own.
pub const DEFAULT_SIZE: (u16, u16) = (24, 80);

/// The version of this program.
pub const RELEASE: &'static str = "0.1.0";

/// Why a session is connected to.
#[derive(Debug, PartialEq, Eq)]
pub enum Purpose {
    /// To attach to it if it runs, and else to start it with this command.
    Open(Vec<Vec<u8>>),
    /// To attach to it.
    Attach,
    /// To attach to it, now that it was started.
    Started,
    /// To detach every terminal from it.
    Disconnect,
}

/// What to do next.
#[derive(Debug, PartialEq, Eq)]
pub enum Step {
    /// Print this, and end well.
    Print(String),
    /// Fail for this reason.
    Fail(String),
    /// List the sessions that run; [`listing`] goes on.
    List,
    /// List the sessions that run; [`auto`] goes on.
    Choose,
    /// Find out whether standard input is a terminal; [`opened`] goes on.
    Open { session: String, command: Vec<Vec<u8>> },
    /// Connect to the session; [`connected`] goes on.
    Connect { session: String, purpose: Purpose },
    /// Start the session; [`launched`] goes on.
    Launch { session: String, command: Vec<Vec<u8>> },
    /// Attach the terminal to the session that is connected. `started` says whether it was
    /// started for that.
    Attach { session: String, started: bool },
    /// Ask the session that is connected to detach every terminal.
    Disconnect { session: String },
}

/// What a [`Purpose`] says.
#[verifier::ext_equal]
pub enum Aim {
    Open(Seq<Seq<u8>>),
    Attach,
    Started,
    Disconnect,
}

/// What a [`Step`] says.
#[verifier::ext_equal]
pub enum Move {
    Print(Seq<char>),
    Fail(Seq<char>),
    List,
    Choose,
    Open { session: Seq<char>, command: Seq<Seq<u8>> },
    Connect { session: Seq<char>, purpose: Aim },
    Launch { session: Seq<char>, command: Seq<Seq<u8>> },
    Attach { session: Seq<char>, started: bool },
    Disconnect { session: Seq<char> },
}

impl View for Purpose {
    type V = Aim;

    open spec fn view(&self) -> Aim {
        match *self {
            Purpose::Open(command) => Aim::Open(crate::cli::arg_views(command@)),
            Purpose::Attach => Aim::Attach,
            Purpose::Started => Aim::Started,
            Purpose::Disconnect => Aim::Disconnect,
        }
    }
}

impl View for Step {
    type V = Move;

    open spec fn view(&self) -> Move {
        match *self {
            Step::Print(text) => Move::Print(text@),
            Step::Fail(text) => Move::Fail(text@),
            Step::List => Move::List,
            Step::Choose => Move::Choose,
            Step::Open { session, command } => Move::Open {
                session: session@,
                command: crate::cli::arg_views(command@),
            },
            Step::Connect { session, purpose } => Move::Connect {
                session: session@,
                purpose: purpose@,
            },
            Step::Launch { session, command } => Move::Launch {
                session: session@,
                command: crate::cli::arg_views(command@),
            },
            Step::Attach { session, started } => Move::Attach { session: session@, started },
            Step::Disconnect { session } => Move::Disconnect { session: session@ },
        }
    }
}

/// The session that this runs in, or why there is none.
pub open spec fn inside(current: Option<Seq<char>>) -> Result<Seq<char>, Seq<char>> {
    match current {
        None => Err("not inside a session"@),
        Some(name) => if crate::cli::valid_name(name) {
            Ok(name)
        } else {
            Err("BOOP_SESSION: "@ + crate::cli::invalid_name(name))
        },
    }
}

/// What to do to open a session: nobody opens the one they are in.
pub open spec fn opening(
    session: Seq<char>,
    command: Seq<Seq<u8>>,
    current: Option<Seq<char>>,
) -> Move {
    if current == Some(session) {
        Move::Fail("already inside session "@ + session)
    } else {
        Move::Open { session, command }
    }
}

/// What to do first for what is asked.
pub open spec fn first_move(action: crate::cli::Request, current: Option<Seq<char>>) -> Move {
    match action {
        crate::cli::Request::Auto => Move::Choose,
        crate::cli::Request::Open { session, command } => opening(session, command, current),
        crate::cli::Request::Attach { session } => if current == Some(session) {
            Move::Fail("already inside session "@ + session)
        } else {
            Move::Connect { session, purpose: Aim::Attach }
        },
        crate::cli::Request::Disconnect { session } => Move::Connect {
            session,
            purpose: Aim::Disconnect,
        },
        crate::cli::Request::DisconnectCurrent => match inside(current) {
            Ok(session) => Move::Connect { session, purpose: Aim::Disconnect },
            Err(reason) => Move::Fail(reason),
        },
        crate::cli::Request::List => Move::List,
        crate::cli::Request::Status => match inside(current) {
            Ok(session) => Move::Print(session + "\n"@),
            Err(reason) => Move::Fail(reason),
        },
        crate::cli::Request::Help => Move::Print(USAGE@),
        crate::cli::Request::Version => Move::Print("boop "@ + RELEASE@ + "\n"@),
    }
}

/// The session that this runs in, by what the environment says, or why there is none.
pub fn current_session(current: Option<String>) -> (result: Result<String, String>)
    ensures
        match result {
            Ok(name) => inside(crate::cli::option_text(current)) == Ok::<Seq<char>, Seq<char>>(name@),
            Err(reason) => inside(crate::cli::option_text(current)) == Err::<Seq<char>, Seq<char>>(reason@),
        },
{
    match current {
        None => Err("not inside a session".to_owned()),
        Some(name) => match session_name(name) {
            Ok(name) => Ok(name),
            Err(reason) => Err(joined("BOOP_SESSION: ", reason.as_str())),
        },
    }
}

/// Refuses a session that this runs in.
pub fn refuse_nesting(session: &str, current: &Option<String>) -> (result: Result<(), String>)
    ensures
        match result {
            Ok(()) => crate::cli::option_text(*current) != Some(session@),
            Err(reason) => crate::cli::option_text(*current) == Some(session@) && reason@
                == "already inside session "@ + session@,
        },
{
    if let Some(name) = current {
        if same_text(name.as_str(), session) {
            return Err(joined("already inside session ", session));
        }
    }
    Ok(())
}

/// Refuses standard input that is no terminal.
pub fn require_terminal(is_terminal: bool) -> (result: Result<(), String>)
    ensures
        match result {
            Ok(()) => is_terminal,
            Err(reason) => !is_terminal && reason@ == "standard input is not a terminal"@,
        },
{
    if is_terminal {
        Ok(())
    } else {
        Err("standard input is not a terminal".to_owned())
    }
}

/// What to do first for what is asked. `current` is what the environment says of the
/// session that this runs in.
pub fn run(action: Action, current: Option<String>) -> (step: Step)
    ensures
        step@ == first_move(action@, crate::cli::option_text(current)),
{
    match action {
        Action::Auto => Step::Choose,
        Action::Open { session, command } => open(session, command, &current),
        Action::Attach { session } => match refuse_nesting(session.as_str(), &current) {
            Ok(()) => Step::Connect { session, purpose: Purpose::Attach },
            Err(reason) => Step::Fail(reason),
        },
        Action::Disconnect { session } => Step::Connect { session, purpose: Purpose::Disconnect },
        Action::DisconnectCurrent => match current_session(current) {
            Ok(session) => Step::Connect { session, purpose: Purpose::Disconnect },
            Err(reason) => Step::Fail(reason),
        },
        Action::List => Step::List,
        Action::Status => match current_session(current) {
            Ok(session) => Step::Print(joined(session.as_str(), "\n")),
            Err(reason) => Step::Fail(reason),
        },
        Action::Help => Step::Print(USAGE.to_owned()),
        Action::Version => Step::Print(enclosed("boop ", RELEASE, "\n")),
    }
}

/// Names with something between and behind them.
pub open spec fn each_followed(names: Seq<Seq<char>>, by: Seq<char>) -> Seq<char>
    decreases names.len(),
{
    if names.len() == 0 {
        Seq::empty()
    } else {
        each_followed(names.drop_last(), by) + names.last() + by
    }
}

/// Names with something between them.
pub open spec fn listed_with(names: Seq<Seq<char>>, between: Seq<char>) -> Seq<char> {
    if names.len() == 0 {
        Seq::empty()
    } else {
        each_followed(names.drop_last(), between) + names.last()
    }
}

fn push_each(out: &mut String, names: &Vec<String>, count: usize, by: &str)
    requires
        count <= names@.len(),
    ensures
        final(out)@ == old(out)@ + each_followed(
            crate::sessions::name_views(names@.take(count as int)),
            by@,
        ),
{
    let mut i: usize = 0;
    let ghost views = crate::sessions::name_views(names@);
    assert(views.take(0) == Seq::<Seq<char>>::empty());
    while i < count
        invariant
            i <= count <= names.len(),
            views == crate::sessions::name_views(names@),
            out@ == old(out)@ + each_followed(views.take(i as int), by@),
        decreases count - i,
    {
        out.append(names[i].as_str());
        out.append(by);
        i += 1;
        assert(views.take(i as int).drop_last() == views.take(i - 1));
        assert(out@ == old(out)@ + each_followed(views.take(i as int), by@));
    }
    assert(views.take(count as int) == crate::sessions::name_views(names@.take(count as int)));
}

/// The sessions that run, each on a line of its own.
pub fn listing(names: &Vec<String>) -> (text: String)
    ensures
        text@ == each_followed(crate::sessions::name_views(names@), "\n"@),
{
    let mut text = String::new();
    push_each(&mut text, names, names.len(), "\n");
    assert(names@.take(names@.len() as int) == names@);
    text
}

/// What to do where no session is named, by the sessions that run.
pub open spec fn chosen(names: Seq<Seq<char>>, current: Option<Seq<char>>) -> Move {
    if names.len() == 0 {
        opening(DEFAULT_SESSION@, Seq::empty(), current)
    } else if names.len() == 1 {
        opening(names[0], Seq::empty(), current)
    } else {
        Move::Fail(
            "sessions running: "@ + listed_with(names, " "@)
                + "\nchoose one with: boop --name NAME"@,
        )
    }
}

/// What to do where no session is named, by the sessions that run: open the only one, or
/// the default one where there is none.
pub fn auto(names: Vec<String>, current: Option<String>) -> (step: Step)
    ensures
        step@ == chosen(crate::sessions::name_views(names@), crate::cli::option_text(current)),
{
    let count: usize = names.len();
    if count > 1 {
        let mut text = "sessions running: ".to_owned();
        push_each(&mut text, &names, count - 1, " ");
        text.append(names[count - 1].as_str());
        text.append("\nchoose one with: boop --name NAME");
        proof {
            let views = crate::sessions::name_views(names@);
            assert(crate::sessions::name_views(names@.take(count - 1)) == views.drop_last());
            assert(text@ == "sessions running: "@ + listed_with(views, " "@)
                + "\nchoose one with: boop --name NAME"@);
        }
        return Step::Fail(text);
    }
    let command: Vec<Vec<u8>> = Vec::new();
    assert(crate::cli::arg_views(command@) == Seq::<Seq<u8>>::empty());
    let mut names = names;
    match names.pop() {
        Some(name) => open(name, command, &current),
        None => open(DEFAULT_SESSION.to_owned(), command, &current),
    }
}

/// What to do to open a session.
pub fn open(session: String, command: Vec<Vec<u8>>, current: &Option<String>) -> (step: Step)
    ensures
        step@ == opening(session@, crate::cli::arg_views(command@), crate::cli::option_text(*current)),
{
    match refuse_nesting(session.as_str(), current) {
        Ok(()) => Step::Open { session, command },
        Err(reason) => Step::Fail(reason),
    }
}

/// What to do to open a session, once it is known whether standard input is a terminal.
pub fn opened(session: String, command: Vec<Vec<u8>>, is_terminal: bool) -> (step: Step)
    ensures
        step@ == if is_terminal {
            Move::Connect {
                session: session@,
                purpose: Aim::Open(crate::cli::arg_views(command@)),
            }
        } else {
            Move::Fail("standard input is not a terminal"@)
        },
{
    match require_terminal(is_terminal) {
        Ok(()) => Step::Connect { session, purpose: Purpose::Open(command) },
        Err(reason) => Step::Fail(reason),
    }
}

/// What to do once it is known whether a session runs.
pub open spec fn once_connected(session: Seq<char>, purpose: Aim, found: bool) -> Move {
    match purpose {
        Aim::Open(command) => if !found {
            Move::Launch { session, command }
        } else if command.len() > 0 {
            Move::Fail(
                "session "@ + session + " already exists; name a new one with --session"@,
            )
        } else {
            Move::Attach { session, started: false }
        },
        Aim::Attach => if found {
            Move::Attach { session, started: false }
        } else {
            Move::Fail("no session named "@ + session)
        },
        Aim::Started => if found {
            Move::Attach { session, started: true }
        } else {
            Move::Fail("session "@ + session + " ended at once"@)
        },
        Aim::Disconnect => if found {
            Move::Disconnect { session }
        } else {
            Move::Fail("no session named "@ + session)
        },
    }
}

/// What to do once it is known whether a session runs; if it does, it is connected.
pub fn connected(session: String, purpose: Purpose, found: bool) -> (step: Step)
    ensures
        step@ == once_connected(session@, purpose@, found),
{
    match purpose {
        Purpose::Open(command) => if !found {
            Step::Launch { session, command }
        } else if command.len() > 0 {
            Step::Fail(
                enclosed(
                    "session ",
                    session.as_str(),
                    " already exists; name a new one with --session",
                ),
            )
        } else {
            Step::Attach { session, started: false }
        },
        Purpose::Attach => if found {
            Step::Attach { session, started: false }
        } else {
            Step::Fail(joined("no session named ", session.as_str()))
        },
        Purpose::Started => if found {
            Step::Attach { session, started: true }
        } else {
            Step::Fail(enclosed("session ", session.as_str(), " ended at once"))
        },
        Purpose::Disconnect => if found {
            Step::Disconnect { session }
        } else {
            Step::Fail(joined("no session named ", session.as_str()))
        },
    }
}

/// What to do once a session was started, or was not for a reason.
pub fn launched(session: String, result: Result<(), String>) -> (step: Step)
    ensures
        step@ == match result {
            Ok(()) => Move::Connect { session: session@, purpose: Aim::Started },
            Err(reason) => Move::Fail(reason@),
        },
{
    match result {
        Ok(()) => Step::Connect { session, purpose: Purpose::Started },
        Err(reason) => Step::Fail(reason),
    }
}

/// The size to tell a session, by the size that the terminal tells.
pub fn told_size(size: Option<(u16, u16)>) -> (told: (u16, u16))
    ensures
        told == match size {
            Some(size) => size,
            None => DEFAULT_SIZE,
        },
{
    match size {
        Some(size) => size,
        None => DEFAULT_SIZE,
    }
}

/// What is said to a session to attach to it.
pub fn attach_request(size: Option<(u16, u16)>) -> (message: Message)
    ensures
        message@ == ({
            let (rows, cols) = match size {
                Some(size) => size,
                None => DEFAULT_SIZE,
            };
            crate::protocol::Content::Attach { version: VERSION, rows, cols }
        }),
{
    let (rows, cols) = told_size(size);
    Message::Attach { version: VERSION, rows, cols }
}

/// What is said to whoever attaches to a session: the session they are in already, and
/// the session and the key that gets them out of it.
pub open spec fn greeting_of(
    session: Seq<char>,
    started: bool,
    key: u8,
    current: Option<Seq<char>>,
) -> Seq<char> {
    (match inside(current) {
        Ok(outer) => "[inside session "@ + outer + "]\n"@,
        Err(_) => Seq::empty(),
    }) + (if started {
        "[started session "@
    } else {
        "[attached to session "@
    }) + session + "; detach with "@ + crate::cli::name_of_key(key) + "]\n"@
}

/// What is said to whoever attaches to a session.
pub fn greeting(session: &str, started: bool, key: u8, current: Option<String>) -> (text: String)
    ensures
        text@ == greeting_of(session@, started, key, crate::cli::option_text(current)),
{
    let mut text = String::new();
    if let Ok(outer) = current_session(current) {
        text = enclosed("[inside session ", outer.as_str(), "]\n");
    }
    text.append(
        if started {
            "[started session "
        } else {
            "[attached to session "
        },
    );
    text.append(session);
    text.append("; detach with ");
    text.append(key_name(key).as_str());
    text.append("]\n");
    text
}

/// What is said to whoever leaves a session, and the status to end with.
pub open spec fn farewell_of(session: Seq<char>, outcome: Outcome) -> (Seq<char>, i32) {
    match outcome {
        Outcome::Detached => ("[detached from "@ + session + "]\n"@, 0),
        Outcome::Disconnected => (
            "[detached from "@ + session + " by boop --disconnect]\n"@,
            0,
        ),
        Outcome::Exited(code) => (
            "[session "@ + session + " ended with status "@ + crate::text::signed_decimal(
                code as int,
            ) + "]\n"@,
            code,
        ),
    }
}

/// What is said to whoever leaves a session, and the status to end with.
pub fn farewell(session: &str, outcome: Outcome) -> (result: (String, i32))
    ensures
        (result.0@, result.1) == farewell_of(session@, outcome),
{
    match outcome {
        Outcome::Detached => (enclosed("[detached from ", session, "]\n"), 0),
        Outcome::Disconnected => (
            enclosed("[detached from ", session, " by boop --disconnect]\n"),
            0,
        ),
        Outcome::Exited(code) => {
            let mut text = enclosed("[session ", session, " ended with status ");
            push_signed(&mut text, code);
            text.append("]\n");
            (text, code)
        },
    }
}

/// `code` as far as a process can end with it.
pub open spec fn clamped(code: i32) -> u8 {
    if code < 0 {
        0
    } else if code > 255 {
        255
    } else {
        code as u8
    }
}

/// The status that the process ends with.
pub fn exit_status(code: i32) -> (status: u8)
    ensures
        status == clamped(code),
{
    if code < 0 {
        0
    } else if code > 255 {
        255
    } else {
        code as u8
    }
}

/// What is said when `boop` fails.
pub fn complaint(reason: &str) -> (text: String)
    ensures
        text@ == "boop: "@ + reason@ + "\n"@,
{
    enclosed("boop: ", reason, "\n")
}

/// What is said to a session to detach every terminal from it.
pub fn disconnect_request() -> (message: Message)
    ensures
        message@ == (crate::protocol::Content::Disconnect { version: VERSION }),
{
    Message::Disconnect { version: VERSION }
}

/// What to do while a session is asked to detach every terminal.
#[derive(Debug, PartialEq, Eq)]
pub enum Asking {
    /// Read what the session sends.
    Read,
    /// All terminals are detached; say this.
    Done(String),
    /// Fail for this reason.
    Fail(String),
}

/// What [`Asking`] says.
#[verifier::ext_equal]
pub enum Asked {
    Read,
    Done(Seq<char>),
    Fail(Seq<char>),
}

impl View for Asking {
    type V = Asked;

    open spec fn view(&self) -> Asked {
        match *self {
            Asking::Read => Asked::Read,
            Asking::Done(text) => Asked::Done(text@),
            Asking::Fail(text) => Asked::Fail(text@),
        }
    }
}

/// What to do by what a session has sent, and what is left of that: its answer counts,
/// and whatever it sends before the answer does not.
pub open spec fn answered(session: Seq<char>, unread: Seq<u8>) -> (Asked, Seq<u8>)
    decreases unread.len(),
{
    let (taken, rest) = crate::protocol::take_message(unread);
    match taken {
        Ok(Some(crate::protocol::Content::Detached)) => (
            Asked::Done("[disconnected terminals from session "@ + session + "]\n"@),
            rest,
        ),
        Ok(Some(crate::protocol::Content::Error(text))) => (Asked::Fail(text), rest),
        Ok(Some(_)) => answered(session, rest),
        Ok(None) => (Asked::Read, rest),
        Err(text) => (Asked::Fail(text), rest),
    }
}

/// What to do after a read from a session, with `unread` read before it: a read that gives
/// nothing is the end of the connection, and any read that fails is a failure.
pub open spec fn answered_after(
    session: Seq<char>,
    unread: Seq<u8>,
    read: Result<Seq<u8>, Seq<char>>,
) -> (Asked, Seq<u8>) {
    match read {
        Ok(data) => if data.len() == 0 {
            (Asked::Fail("session "@ + session + " closed the connection"@), unread)
        } else {
            answered(session, unread + data)
        },
        Err(text) => (Asked::Fail(text), unread),
    }
}

fn read_answer(session: &str, decoder: &mut Decoder) -> (asking: Asking)
    ensures
        (asking@, final(decoder)@) == answered(session@, old(decoder)@),
{
    loop
        invariant
            answered(session@, old(decoder)@) == answered(session@, decoder@),
        decreases decoder@.len(),
    {
        match decoder.next_message() {
            Ok(Some(Message::Detached)) => {
                return Asking::Done(
                    enclosed("[disconnected terminals from session ", session, "]\n"),
                );
            },
            Ok(Some(Message::Error(text))) => return Asking::Fail(text),
            Ok(Some(_)) => {},
            Ok(None) => return Asking::Read,
            Err(text) => return Asking::Fail(text),
        }
    }
}

/// Goes on with asking a session to detach every terminal, after a read from it that waits
/// for data: what was read, or why the read failed.
pub fn disconnect(session: &str, decoder: &mut Decoder, read: Result<Vec<u8>, String>) -> (asking:
    Asking)
    ensures
        (asking@, final(decoder)@) == answered_after(
            session@,
            old(decoder)@,
            match read {
                Ok(data) => Ok(data@),
                Err(text) => Err(text@),
            },
        ),
{
    match read {
        Ok(data) => if data.len() == 0 {
            Asking::Fail(enclosed("session ", session, " closed the connection"))
        } else {
            decoder.push(data.as_slice());
            read_answer(session, decoder)
        },
        Err(text) => Asking::Fail(text),
    }
}

} // verus!
