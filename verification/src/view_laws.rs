//! What holds of what values are said to hold: that it is all of what they hold.

use vstd::prelude::*;

use crate::cli::{Action, Options, Request};
use crate::client::{Aim, Asked, Asking, Move, Purpose, Step};
use crate::launch::{Course, Happened, Next, Occurrence};
use crate::protocol::{Content, Message};
use crate::relay::{Deed, Event, News, Order};
use crate::server::{Client, Server};
use crate::sys::{Arrival, Reading};

verus! {

/// Lists are taken item by item.
pub proof fn lists_are_whole(
    args: Seq<Vec<u8>>,
    names: Seq<String>,
    pieces: Seq<&[u8]>,
    i: int,
)
    ensures
        crate::cli::arg_views(args).len() == args.len(),
        0 <= i < args.len() ==> crate::cli::arg_views(args)[i] == args[i]@,
        crate::sessions::name_views(names).len() == names.len(),
        0 <= i < names.len() ==> crate::sessions::name_views(names)[i] == names[i]@,
        crate::protocol::slice_views(pieces).len() == pieces.len(),
        0 <= i < pieces.len() ==> crate::protocol::slice_views(pieces)[i] == pieces[i]@,
{
}

/// What there may be is taken as it is: a value for a value, and nothing for nothing.
pub proof fn choices_are_kept<T>(
    value: T,
    text: String,
    bytes: Vec<u8>,
    message: Message,
    options: Options,
)
    ensures
        crate::text::outcome(Ok::<T, String>(value)) == Ok::<T, Seq<char>>(value),
        crate::text::outcome(Err::<T, String>(text)) == Err::<T, Seq<char>>(text@),
        crate::cli::option_text(Some(text)) == Some(text@),
        crate::cli::option_text(None) is None,
        crate::cli::options_view(Ok(options)) == Ok::<crate::cli::Requested, Seq<char>>(options@),
        crate::cli::options_view(Err(text)) == Err::<crate::cli::Requested, Seq<char>>(text@),
        options@.action == options.action@,
        options@.detach_key == options.detach_key,
        crate::launch::shell_view(Some(bytes)) == Some(bytes@),
        crate::launch::shell_view(None) is None,
        crate::protocol::taken_view(Ok(Some(message))) == Ok::<Option<Content>, Seq<char>>(
            Some(message@),
        ),
        crate::protocol::taken_view(Ok(None)) == Ok::<Option<Content>, Seq<char>>(None),
        crate::protocol::taken_view(Err(text)) == Err::<Option<Content>, Seq<char>>(text@),
{
}

/// What a command line asks for names the session, and the command argument by argument.
pub proof fn requests_are_whole(session: String, command: Vec<Vec<u8>>)
    ensures
        ({
            let open = (Action::Open { session, command })@;
            &&& open is Open && open->Open_session == session@
            &&& open->Open_command.len() == command@.len()
            &&& forall|i: int|
                0 <= i < command@.len() ==> (#[trigger] open->Open_command[i]) == command@[i]@
        }),
        (Action::Attach { session })@ == (Request::Attach { session: session@ }),
        (Action::Disconnect { session })@ == (Request::Disconnect { session: session@ }),
        Action::Auto@ == Request::Auto,
        Action::DisconnectCurrent@ == Request::DisconnectCurrent,
        Action::List@ == Request::List,
        Action::Status@ == Request::Status,
        Action::Help@ == Request::Help,
        Action::Version@ == Request::Version,
{
}

/// What `boop` does next carries the text, the session, and the command argument by argument.
pub proof fn steps_are_whole(
    session: String,
    text: String,
    command: Vec<Vec<u8>>,
    purpose: Purpose,
    started: bool,
)
    ensures
        ({
            let open = (Step::Open { session, command })@;
            let launch = (Step::Launch { session, command })@;
            let aim = Purpose::Open(command)@;
            &&& open is Open && open->Open_session == session@
            &&& launch is Launch && launch->Launch_session == session@
            &&& aim is Open
            &&& open->Open_command.len() == command@.len()
            &&& launch->Launch_command.len() == command@.len()
            &&& aim->Open_0.len() == command@.len()
            &&& forall|i: int|
                0 <= i < command@.len() ==> (#[trigger] open->Open_command[i]) == command@[i]@
            &&& forall|i: int|
                0 <= i < command@.len() ==> (#[trigger] launch->Launch_command[i])
                    == command@[i]@
            &&& forall|i: int| 0 <= i < command@.len() ==> (#[trigger] aim->Open_0[i]) == command@[i]@
        }),
        Step::Print(text)@ == Move::Print(text@),
        Step::Fail(text)@ == Move::Fail(text@),
        Step::List@ == Move::List,
        Step::Choose@ == Move::Choose,
        (Step::Connect { session, purpose })@ == (Move::Connect {
            session: session@,
            purpose: purpose@,
        }),
        (Step::Attach { session, started })@ == (Move::Attach { session: session@, started }),
        (Step::Disconnect { session })@ == (Move::Disconnect { session: session@ }),
        Purpose::Attach@ == Aim::Attach,
        Purpose::Started@ == Aim::Started,
        Purpose::Disconnect@ == Aim::Disconnect,
        Asking::Read@ == Asked::Read,
        Asking::Done(text)@ == Asked::Done(text@),
        Asking::Fail(text)@ == Asked::Fail(text@),
{
}

/// A message carries its bytes, its text and its numbers.
pub proof fn messages_are_whole(
    version: u8,
    rows: u16,
    cols: u16,
    code: i32,
    data: Vec<u8>,
    text: String,
)
    ensures
        (Message::Attach { version, rows, cols })@ == (Content::Attach { version, rows, cols }),
        Message::Input(data)@ == Content::Input(data@),
        (Message::Resize { rows, cols })@ == (Content::Resize { rows, cols }),
        (Message::Disconnect { version })@ == (Content::Disconnect { version }),
        Message::Output(data)@ == Content::Output(data@),
        Message::Exit(code)@ == Content::Exit(code),
        Message::Detached@ == Content::Detached,
        Message::Error(text)@ == Content::Error(text@),
{
}

/// What a read comes back with carries its bytes or its reason, and what the relay is told and
/// says carries what it is about.
pub proof fn news_and_deeds_are_whole(event: Event, deed: Deed, reading: Reading)
    ensures
        reading matches Reading::Data(data) ==> reading@ == Arrival::Data(data@),
        reading is End ==> reading@ is End,
        reading is Blocked ==> reading@ is Blocked,
        reading matches Reading::Failed(text) ==> reading@ == Arrival::Failed(text@),
        event matches Event::Polled { input, socket, signals } ==> event@ == (News::Polled {
            input,
            socket,
            signals,
        }),
        event matches Event::Signals(signals) ==> event@ == News::Signals(signals@),
        event matches Event::Size(size) ==> event@ == News::Size(size),
        event matches Event::Sent(result) ==> event@ == News::Sent(crate::text::outcome(result)),
        event matches Event::Shown(result) ==> event@ == News::Shown(crate::text::outcome(result)),
        event matches Event::Received(read) ==> event@ == News::Received(read@),
        event matches Event::Typed(read) ==> event@ == News::Typed(read@),
        deed is Poll ==> deed@ is Poll,
        deed is TakeSignals ==> deed@ is TakeSignals,
        deed is AskSize ==> deed@ is AskSize,
        deed is Receive ==> deed@ is Receive,
        deed is Read ==> deed@ is Read,
        deed matches Deed::Send(frame) ==> deed@ == Order::Send(frame@),
        deed matches Deed::Show(data) ==> deed@ == Order::Show(data@),
        deed matches Deed::Finish(result) ==> deed@ == Order::Finish(crate::text::outcome(result)),
{
}

/// What happens and is done on the way to a new session carries the program argument by
/// argument, and every reason and status.
pub proof fn launches_are_whole(happened: Happened, next: Next, program: Vec<Vec<u8>>)
    ensures
        ({
            let pipe = Next::Pipe(program)@;
            &&& pipe is Pipe
            &&& pipe->Pipe_0.len() == program@.len()
            &&& forall|i: int|
                0 <= i < program@.len() ==> (#[trigger] pipe->Pipe_0[i]) == program@[i]@
        }),
        next is Bind ==> next@ is Bind,
        next is Fork ==> next@ is Fork,
        next matches Next::Wait(pid) ==> next@ == Course::Wait(pid),
        next is ReadReport ==> next@ is ReadReport,
        next is Daemonize ==> next@ is Daemonize,
        next is Start ==> next@ is Start,
        next is Serve ==> next@ is Serve,
        next matches Next::Return(result) ==> next@ == Course::Return(crate::text::outcome(result)),
        next matches Next::Exit(code) ==> next@ == Course::Exit(code),
        next matches Next::ReportAndExit(report) ==> next@ == Course::ReportAndExit(report@),
        next matches Next::Leave(code) ==> next@ == Course::Leave(code),
        happened matches Happened::Located(result) ==> happened@ == Occurrence::Located(
            crate::text::outcome(result),
        ),
        happened is Bound ==> happened@ is Bound,
        happened is NameTaken ==> happened@ is NameTaken,
        happened matches Happened::BindFailed { shown, error } ==> happened@ == (
        Occurrence::BindFailed { shown: shown@, error: error@ }),
        happened matches Happened::Piped(result) ==> happened@ == Occurrence::Piped(
            crate::text::outcome(result),
        ),
        happened matches Happened::Forked(result) ==> happened@ == Occurrence::Forked(
            crate::text::outcome(result),
        ),
        happened matches Happened::Waited(result) ==> happened@ == Occurrence::Waited(
            crate::text::outcome(result),
        ),
        happened matches Happened::Reported(Ok(report)) ==> happened@ == Occurrence::Reported(
            Ok(report@),
        ),
        happened matches Happened::Reported(Err(text)) ==> happened@ == Occurrence::Reported(
            Err(text@),
        ),
        happened matches Happened::Daemonized(result) ==> happened@ == Occurrence::Daemonized(
            crate::text::outcome(result),
        ),
        happened matches Happened::Started(result) ==> happened@ == Occurrence::Started(
            crate::text::outcome(result),
        ),
        happened matches Happened::Served(well) ==> happened@ == Occurrence::Served(well),
{
}

/// What a session and its clients are said to hold is what their fields hold, client by client.
pub proof fn sessions_are_whole<S>(server: Server<S>, client: Client<S>, i: int)
    ensures
        client@.stream == client.stream,
        client@.unread == client.decoder@,
        client@.outbox == client.outbox@,
        client@.attached == client.attached,
        client@.closing == client.closing,
        client@.dropped == client.dropped,
        server@.clients.len() == server.clients@.len(),
        0 <= i < server.clients@.len() ==> server@.clients[i] == server.clients@[i]@,
        server@.pty_open == server.pty_open,
        server@.exit_code == server.exit_code,
        server@.tracker == server.tracker@,
        server@.backlog == server.pty_backlog@,
        server.early_output is None ==> server@.early is None,
        server.early_output matches Some(early) ==> server@.early == Some(early@),
{
}

} // verus!
