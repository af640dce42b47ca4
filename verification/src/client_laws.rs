//! What holds of what `boop` does for whoever calls it, and of what it is answered.

use vstd::prelude::*;

use crate::client::{Aim, Asked, Move};
use crate::protocol::{Content, MAX_PAYLOAD};
use crate::relay::{Link, Order, Outcome};
use crate::server::Session;
use crate::server_laws::Step;
use crate::sys::Status;

verus! {

/// No command is started in a session that runs, and no session is started only to attach
/// to it or to disconnect it.
pub proof fn nothing_is_started_needlessly(session: Seq<char>, purpose: Aim, found: bool)
    ensures
        ({
            let next = crate::client::once_connected(session, purpose, found);
            &&& next is Launch <==> !found && purpose is Open
            &&& next is Attach || next is Disconnect ==> found
            &&& found && purpose is Open && purpose->Open_0.len() > 0 ==> next is Fail
        }),
{
}

/// Nobody attaches to the session that they are in.
pub proof fn nobody_attaches_to_their_own_session(
    session: Seq<char>,
    command: Seq<Seq<u8>>,
    names: Seq<Seq<char>>,
)
    ensures
        crate::client::first_move(
            crate::cli::Request::Open { session, command },
            Some(session),
        ) is Fail,
        crate::client::first_move(crate::cli::Request::Attach { session }, Some(session)) is Fail,
        names.len() == 1 && names[0] == session ==> crate::client::chosen(
            names,
            Some(session),
        ) is Fail,
{
}

proof fn decimal_is_short_ascii(n: u8)
    ensures
        crate::text::decimal(n as nat).len() <= 3,
        vstd::utf8::is_ascii_chars(crate::text::decimal(n as nat)),
{
    reveal_with_fuel(crate::text::decimal, 3);
}

/// What is said about another version fits into a message.
proof fn version_mismatch_is_short(version: u8)
    ensures
        vstd::utf8::encode_utf8(crate::server::version_mismatch(version)).len() <= MAX_PAYLOAD,
{
    reveal_strlit("speaks protocol ");
    reveal_strlit(" but the client speaks ");
    reveal_strlit("; restart the session");
    decimal_is_short_ascii(version);
    decimal_is_short_ascii(crate::protocol::VERSION);
    let text = crate::server::version_mismatch(version);
    assert(vstd::utf8::is_ascii_chars(text));
    vstd::utf8::is_ascii_chars_encode_utf8(text);
}

/// What to do by what comes from a session in these reads, one after the other until one
/// of them brings an answer, with `unread` read before them.
pub open spec fn asked(session: Seq<char>, unread: Seq<u8>, reads: Seq<Seq<u8>>) -> (Asked, Seq<u8>)
    decreases reads.len(),
{
    if reads.len() == 0 {
        (Asked::Read, unread)
    } else {
        let (next, rest) = crate::client::answered_after(session, unread, Ok(reads[0]));
        if next is Read {
            asked(session, rest, reads.drop_first())
        } else {
            (next, rest)
        }
    }
}

proof fn answer_in_pieces(session: Seq<char>, first: Seq<u8>, second: Seq<u8>)
    ensures
        ({
            let (early, rest) = crate::client::answered(session, first);
            crate::client::answered(session, first + second) == if early is Read {
                crate::client::answered(session, rest + second)
            } else {
                (early, rest + second)
            }
        }),
    decreases first.len(),
{
    crate::protocol_laws::later_bytes_change_nothing(first, second);
    let (taken, rest) = crate::protocol::take_message(first);
    if let Ok(Some(message)) = taken {
        if !(message is Detached) && !(message is Error) {
            answer_in_pieces(session, rest, second);
        }
    }
}

/// How an answer is cut into reads makes no difference: as long as a read does not bring
/// the whole answer, the next one comes to what one read of both comes to.
pub proof fn answers_in_pieces(
    session: Seq<char>,
    unread: Seq<u8>,
    first: Seq<u8>,
    second: Seq<u8>,
)
    requires
        first.len() > 0,
        second.len() > 0,
        crate::client::answered_after(session, unread, Ok(first)).0 is Read,
    ensures
        ({
            let rest = crate::client::answered_after(session, unread, Ok(first)).1;
            &&& crate::client::answered_after(session, rest, Ok(second)) == crate::client::answered(
                session,
                unread + first + second,
            )
            &&& crate::client::answered_after(session, rest, Ok(second))
                == crate::client::answered_after(session, unread, Ok(first + second))
        }),
{
    answer_in_pieces(session, unread + first, second);
    assert(unread + (first + second) == unread + first + second);
}

/// An answer is understood once its last byte has come, and no read is too many or too few,
/// however it is cut into reads.
proof fn answer_is_understood(
    session: Seq<char>,
    unread: Seq<u8>,
    reads: Seq<Seq<u8>>,
    answer: Content,
)
    requires
        answer is Detached || answer is Error,
        answer.payload().len() <= MAX_PAYLOAD,
        unread + crate::protocol_laws::joined(reads) == answer.frame(),
        reads.len() > 0,
        forall|k: int| 0 <= k < reads.len() ==> (#[trigger] reads[k]).len() > 0,
    ensures
        asked(session, unread, reads) == crate::client::answered(session, answer.frame()),
    decreases reads.len(),
{
    let later = reads.drop_first();
    let behind = crate::protocol_laws::joined(later);
    let buffer = unread + reads[0];
    let frame = answer.frame();
    assert(unread + crate::protocol_laws::joined(reads) == buffer + behind);
    crate::protocol_laws::frame_reads_back(answer, Seq::empty());
    assert(frame + Seq::<u8>::empty() == frame);
    if later.len() == 0 {
        assert(behind == Seq::<u8>::empty());
        assert(buffer + behind == buffer);
    } else {
        assert(later[0] == reads[1]);
        assert forall|k: int| 0 <= k < later.len() implies (#[trigger] later[k]).len() > 0 by {
            assert(later[k] == reads[k + 1]);
        }
        crate::protocol_laws::later_bytes_change_nothing(buffer, behind);
        let (taken, rest) = crate::protocol::take_message(buffer);
        if taken != Ok::<Option<Content>, Seq<char>>(None) {
            assert((rest + behind).len() == 0);
        }
        answer_is_understood(session, rest, later, answer);
    }
}

/// Whoever asks a session to detach every terminal is told that it has, or, if the two
/// speak different versions, why it has not, however the answer is cut into reads.
pub proof fn disconnect_is_answered<S>(
    name: Seq<char>,
    session: Session<S>,
    i: int,
    version: u8,
    reads: Seq<Seq<u8>>,
)
    requires
        0 <= i < session.clients.len(),
        !session.clients[i].attached,
        session.clients[i].outbox.len() == 0,
        forall|k: int| 0 <= k < reads.len() ==> (#[trigger] reads[k]).len() > 0,
        crate::protocol_laws::joined(reads) == session.handled(
            i,
            Content::Disconnect { version },
        ).0.clients[i].outbox,
    ensures
        asked(name, Seq::empty(), reads).0 == if version == crate::protocol::VERSION {
            Asked::Done("[disconnected terminals from session "@ + name + "]\n"@)
        } else {
            Asked::Fail(crate::server::version_mismatch(version))
        },
{
    let answer = if version == crate::protocol::VERSION {
        Content::Detached
    } else {
        Content::Error(crate::server::version_mismatch(version))
    };
    version_mismatch_is_short(version);
    crate::protocol_laws::frame_reads_back(answer, Seq::empty());
    crate::protocol_laws::frame_length(answer);
    let sent = session.handled(i, Content::Disconnect { version }).0.clients[i].outbox;
    assert(session.clients[i].outbox == Seq::<u8>::empty());
    assert(sent == answer.frame());
    assert(answer.frame() + Seq::<u8>::empty() == answer.frame());
    assert(Seq::<u8>::empty() + sent == sent);
    answer_is_understood(name, Seq::empty(), reads, answer);
}

/// A terminal whose `boop` speaks another version than the session is refused with the
/// reason, and shows nothing, however the answer is cut into reads.
pub proof fn another_version_is_understood<S>(
    link: Link,
    session: Session<S>,
    i: int,
    version: u8,
    rows: u16,
    cols: u16,
    reads: Seq<Seq<u8>>,
)
    requires
        0 <= i < session.clients.len(),
        !session.clients[i].attached,
        session.clients[i].outbox.len() == 0,
        version != crate::protocol::VERSION,
        link.signals.len() == 0,
        !link.socket,
        link.unread.len() == 0,
        forall|k: int| 0 <= k < reads.len() ==> (#[trigger] reads[k]).len() > 0,
        crate::protocol_laws::joined(reads) == session.handled(
            i,
            Content::Attach { version, rows, cols },
        ).0.clients[i].outbox,
    ensures
        ({
            let orders = link.orders(crate::relay_laws::arrivals(link.unread, reads));
            &&& crate::relay_laws::shown(orders) == Seq::<u8>::empty()
            &&& orders.len() > 0
            &&& orders.last() == Order::Finish(Err(crate::server::version_mismatch(version)))
        }),
{
    let told = Content::Error(crate::server::version_mismatch(version));
    let none = Seq::<Seq<u8>>::empty();
    version_mismatch_is_short(version);
    crate::protocol_laws::frame_length(told);
    let sent = session.handled(i, Content::Attach { version, rows, cols }).0.clients[i].outbox;
    assert(session.clients[i].outbox == Seq::<u8>::empty());
    assert(sent == told.frame());
    assert(crate::server_laws::outputs(none) == Seq::<Content>::empty());
    assert(crate::protocol_laws::frames(crate::server_laws::outputs(none)) == Seq::<u8>::empty());
    assert(Seq::<u8>::empty() + told.frame() == told.frame());
    assert(link.unread + sent == sent);
    assert(crate::protocol_laws::joined(none) == Seq::<u8>::empty());
    crate::relay_laws::the_end_is_understood(link, reads, none, told);
}

/// `boop` ends with the status that the program in the session ended with, as a shell
/// would tell it. What a wait says of the program is what an attached terminal is told,
/// behind all output that it has still to get (`pending`) and the last output that is read
/// from the program (`pieces`), however the bytes are cut into reads: that output is shown,
/// and then `boop` says the status and ends with it.
pub proof fn ends_with_the_programs_status<S>(
    waited: i32,
    status: i32,
    code: i32,
    session: Session<S>,
    i: int,
    link: Link,
    pending: Seq<Seq<u8>>,
    pieces: Seq<Seq<u8>>,
    reads: Seq<Seq<u8>>,
    name: Seq<char>,
)
    requires
        crate::sys::status_of(waited, status) == Status::Exited(code),
        0 <= i < session.clients.len(),
        session.clients[i].attached,
        link.signals.len() == 0,
        !link.socket,
        link.unread + session.clients[i].outbox == crate::protocol_laws::frames(
            crate::server_laws::outputs(pending),
        ),
        forall|k: int| 0 <= k < pending.len() ==> (#[trigger] pending[k]).len() <= MAX_PAYLOAD,
        forall|k: int| 0 <= k < pieces.len() ==> (#[trigger] pieces[k]).len() <= MAX_PAYLOAD,
        forall|k: int| 0 <= k < reads.len() ==> (#[trigger] reads[k]).len() > 0,
        crate::protocol_laws::joined(reads) == session.after(
            Step::Child(Some(crate::sys::status_of(waited, status))),
        ).after_output(pieces).announced().clients[i].outbox,
    ensures
        ({
            let orders = link.orders(crate::relay_laws::arrivals(link.unread, reads));
            let (text, last) = crate::client::farewell_of(name, Outcome::Exited(code));
            &&& crate::relay_laws::shown(orders) == crate::protocol_laws::joined(pending)
                + crate::protocol_laws::joined(pieces)
            &&& orders.len() > 0
            &&& orders.last() == Order::Finish(Ok(Outcome::Exited(code)))
            &&& !link.leaving ==> crate::relay_laws::unfinished(orders.drop_last())
            &&& text == "[session "@ + name + " ended with status "@ + crate::text::decimal(
                code as nat,
            ) + "]\n"@
            &&& crate::client::clamped(last) == code
        }),
{
    let found = session.after(Step::Child(Some(crate::sys::status_of(waited, status))));
    let told = Content::Exit(code);
    let before = session.clients[i].outbox;
    let all = pending + pieces;
    crate::server_laws::all_output_reaches_attached(found, pieces, i);
    let sent = found.after_output(pieces).announced().clients[i].outbox;
    let frames = crate::protocol_laws::frames(crate::server_laws::outputs(pieces));
    assert(sent == before + frames + told.frame());
    crate::relay_laws::sent_behind_pending(link.unread, before, pending, pieces);
    assert(link.unread + sent == link.unread + (before + frames) + told.frame());
    crate::protocol_laws::frame_length(told);
    assert(sent.len() > 0);
    assert(reads.len() > 0);
    assert forall|k: int| 0 <= k < all.len() implies (#[trigger] all[k]).len() <= MAX_PAYLOAD by {
        if k < pending.len() {
            assert(all[k] == pending[k]);
        } else {
            assert(all[k] == pieces[k - pending.len()]);
        }
    }
    crate::relay_laws::the_end_is_understood(link, reads, all, told);
    crate::protocol_laws::joined_in_parts(pending, pieces);
}

/// When every terminal of a session is detached at the request of client `i`, an attached
/// terminal shows all output that it has still to get and then learns that it was detached,
/// however the bytes are cut into reads.
pub proof fn detaching_is_understood<S>(
    session: Session<S>,
    i: int,
    j: int,
    link: Link,
    pending: Seq<Seq<u8>>,
    reads: Seq<Seq<u8>>,
)
    requires
        0 <= i < session.clients.len(),
        !session.clients[i].attached,
        0 <= j < session.clients.len(),
        session.clients[j].attached,
        link.signals.len() == 0,
        !link.socket,
        link.unread + session.clients[j].outbox == crate::protocol_laws::frames(
            crate::server_laws::outputs(pending),
        ),
        forall|k: int| 0 <= k < pending.len() ==> (#[trigger] pending[k]).len() <= MAX_PAYLOAD,
        forall|k: int| 0 <= k < reads.len() ==> (#[trigger] reads[k]).len() > 0,
        crate::protocol_laws::joined(reads) == session.handled(
            i,
            Content::Disconnect { version: crate::protocol::VERSION },
        ).0.clients[j].outbox,
    ensures
        ({
            let orders = link.orders(crate::relay_laws::arrivals(link.unread, reads));
            &&& crate::relay_laws::shown(orders) == crate::protocol_laws::joined(pending)
            &&& orders.len() > 0
            &&& orders.last() == Order::Finish(Ok(Outcome::Disconnected))
        }),
{
    let told = Content::Detached;
    let request = Content::Disconnect { version: crate::protocol::VERSION };
    let before = session.clients[j].outbox;
    let sent = session.handled(i, request).0.clients[j].outbox;
    assert(sent == before + told.frame());
    crate::protocol_laws::frame_length(told);
    assert(link.unread + sent == link.unread + before + told.frame());
    assert(reads.len() > 0);
    crate::relay_laws::the_end_is_understood(link, reads, pending, told);
}

/// The session that `boop` runs in is the one that the environment names, if that is a name;
/// outside a session there is none, and what is no name is refused.
pub proof fn the_current_session(name: Seq<char>)
    ensures
        crate::client::inside(None) == Err::<Seq<char>, Seq<char>>("not inside a session"@),
        crate::cli::valid_name(name) ==> crate::client::inside(Some(name)) == Ok::<
            Seq<char>,
            Seq<char>,
        >(name),
        !crate::cli::valid_name(name) ==> crate::client::inside(Some(name)) == Err::<
            Seq<char>,
            Seq<char>,
        >("BOOP_SESSION: "@ + crate::cli::invalid_name(name)),
{
}

/// A session is opened with exactly the command that was asked for, and attached to or
/// disconnected under its name; to open or attach to the session that one is in is refused,
/// to disconnect it is not.
pub proof fn first_moves_on_a_session(
    session: Seq<char>,
    command: Seq<Seq<u8>>,
    current: Option<Seq<char>>,
)
    ensures
        current != Some(session) ==> crate::client::first_move(
            crate::cli::Request::Open { session, command },
            current,
        ) == (Move::Open { session, command }),
        current != Some(session) ==> crate::client::first_move(
            crate::cli::Request::Attach { session },
            current,
        ) == (Move::Connect { session, purpose: Aim::Attach }),
        crate::client::first_move(crate::cli::Request::Disconnect { session }, current) == (
        Move::Connect { session, purpose: Aim::Disconnect }),
        crate::client::first_move(
            crate::cli::Request::Open { session, command },
            Some(session),
        ) == Move::Fail("already inside session "@ + session),
        crate::client::first_move(crate::cli::Request::Attach { session }, Some(session))
            == Move::Fail("already inside session "@ + session),
{
}

/// What is asked for without naming a session: the current session is disconnected or told,
/// or it is said that there is none; sessions are listed or chosen from; and help and version
/// are printed.
pub proof fn first_moves_without_a_name(name: Seq<char>, current: Option<Seq<char>>)
    ensures
        crate::client::first_move(crate::cli::Request::Auto, current) == Move::Choose,
        crate::client::first_move(crate::cli::Request::List, current) == Move::List,
        crate::client::first_move(crate::cli::Request::Help, current) == Move::Print(
            crate::cli::USAGE@,
        ),
        crate::client::first_move(crate::cli::Request::Version, current) == Move::Print(
            "boop "@ + crate::client::RELEASE@ + "\n"@,
        ),
        crate::cli::valid_name(name) ==> crate::client::first_move(
            crate::cli::Request::DisconnectCurrent,
            Some(name),
        ) == (Move::Connect { session: name, purpose: Aim::Disconnect }),
        crate::cli::valid_name(name) ==> crate::client::first_move(
            crate::cli::Request::Status,
            Some(name),
        ) == Move::Print(name + "\n"@),
        crate::client::first_move(crate::cli::Request::DisconnectCurrent, None) == Move::Fail(
            "not inside a session"@,
        ),
        crate::client::first_move(crate::cli::Request::Status, None) == Move::Fail(
            "not inside a session"@,
        ),
        !crate::cli::valid_name(name) ==> crate::client::first_move(
            crate::cli::Request::DisconnectCurrent,
            Some(name),
        ) == Move::Fail("BOOP_SESSION: "@ + crate::cli::invalid_name(name)),
        !crate::cli::valid_name(name) ==> crate::client::first_move(
            crate::cli::Request::Status,
            Some(name),
        ) == Move::Fail("BOOP_SESSION: "@ + crate::cli::invalid_name(name)),
{
}

/// Where no session is named, the only one that runs is opened, or the default one where none
/// runs, without a command; of several none is, and all are named.
pub proof fn the_session_that_is_chosen(
    names: Seq<Seq<char>>,
    current: Option<Seq<char>>,
)
    ensures
        names.len() == 0 && current != Some("boop"@) ==> crate::client::chosen(names, current) == (
        Move::Open { session: "boop"@, command: Seq::empty() }),
        names.len() == 0 && current == Some("boop"@) ==> crate::client::chosen(names, current)
            == Move::Fail("already inside session "@ + "boop"@),
        names.len() == 1 && current != Some(names[0]) ==> crate::client::chosen(names, current) == (
        Move::Open { session: names[0], command: Seq::empty() }),
        names.len() == 1 && current == Some(names[0]) ==> crate::client::chosen(names, current)
            == Move::Fail("already inside session "@ + names[0]),
        names.len() > 1 ==> crate::client::chosen(names, current) == Move::Fail(
            "sessions running: "@ + crate::client::listed_with(names, " "@)
                + "\nchoose one with: boop --name NAME"@,
        ),
{
}

/// What to do once it is known whether a session runs. One that does not run is started with
/// exactly the command that was asked for; one that runs is attached to, unless a command was
/// asked for; and what is missing is said to be.
pub proof fn moves_once_connected(session: Seq<char>, command: Seq<Seq<u8>>)
    ensures
        crate::client::once_connected(session, Aim::Open(command), false) == (Move::Launch {
            session,
            command,
        }),
        command.len() == 0 ==> crate::client::once_connected(session, Aim::Open(command), true) == (
        Move::Attach { session, started: false }),
        command.len() > 0 ==> crate::client::once_connected(session, Aim::Open(command), true)
            == Move::Fail(
            "session "@ + session + " already exists; name a new one with --session"@,
        ),
        crate::client::once_connected(session, Aim::Attach, true) == (Move::Attach {
            session,
            started: false,
        }),
        crate::client::once_connected(session, Aim::Started, true) == (Move::Attach {
            session,
            started: true,
        }),
        crate::client::once_connected(session, Aim::Disconnect, true) == (Move::Disconnect {
            session,
        }),
        crate::client::once_connected(session, Aim::Attach, false) == Move::Fail(
            "no session named "@ + session,
        ),
        crate::client::once_connected(session, Aim::Disconnect, false) == Move::Fail(
            "no session named "@ + session,
        ),
        crate::client::once_connected(session, Aim::Started, false) == Move::Fail(
            "session "@ + session + " ended at once"@,
        ),
{
}

/// From the command line to the program: `boop --session NAME COMMAND ARG...`, with or without
/// `--` before the command, starts the session of that name, if it does not run, with that
/// command and all its arguments, and nothing else.
pub proof fn the_command_line_reaches_the_program(
    name: Seq<char>,
    command: Seq<Seq<u8>>,
    dashes: bool,
    current: Option<Seq<char>>,
    shell: Option<Seq<u8>>,
)
    requires
        crate::cli::valid_name(name),
        command.len() > 0,
        dashes || !vstd::utf8::valid_utf8(command[0]) || command[0].len() < 2 || command[0][0] != 45,
        forall|i: int| 0 <= i < command.len() ==> !(#[trigger] command[i]).contains(0),
        current != Some(name),
    ensures
        ({
            let tail = if dashes {
                seq![seq![45u8, 45u8]] + command
            } else {
                command
            };
            let args = seq![crate::cli::bytes_of("--session"@), crate::cli::bytes_of(name)] + tail;
            let parsed = crate::cli::parsed(args, None);
            &&& parsed is Ok
            &&& crate::client::first_move(parsed->Ok_0.action, current) == (Move::Open {
                session: name,
                command,
            })
            &&& crate::client::once_connected(name, Aim::Open(command), false) == (Move::Launch {
                session: name,
                command,
            })
            &&& crate::launch::launched(name, command, shell, crate::launch::Occurrence::Bound)
                == crate::launch::Course::Pipe(command)
        }),
{
    let tail = if dashes {
        seq![seq![45u8, 45u8]] + command
    } else {
        command
    };
    let args = seq![crate::cli::bytes_of("--session"@), crate::cli::bytes_of(name)] + tail;
    let nothing = crate::cli::Given {
        session: None,
        name: None,
        disconnect: None,
        list: false,
        status: false,
        detach_key: None,
    };
    let given = crate::cli::Given { session: Some(name), ..nothing };
    vstd::utf8::encode_utf8_valid_utf8(name);
    vstd::utf8::encode_utf8_decode_utf8(name);
    crate::cli_laws::parsing_starts_with_nothing(args, None);
    crate::cli_laws::named_sessions_are_taken(
        "--session"@,
        crate::cli::bytes_of(name),
        tail,
        nothing,
        None,
    );
    if dashes {
        crate::cli_laws::double_dash_is_dropped(command, given, None);
    } else {
        crate::cli_laws::the_command_begins_behind_the_options(command, given, None);
    }
    crate::cli_laws::what_is_asked_for(given, command, None);
    first_moves_on_a_session(name, command, current);
    moves_once_connected(name, command);
    crate::launch_laws::the_command_is_started_whole(name, command, shell);
}

/// Lists of names are put together name by name, with what stands behind each or between
/// each two.
pub proof fn lists_of_names(names: Seq<Seq<char>>, name: Seq<char>, mark: Seq<char>)
    ensures
        crate::client::each_followed(Seq::empty(), mark) == Seq::<char>::empty(),
        crate::client::each_followed(names.push(name), mark) == crate::client::each_followed(
            names,
            mark,
        ) + name + mark,
        crate::client::listed_with(seq![name], mark) == name,
        names.len() > 0 ==> crate::client::listed_with(names.push(name), mark)
            == crate::client::listed_with(names, mark) + mark + name,
{
    assert(names.push(name).drop_last() == names);
    assert(seq![name].drop_last() == Seq::<Seq<char>>::empty());
    assert(crate::client::each_followed(Seq::empty(), mark) == Seq::<char>::empty());
    assert(Seq::<char>::empty() + name == name);
    if names.len() > 0 {
        assert(names.drop_last().push(names.last()) == names);
    }
}

/// What is said to whoever attaches names the session and the key, says whether the session
/// was started, and says first in which session they are, if they are in one.
pub proof fn greetings(session: Seq<char>, key: u8, outer: Seq<char>)
    ensures
        crate::client::greeting_of(session, true, key, None) == "[started session "@ + session
            + "; detach with "@ + crate::cli::name_of_key(key) + "]\n"@,
        crate::client::greeting_of(session, false, key, None) == "[attached to session "@ + session
            + "; detach with "@ + crate::cli::name_of_key(key) + "]\n"@,
        forall|started: bool|
            #![trigger crate::client::greeting_of(session, started, key, Some(outer))]
            crate::cli::valid_name(outer) ==> crate::client::greeting_of(
                session,
                started,
                key,
                Some(outer),
            ) == "[inside session "@ + outer + "]\n"@ + crate::client::greeting_of(
                session,
                started,
                key,
                None,
            ),
        forall|started: bool|
            #![trigger crate::client::greeting_of(session, started, key, Some(outer))]
            !crate::cli::valid_name(outer) ==> crate::client::greeting_of(
                session,
                started,
                key,
                Some(outer),
            ) == crate::client::greeting_of(session, started, key, None),
{
    let tail = session + "; detach with "@ + crate::cli::name_of_key(key) + "]\n"@;
    assert(crate::client::greeting_of(session, true, key, None) == "[started session "@ + session
        + "; detach with "@ + crate::cli::name_of_key(key) + "]\n"@);
    assert(crate::client::greeting_of(session, false, key, None) == "[attached to session "@
        + session + "; detach with "@ + crate::cli::name_of_key(key) + "]\n"@);
    assert forall|started: bool|
        #![trigger crate::client::greeting_of(session, started, key, Some(outer))]
        crate::cli::valid_name(outer) implies crate::client::greeting_of(
        session,
        started,
        key,
        Some(outer),
    ) == "[inside session "@ + outer + "]\n"@ + crate::client::greeting_of(
        session,
        started,
        key,
        None,
    ) by {
        assert(crate::client::greeting_of(session, started, key, Some(outer))
            == "[inside session "@ + outer + "]\n"@ + crate::client::greeting_of(
            session,
            started,
            key,
            None,
        ));
    }
}

/// What is said to whoever leaves a session names it and says how they left: by themselves,
/// because every terminal was detached, or because the program ended, and then with which
/// status. `boop` ends with that status, and else well.
pub proof fn farewells(session: Seq<char>, code: i32)
    ensures
        crate::client::farewell_of(session, Outcome::Detached) == (
            "[detached from "@ + session + "]\n"@,
            0i32,
        ),
        crate::client::farewell_of(session, Outcome::Disconnected) == (
            "[detached from "@ + session + " by boop --disconnect]\n"@,
            0i32,
        ),
        crate::client::farewell_of(session, Outcome::Exited(code)).0 == "[session "@ + session
            + " ended with status "@ + crate::text::signed_decimal(code as int) + "]\n"@,
        crate::client::farewell_of(session, Outcome::Exited(code)).1 == code,
{
}

/// A status that a process can end with is kept, and any other becomes the nearest one.
pub proof fn statuses_of_a_process(code: i32)
    ensures
        0 <= code <= 255 ==> crate::client::clamped(code) == code,
        code < 0 ==> crate::client::clamped(code) == 0,
        code > 255 ==> crate::client::clamped(code) == 255,
{
}

/// What a session sends is looked at message by message until one is an answer: that all are
/// detached, or why not. Whatever else it sends before is passed over, and a frame that is
/// refused is a failure.
pub proof fn answers_of_a_session(
    session: Seq<char>,
    message: Content,
    rest: Seq<u8>,
    buffer: Seq<u8>,
)
    requires
        message.payload().len() <= MAX_PAYLOAD,
    ensures
        match message {
            Content::Detached => crate::client::answered(session, message.frame() + rest) == (
                Asked::Done("[disconnected terminals from session "@ + session + "]\n"@),
                rest,
            ),
            Content::Error(text) => crate::client::answered(session, message.frame() + rest) == (
                Asked::Fail(text),
                rest,
            ),
            _ => crate::client::answered(session, message.frame() + rest)
                == crate::client::answered(session, rest),
        },
        crate::protocol::take_message(buffer).0 == Ok::<Option<Content>, Seq<char>>(None)
            ==> crate::client::answered(session, buffer) == (Asked::Read, buffer),
        crate::protocol::take_message(buffer).0 is Err ==> crate::client::answered(
            session,
            buffer,
        ).0 == Asked::Fail(crate::protocol::take_message(buffer).0->Err_0),
{
    crate::protocol_laws::frame_reads_back(message, rest);
}

/// A read that fails, or that comes back with nothing, ends the asking with the reason.
pub proof fn failed_reads_of_an_answer(session: Seq<char>, unread: Seq<u8>, text: Seq<char>)
    ensures
        crate::client::answered_after(session, unread, Ok(Seq::empty())) == (
            Asked::Fail("session "@ + session + " closed the connection"@),
            unread,
        ),
        crate::client::answered_after(session, unread, Err(text)) == (Asked::Fail(text), unread),
        forall|data: Seq<u8>|
            data.len() > 0 ==> (#[trigger] crate::client::answered_after(session, unread, Ok(data)))
                == crate::client::answered(session, unread + data),
{
}

} // verus!
