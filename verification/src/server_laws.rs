//! What holds of a session and its terminals, whatever happens to them.

use vstd::prelude::*;

use crate::protocol::{Content, MAX_PAYLOAD};
use crate::server::{Effect, Peer, Session, Task, CLIENT_BACKLOG_LIMIT, PTY_BACKLOG_LIMIT};
use crate::sys::{Arrival, Events, Interest, Signal, Status, Writing};

verus! {

/// What can happen to a session.
pub enum Step<S> {
    /// A connection is made.
    Accepted(S),
    /// A client is read from.
    ClientRead(int, Arrival),
    /// The outbox of a client is written.
    ClientWritten(int, Writing),
    /// The outbox of a client was to be written, and is empty.
    ClientIdle(int),
    /// The program's terminal is read from.
    PtyRead(Arrival),
    /// Waiting input is written to the program's terminal.
    PtyWritten(Writing),
    /// The program's terminal turns out to be closed.
    PtyClosed,
    /// It is found out how the program is.
    Child(Option<Status>),
    /// The clients given up are let go.
    Reaped,
    /// The end of the program is announced.
    Announced,
}

impl<S> Session<S> {
    /// The session after one more thing has happened.
    pub open spec fn after(self, step: Step<S>) -> Session<S> {
        match step {
            Step::Accepted(stream) => Session {
                clients: self.clients.push(Peer::fresh(stream)),
                ..self
            },
            Step::ClientRead(i, arrival) => self.client_read(i, arrival).0,
            Step::ClientWritten(i, outcome) => self.with_client(
                i,
                self.clients[i].flushed(outcome).0,
            ),
            Step::ClientIdle(i) => self.with_client(i, self.clients[i].settled()),
            Step::PtyRead(arrival) => self.pty_read(arrival),
            Step::PtyWritten(outcome) => self.pty_written(outcome),
            Step::PtyClosed => Session { pty_open: false, ..self },
            Step::Child(Some(Status::Exited(code))) => Session { exit_code: Some(code), ..self },
            Step::Child(_) => self,
            Step::Reaped => self.reaped(),
            Step::Announced => self.announced(),
        }
    }

    /// Whether a step names a client that there is, and no write took more than there was.
    pub open spec fn allows(self, step: Step<S>) -> bool {
        match step {
            Step::ClientRead(i, _) => 0 <= i < self.clients.len(),
            Step::ClientIdle(i) => 0 <= i < self.clients.len() && self.clients[i].outbox.len() == 0,
            Step::ClientWritten(i, outcome) => 0 <= i < self.clients.len() && (
            outcome matches Writing::Written(count) ==> count <= self.clients[i].outbox.len()),
            Step::PtyWritten(Writing::Written(count)) => count <= self.backlog.len(),
            _ => true,
        }
    }

    /// Nothing that is kept for terminals grows without bound: the output kept for the
    /// first one is limited, and whoever falls too far behind is given up.
    pub open spec fn bounded(self) -> bool {
        &&& self.tracker.wf()
        &&& self.early is Some ==> self.early->0.len() <= CLIENT_BACKLOG_LIMIT
        &&& forall|i: int|
            0 <= i < self.clients.len() ==> (#[trigger] self.clients[i]).within_limit()
    }
}

impl<S> Peer<S> {
    /// Either not too far behind, or given up.
    pub open spec fn within_limit(self) -> bool {
        self.outbox.len() > CLIENT_BACKLOG_LIMIT ==> self.dropped
    }
}

proof fn sent_output_within_limit<S>(client: Peer<S>, pieces: Seq<Seq<u8>>)
    requires
        client.within_limit(),
    ensures
        client.sent_output(pieces).within_limit(),
    decreases pieces.len(),
{
    if pieces.len() > 0 {
        sent_output_within_limit(client, pieces.drop_last());
    }
}

proof fn handled_stays_bounded<S>(session: Session<S>, i: int, message: Content)
    requires
        session.bounded(),
        0 <= i < session.clients.len(),
    ensures
        session.handled(i, message).0.bounded(),
        session.handled(i, message).0.clients.len() == session.clients.len(),
{
    let client = Peer { attached: true, ..session.clients[i] };
    sent_output_within_limit(client, crate::protocol::chunked(session.initial_output()));
}

proof fn served_stays_bounded<S>(session: Session<S>, i: int)
    requires
        session.bounded(),
        0 <= i < session.clients.len(),
    ensures
        session.served(i).0.bounded(),
        session.served(i).0.clients.len() == session.clients.len(),
    decreases session.clients[i].unread.len(),
{
    let client = session.clients[i];
    if !client.closing && !client.dropped {
        let (taken, unread) = crate::protocol::take_message(client.unread);
        let read = session.with_client(i, Peer { unread, ..client });
        assert(read.bounded());
        if let Ok(Some(message)) = taken {
            handled_stays_bounded(read, i, message);
            read.handled_keeps_unread(i, message);
            served_stays_bounded(read.handled(i, message).0, i);
        }
    }
}

/// A new session keeps within its bounds.
pub proof fn fresh_is_bounded<S>()
    ensures
        Session::<S>::fresh().bounded(),
{
}

/// A session keeps within its bounds, whatever happens.
pub proof fn stays_bounded<S>(session: Session<S>, step: Step<S>)
    requires
        session.bounded(),
        session.allows(step),
    ensures
        session.after(step).bounded(),
{
    match step {
        Step::ClientRead(i, Arrival::Data(data)) => {
            let client = session.clients[i];
            let read = session.with_client(i, Peer { unread: client.unread + data, ..client });
            assert(read.bounded());
            served_stays_bounded(read, i);
        },
        Step::PtyRead(Arrival::Data(data)) => {
            crate::mode_laws::scan_keeps_wf(session.tracker, data);
            crate::mode_laws::replay_is_short(session.tracker.scan(data));
        },
        Step::Reaped => {
            let stays = |client: Peer<S>| !client.dropped;
            let kept = session.reaped().clients;
            assert forall|i: int| 0 <= i < kept.len() implies (
            #[trigger] kept[i]).within_limit() by {
                session.clients.lemma_filter_contains_rev(stays, kept[i]);
            }
        },
        _ => {},
    }
}

/// What a client sends does not touch the program itself, nor who the clients are.
proof fn served_keeps<S>(session: Session<S>, i: int)
    requires
        0 <= i < session.clients.len(),
    ensures
        ({
            let after = session.served(i).0;
            &&& after.exit_code == session.exit_code
            &&& after.pty_open == session.pty_open
            &&& after.tracker == session.tracker
            &&& session.early is None ==> after.early is None
            &&& after.clients.len() == session.clients.len()
            &&& forall|j: int|
                0 <= j < session.clients.len() ==> (#[trigger] after.clients[j]).stream
                    == session.clients[j].stream
        }),
    decreases session.clients[i].unread.len(),
{
    let client = session.clients[i];
    if !client.closing && !client.dropped {
        let (taken, unread) = crate::protocol::take_message(client.unread);
        let read = session.with_client(i, Peer { unread, ..client });
        if let Ok(Some(message)) = taken {
            let next = read.handled(i, message).0;
            let attached = Peer { attached: true, ..read.clients[i] };
            attached.sent_output_keeps(crate::protocol::chunked(read.initial_output()));
            served_keeps(next, i);
        }
    }
}

/// Terminals come and go without ending the session: only the end of its program does.
pub proof fn only_the_program_ends_the_session<S>(session: Session<S>, step: Step<S>)
    requires
        session.allows(step),
    ensures
        session.after(step).exit_code == match step {
            Step::Child(Some(Status::Exited(code))) => Some(code),
            _ => session.exit_code,
        },
{
    if let Step::ClientRead(i, Arrival::Data(data)) = step {
        let client = session.clients[i];
        served_keeps(
            session.with_client(i, Peer { unread: client.unread + data, ..client }),
            i,
        );
    }
}

/// The output so far is kept for the first terminal only: once it is handed out, no more
/// is kept.
pub proof fn output_is_kept_once<S>(session: Session<S>, step: Step<S>)
    requires
        session.allows(step),
        session.early is None,
    ensures
        session.after(step).early is None,
{
    if let Step::ClientRead(i, Arrival::Data(data)) = step {
        let client = session.clients[i];
        served_keeps(
            session.with_client(i, Peer { unread: client.unread + data, ..client }),
            i,
        );
    }
}

/// A client is attached only by its own request, in the version of the session, and no
/// message takes that back.
pub proof fn attached_by_request_only<S>(session: Session<S>, i: int, message: Content, j: int)
    requires
        0 <= i < session.clients.len(),
        0 <= j < session.clients.len(),
    ensures
        session.handled(i, message).0.clients[j].attached == (session.clients[j].attached || j == i
            && (message matches Content::Attach { version, .. } && version
            == crate::protocol::VERSION)),
{
    let client = Peer { attached: true, ..session.clients[i] };
    client.sent_output_keeps(crate::protocol::chunked(session.initial_output()));
}

/// Each of `pieces` as a message that carries output.
pub open spec fn outputs(pieces: Seq<Seq<u8>>) -> Seq<Content> {
    Seq::new(pieces.len(), |i: int| Content::Output(pieces[i]))
}

/// Each of `pieces` as a message that carries input.
pub open spec fn inputs(pieces: Seq<Seq<u8>>) -> Seq<Content> {
    Seq::new(pieces.len(), |i: int| Content::Input(pieces[i]))
}

impl<S> Session<S> {
    /// The session after pieces of output, one after the other.
    pub open spec fn after_output(self, pieces: Seq<Seq<u8>>) -> Session<S>
        decreases pieces.len(),
    {
        if pieces.len() == 0 {
            self
        } else {
            self.broadcast(pieces[0]).after_output(pieces.drop_first())
        }
    }
}

/// Output of the program goes to every attached client, behind what it has still to
/// get, and to nobody else.
pub proof fn output_reaches_attached<S>(session: Session<S>, data: Seq<u8>, i: int)
    requires
        0 <= i < session.clients.len(),
    ensures
        ({
            let before = session.clients[i];
            let after = session.broadcast(data).clients[i];
            if before.attached {
                after.outbox == before.outbox + Content::Output(data).frame()
            } else {
                after == before
            }
        }),
        session.broadcast(data).clients.len() == session.clients.len(),
{
}

/// All output of the program goes to an attached client, in order.
pub proof fn all_output_reaches_attached<S>(
    session: Session<S>,
    pieces: Seq<Seq<u8>>,
    i: int,
)
    requires
        0 <= i < session.clients.len(),
        session.clients[i].attached,
    ensures
        session.after_output(pieces).clients.len() == session.clients.len(),
        session.after_output(pieces).clients[i].attached,
        session.after_output(pieces).exit_code == session.exit_code,
        session.after_output(pieces).clients[i].outbox == session.clients[i].outbox
            + crate::protocol_laws::frames(outputs(pieces)),
    decreases pieces.len(),
{
    let before = session.clients[i].outbox;
    if pieces.len() == 0 {
        assert(crate::protocol_laws::frames(outputs(pieces)) == Seq::<u8>::empty());
        assert(before + Seq::<u8>::empty() == before);
    } else {
        let later = pieces.drop_first();
        let messages = outputs(pieces);
        all_output_reaches_attached(session.broadcast(pieces[0]), later, i);
        assert(messages.drop_first() == outputs(later));
        assert(before + messages[0].frame() + crate::protocol_laws::frames(outputs(later))
            == before + (messages[0].frame() + crate::protocol_laws::frames(outputs(later))));
    }
}

/// Until the first terminal attaches, no output is lost as long as it is within the
/// limit: that terminal is shown all of it.
pub proof fn first_terminal_sees_everything<S>(session: Session<S>, pieces: Seq<Seq<u8>>)
    requires
        session.early is Some,
        session.early->0.len() + crate::protocol_laws::joined(pieces).len()
            <= CLIENT_BACKLOG_LIMIT,
    ensures
        session.after_output(pieces).initial_output() == session.early->0
            + crate::protocol_laws::joined(pieces),
        session.after_output(pieces).early is Some,
    decreases pieces.len(),
{
    let early = session.early->0;
    if pieces.len() == 0 {
        assert(early + Seq::<u8>::empty() == early);
    } else {
        let later = pieces.drop_first();
        first_terminal_sees_everything(session.broadcast(pieces[0]), later);
        assert(early + pieces[0] + crate::protocol_laws::joined(later) == early + (pieces[0]
            + crate::protocol_laws::joined(later)));
    }
}

/// A session follows the modes that its program sets, however its output is cut into
/// pieces and whoever is attached.
pub proof fn modes_follow_output<S>(session: Session<S>, pieces: Seq<Seq<u8>>)
    ensures
        session.after_output(pieces).tracker == session.tracker.scan(
            crate::protocol_laws::joined(pieces),
        ),
    decreases pieces.len(),
{
    if pieces.len() > 0 {
        let later = pieces.drop_first();
        modes_follow_output(session.broadcast(pieces[0]), later);
        crate::mode_laws::scan_in_pieces(
            session.tracker,
            pieces[0],
            crate::protocol_laws::joined(later),
        );
    }
}

impl<S> Session<S> {
    /// Whether the output, wherever it is cut to the replay because it is too long to be
    /// kept, stands outside an escape sequence there.
    pub open spec fn cut_cleanly(self, pieces: Seq<Seq<u8>>) -> bool
        decreases pieces.len(),
    {
        pieces.len() > 0 ==> {
            &&& self.early is Some && self.early->0.len() + pieces[0].len() > CLIENT_BACKLOG_LIMIT
                ==> self.tracker.scan(pieces[0]).state is Ground
            &&& self.broadcast(pieces[0]).cut_cleanly(pieces.drop_first())
        }
    }

    /// Whether a terminal that is shown the output kept for the first one is in the modes
    /// of the program and will stay in them.
    pub open spec fn early_in_step(self) -> bool {
        self.early is Some && crate::mode_laws::in_step(
            crate::modes::Tracker::initial().scan(self.early->0),
            self.tracker,
        )
    }
}

proof fn output_keeps_early_in_step<S>(session: Session<S>, pieces: Seq<Seq<u8>>)
    requires
        session.tracker.wf(),
        session.early_in_step(),
        session.cut_cleanly(pieces),
    ensures
        session.after_output(pieces).early_in_step(),
    decreases pieces.len(),
{
    if pieces.len() > 0 {
        let data = pieces[0];
        let early = session.early->0;
        let terminal = crate::modes::Tracker::initial();
        let tracker = session.tracker.scan(data);
        crate::mode_laws::scan_keeps_wf(session.tracker, data);
        if early.len() + data.len() > CLIENT_BACKLOG_LIMIT {
            crate::mode_laws::replay_restores(tracker, terminal);
        } else {
            crate::mode_laws::scan_in_pieces(terminal, early, data);
            crate::mode_laws::scan_keeps_in_step(terminal.scan(early), session.tracker, data);
        }
        output_keeps_early_in_step(session.broadcast(data), pieces.drop_first());
    }
}

proof fn short_output_is_not_cut<S>(session: Session<S>, pieces: Seq<Seq<u8>>)
    requires
        session.early is Some,
        session.early->0.len() + crate::protocol_laws::joined(pieces).len()
            <= CLIENT_BACKLOG_LIMIT,
    ensures
        session.cut_cleanly(pieces),
    decreases pieces.len(),
{
    if pieces.len() > 0 {
        short_output_is_not_cut(session.broadcast(pieces[0]), pieces.drop_first());
    }
}

/// A terminal in its default modes that attaches later than the first one is brought into
/// the modes of the program by what it is shown.
pub proof fn later_terminal_is_in_the_programs_modes<S>(session: Session<S>)
    requires
        session.tracker.wf(),
        session.early is None,
    ensures
        ({
            let terminal = crate::modes::Tracker::initial().scan(session.initial_output());
            terminal.modes == session.tracker.modes && terminal.keypad == session.tracker.keypad
        }),
{
    crate::mode_laws::replay_restores(session.tracker, crate::modes::Tracker::initial());
}

/// The first terminal that attaches to a session, in its default modes, is brought into
/// the modes of the program by what it is shown, and stays in them with whatever output
/// follows: always as long as the output is within the limit, and beyond that unless it
/// was cut inside an escape sequence.
pub proof fn first_terminal_is_in_the_programs_modes<S>(
    pieces: Seq<Seq<u8>>,
    following: Seq<u8>,
)
    requires
        Session::<S>::fresh().cut_cleanly(pieces) || crate::protocol_laws::joined(pieces).len()
            <= CLIENT_BACKLOG_LIMIT,
    ensures
        ({
            let after = Session::<S>::fresh().after_output(pieces);
            let terminal = crate::modes::Tracker::initial().scan(after.initial_output());
            &&& terminal.modes == after.tracker.modes
            &&& terminal.keypad == after.tracker.keypad
            &&& terminal.scan(following).modes == after.tracker.scan(following).modes
            &&& terminal.scan(following).keypad == after.tracker.scan(following).keypad
        }),
{
    let session = Session::<S>::fresh();
    if !session.cut_cleanly(pieces) {
        short_output_is_not_cut(session, pieces);
    }
    crate::mode_laws::initial_wf();
    output_keeps_early_in_step(session, pieces);
    let after = session.after_output(pieces);
    crate::mode_laws::scan_keeps_in_step(
        crate::modes::Tracker::initial().scan(after.initial_output()),
        after.tracker,
        following,
    );
}

proof fn frames_push(messages: Seq<Content>, last: Content)
    ensures
        crate::protocol_laws::frames(messages.push(last)) == crate::protocol_laws::frames(messages)
            + last.frame(),
    decreases messages.len(),
{
    let all = messages.push(last);
    if messages.len() == 0 {
        assert(all.drop_first() == Seq::<Content>::empty());
        assert(last.frame() + Seq::<u8>::empty() == Seq::<u8>::empty() + last.frame());
        assert(crate::protocol_laws::frames(all.drop_first()) == Seq::<u8>::empty());
    } else {
        let later = messages.drop_first();
        assert(all.drop_first() == later.push(last));
        frames_push(later, last);
        assert(messages[0].frame() + (crate::protocol_laws::frames(later) + last.frame())
            == messages[0].frame() + crate::protocol_laws::frames(later) + last.frame());
    }
}

proof fn sent_output_is_frames<S>(client: Peer<S>, pieces: Seq<Seq<u8>>)
    ensures
        client.sent_output(pieces).outbox == client.outbox + crate::protocol_laws::frames(
            outputs(pieces),
        ),
    decreases pieces.len(),
{
    if pieces.len() == 0 {
        assert(client.outbox + Seq::<u8>::empty() == client.outbox);
        assert(crate::protocol_laws::frames(outputs(pieces)) == Seq::<u8>::empty());
    } else {
        let earlier = pieces.drop_last();
        sent_output_is_frames(client, earlier);
        assert(outputs(pieces) == outputs(earlier).push(Content::Output(pieces.last())));
        frames_push(outputs(earlier), Content::Output(pieces.last()));
        assert(client.outbox + crate::protocol_laws::frames(outputs(earlier)) + Content::Output(
            pieces.last(),
        ).frame() == client.outbox + (crate::protocol_laws::frames(outputs(earlier))
            + Content::Output(pieces.last()).frame()));
    }
}

/// A client that attaches is sent messages which, read back, are output and nothing else,
/// and together exactly what a new terminal is to be shown. Nobody else notices.
pub proof fn attaching_shows_initial_output<S>(session: Session<S>, i: int)
    requires
        0 <= i < session.clients.len(),
    ensures
        ({
            let pieces = crate::protocol::chunked(session.initial_output());
            let sent = crate::protocol_laws::frames(outputs(pieces));
            let after = session.attached(i);
            &&& crate::protocol_laws::joined(pieces) == session.initial_output()
            &&& crate::protocol_laws::contents(sent).messages == outputs(pieces)
            &&& after.clients[i].outbox == session.clients[i].outbox + sent
            &&& after.clients[i].attached
            &&& after.clients.len() == session.clients.len()
            &&& forall|j: int|
                0 <= j < session.clients.len() && j != i ==> after.clients[j]
                    == session.clients[j]
        }),
{
    let pieces = crate::protocol::chunked(session.initial_output());
    let client = Peer { attached: true, ..session.clients[i] };
    crate::protocol_laws::chunks_keep_data(session.initial_output());
    sent_output_is_frames(client, pieces);
    client.sent_output_keeps(pieces);
    assert forall|k: int| 0 <= k < outputs(pieces).len() implies (
    #[trigger] outputs(pieces)[k]).payload().len() <= MAX_PAYLOAD by {
        assert(pieces[k].len() <= MAX_PAYLOAD);
    }
    crate::protocol_laws::frames_read_back(outputs(pieces));
}

/// A disconnect detaches every attached terminal, answers the client that asked for it,
/// and touches neither the other clients nor the program.
pub proof fn disconnect_detaches_every_terminal<S>(session: Session<S>, i: int)
    requires
        0 <= i < session.clients.len(),
        !session.clients[i].attached,
    ensures
        ({
            let (after, effect) = session.handled(
                i,
                Content::Disconnect { version: crate::protocol::VERSION },
            );
            &&& effect == crate::server::no_effect()
            &&& after == (Session { clients: after.clients, ..session })
            &&& after.clients.len() == session.clients.len()
            &&& forall|j: int|
                0 <= j < session.clients.len() ==> if j == i || session.clients[j].attached {
                    &&& (#[trigger] after.clients[j]).closing
                    &&& after.clients[j].outbox == session.clients[j].outbox
                        + Content::Detached.frame()
                } else {
                    after.clients[j] == session.clients[j]
                }
        }),
{
}

/// A client that speaks another version is told so and closed; nothing else changes.
pub proof fn other_versions_are_refused<S>(session: Session<S>, i: int, message: Content)
    requires
        0 <= i < session.clients.len(),
        !session.clients[i].attached,
        match message {
            Content::Attach { version, .. } => version != crate::protocol::VERSION,
            Content::Disconnect { version } => version != crate::protocol::VERSION,
            _ => false,
        },
    ensures
        ({
            let version = match message {
                Content::Attach { version, .. } => version,
                Content::Disconnect { version } => version,
                _ => 0,
            };
            let (after, effect) = session.handled(i, message);
            let told = Content::Error(crate::server::version_mismatch(version));
            &&& effect == crate::server::no_effect()
            &&& after == session.with_client(i, after.clients[i])
            &&& after.clients[i].closing
            &&& !after.clients[i].attached
            &&& after.clients[i].outbox == session.clients[i].outbox + told.frame()
        }),
{
}

/// A client that sends what it may not send is given up; nothing else changes.
pub proof fn misuse_is_given_up<S>(session: Session<S>, i: int, message: Content)
    requires
        0 <= i < session.clients.len(),
        match message {
            Content::Attach { .. } | Content::Disconnect { .. } => session.clients[i].attached,
            Content::Input(_) | Content::Resize { .. } => !session.clients[i].attached,
            _ => true,
        },
    ensures
        session.handled(i, message) == (
            session.with_client(i, Peer { dropped: true, ..session.clients[i] }),
            crate::server::no_effect(),
        ),
{
}

/// What an attached terminal sends as input reaches the program, in order and with
/// nothing else between.
pub proof fn input_reaches_the_program<S>(session: Session<S>, i: int, pieces: Seq<Seq<u8>>)
    requires
        0 <= i < session.clients.len(),
        session.clients[i].attached,
        !session.clients[i].closing,
        !session.clients[i].dropped,
        session.clients[i].unread == crate::protocol_laws::frames(inputs(pieces)),
        forall|k: int| 0 <= k < pieces.len() ==> (#[trigger] pieces[k]).len() <= MAX_PAYLOAD,
    ensures
        session.served(i).0 == (Session {
            backlog: session.backlog + crate::protocol_laws::joined(pieces),
            ..session.with_client(i, Peer { unread: Seq::empty(), ..session.clients[i] })
        }),
        forall|k: int|
            0 <= k < session.served(i).1.len() ==> (#[trigger] session.served(i).1[k])
                == crate::server::no_effect(),
    decreases pieces.len(),
{
    let client = session.clients[i];
    let all = inputs(pieces);
    if pieces.len() == 0 {
        assert(client.unread == Seq::<u8>::empty());
        assert(session.backlog + Seq::<u8>::empty() == session.backlog);
    } else {
        let later = pieces.drop_first();
        assert(all.drop_first() == inputs(later));
        assert(all[0].payload() == pieces[0]);
        let unread = crate::protocol_laws::frames(inputs(later));
        crate::protocol_laws::frame_reads_back(all[0], unread);
        let read = session.with_client(i, Peer { unread, ..client });
        let next = read.handled(i, all[0]).0;
        assert(next == (Session { backlog: session.backlog + pieces[0], ..read }));
        assert forall|k: int| 0 <= k < later.len() implies (#[trigger] later[k]).len()
            <= MAX_PAYLOAD by {
            assert(later[k] == pieces[k + 1]);
        }
        input_reaches_the_program(next, i, later);
        assert(session.backlog + pieces[0] + crate::protocol_laws::joined(later)
            == session.backlog + (pieces[0] + crate::protocol_laws::joined(later)));
        assert(next.with_client(i, Peer { unread: Seq::empty(), ..next.clients[i] }).clients
            == session.with_client(i, Peer { unread: Seq::empty(), ..client }).clients);
    }
}

impl<S> Session<S> {
    /// With more that client `i` has sent.
    pub open spec fn extended(self, i: int, more: Seq<u8>) -> Session<S> {
        let client = self.clients[i];
        self.with_client(i, Peer { unread: client.unread + more, ..client })
    }
}

proof fn sent_output_ignores_unread<S>(client: Peer<S>, unread: Seq<u8>, pieces: Seq<Seq<u8>>)
    ensures
        (Peer { unread, ..client }).sent_output(pieces) == (Peer {
            unread,
            ..client.sent_output(pieces)
        }),
    decreases pieces.len(),
{
    if pieces.len() > 0 {
        sent_output_ignores_unread(client, unread, pieces.drop_last());
    }
}

proof fn handled_ignores_unread<S>(session: Session<S>, i: int, message: Content, more: Seq<u8>)
    requires
        0 <= i < session.clients.len(),
    ensures
        session.extended(i, more).handled(i, message) == (
            session.handled(i, message).0.extended(i, more),
            session.handled(i, message).1,
        ),
{
    let client = session.clients[i];
    let attached = Peer { attached: true, ..client };
    let pieces = crate::protocol::chunked(session.initial_output());
    sent_output_ignores_unread(attached, client.unread + more, pieces);
    attached.sent_output_keeps(pieces);
    let long = session.extended(i, more).handled(i, message).0;
    let short = session.handled(i, message).0.extended(i, more);
    assert(long.clients == short.clients);
}

proof fn served_in_pieces<S>(session: Session<S>, i: int, more: Seq<u8>)
    requires
        0 <= i < session.clients.len(),
    ensures
        ({
            let (first, effects) = session.served(i);
            let (last, more_effects) = first.extended(i, more).served(i);
            session.extended(i, more).served(i) == (last, effects + more_effects)
        }),
    decreases session.clients[i].unread.len(),
{
    let client = session.clients[i];
    let long = session.extended(i, more);
    let (first, effects) = session.served(i);
    let (last, more_effects) = first.extended(i, more).served(i);
    if client.closing || client.dropped {
        assert(effects + more_effects == more_effects);
    } else {
        crate::protocol_laws::later_bytes_change_nothing(client.unread, more);
        let (taken, unread) = crate::protocol::take_message(client.unread);
        let read = session.with_client(i, Peer { unread, ..client });
        match taken {
            Ok(Some(message)) => {
                let (next, effect) = read.handled(i, message);
                handled_ignores_unread(read, i, message, more);
                read.handled_keeps_unread(i, message);
                served_in_pieces(next, i, more);
                assert(long.with_client(i, Peer { unread: unread + more, ..long.clients[i] })
                    == read.extended(i, more));
                assert(seq![effect] + next.served(i).1 + more_effects == seq![effect] + (
                next.served(i).1 + more_effects));
            },
            Ok(None) => {
                assert(read == session);
                assert(effects + more_effects == more_effects);
            },
            Err(_) => {
                assert(effects + more_effects == Seq::<Effect>::empty());
                assert(long.served(i).0.clients == last.clients);
            },
        }
    }
}

/// How what a client sends is cut into reads makes no difference: two reads come to
/// what one read of both comes to.
pub proof fn reads_in_pieces<S>(session: Session<S>, i: int, first: Seq<u8>, second: Seq<u8>)
    requires
        0 <= i < session.clients.len(),
    ensures
        ({
            let (between, effects) = session.client_read(i, Arrival::Data(first));
            let (after, more_effects) = between.client_read(i, Arrival::Data(second));
            session.client_read(i, Arrival::Data(first + second)) == (
                after,
                effects + more_effects,
            )
        }),
{
    let once = session.extended(i, first);
    served_in_pieces(once, i, second);
    assert(session.clients[i].unread + first + second == session.clients[i].unread + (first
        + second));
    assert(once.extended(i, second) == session.extended(i, first + second));
}

impl<S> Session<S> {
    /// The session after reads from client `i`, one after the other, and what they ask of
    /// the program's terminal.
    pub open spec fn client_reads(self, i: int, reads: Seq<Seq<u8>>) -> (Session<S>, Seq<Effect>)
        decreases reads.len(),
    {
        if reads.len() == 0 {
            (self, Seq::empty())
        } else {
            let (next, effects) = self.client_read(i, Arrival::Data(reads[0]));
            let (last, more_effects) = next.client_reads(i, reads.drop_first());
            (last, effects + more_effects)
        }
    }
}

/// How what a client sends is cut into reads makes no difference: any number of reads
/// come to what one read of all comes to.
pub proof fn reads_in_any_pieces<S>(session: Session<S>, i: int, reads: Seq<Seq<u8>>)
    requires
        0 <= i < session.clients.len(),
        reads.len() > 0,
    ensures
        session.client_reads(i, reads) == session.client_read(
            i,
            Arrival::Data(crate::protocol_laws::joined(reads)),
        ),
    decreases reads.len(),
{
    let later = reads.drop_first();
    let (next, effects) = session.client_read(i, Arrival::Data(reads[0]));
    if later.len() == 0 {
        assert(crate::protocol_laws::joined(later) == Seq::<u8>::empty());
        assert(reads[0] + Seq::<u8>::empty() == reads[0]);
        assert(next.client_reads(i, later) == (next, Seq::<Effect>::empty()));
        assert(effects + Seq::<Effect>::empty() == effects);
    } else {
        let client = session.clients[i];
        let read = session.with_client(i, Peer { unread: client.unread + reads[0], ..client });
        served_keeps(read, i);
        reads_in_any_pieces(next, i, later);
        reads_in_pieces(session, i, reads[0], crate::protocol_laws::joined(later));
    }
}

/// What is to be sent to a client leaves in order, with nothing lost; a client that was
/// closing is given up as soon as all of it has left, and no other is for that.
pub proof fn writes_take_from_the_front<S>(client: Peer<S>, count: usize)
    requires
        count <= client.outbox.len(),
    ensures
        ({
            let (after, again) = client.flushed(Writing::Written(count));
            &&& client.outbox.take(count as int) + after.outbox == client.outbox
            &&& again == (after.outbox.len() > 0)
            &&& after.dropped == (client.dropped || client.closing && !again)
        }),
{
}

/// When the program has ended, every attached terminal is told its status behind all
/// that it has still to get, and every other client is given up.
pub proof fn the_end_is_told<S>(session: Session<S>, code: i32, i: int)
    requires
        session.exit_code == Some(code),
        0 <= i < session.clients.len(),
    ensures
        ({
            let before = session.clients[i];
            let after = session.announced().clients[i];
            if before.attached {
                &&& after.outbox == before.outbox + Content::Exit(code).frame()
                &&& after.closing
            } else {
                after == (Peer { dropped: true, ..before })
            }
        }),
{
}

/// Letting go of the clients that were given up leaves all others, in order.
pub proof fn only_given_up_clients_are_let_go<S>(session: Session<S>)
    ensures
        session.reaped() == (Session { clients: session.reaped().clients, ..session }),
        forall|i: int|
            0 <= i < session.reaped().clients.len() ==> !(
            #[trigger] session.reaped().clients[i]).dropped,
        forall|i: int|
            0 <= i < session.clients.len() && !session.clients[i].dropped ==> (
            #[trigger] session.reaped().clients.contains(session.clients[i])),
        (forall|i: int| 0 <= i < session.clients.len() ==> !(#[trigger] session.clients[i]).dropped)
            ==> session.reaped() == session,
{
    let stays = |client: Peer<S>| !client.dropped;
    broadcast use {Seq::lemma_filter_pred, Seq::lemma_filter_contains};

    assert forall|i: int| 0 <= i < session.reaped().clients.len() implies !(
    #[trigger] session.reaped().clients[i]).dropped by {
        assert(stays(session.clients.filter(stays)[i]));
    }
    if forall|i: int| 0 <= i < session.clients.len() ==> !(#[trigger] session.clients[i]).dropped {
        all_stay(session.clients);
    }
}

proof fn all_stay<S>(clients: Seq<Peer<S>>)
    requires
        forall|i: int| 0 <= i < clients.len() ==> !(#[trigger] clients[i]).dropped,
    ensures
        clients.filter(|client: Peer<S>| !client.dropped) == clients,
    decreases clients.len(),
{
    reveal(Seq::filter);
    if clients.len() > 0 {
        all_stay(clients.drop_last());
        assert(clients.drop_last().push(clients.last()) == clients);
    }
}

/// Whether a task is carried out by these steps, one after the other.
pub open spec fn carried_out<S>(task: Task, steps: Seq<Step<S>>) -> bool {
    match task {
        Task::Signals => steps.len() == 1 && steps[0] is Child,
        Task::WritePty => steps.len() == 1 && steps[0] is PtyWritten,
        Task::ReadPty => steps.len() == 1 && steps[0] is PtyRead,
        Task::ClosePty => steps.len() == 1 && steps[0] is PtyClosed,
        Task::ReadClient(i) => steps.len() == 1 && (steps[0] matches Step::ClientRead(k, _) && k
            == i),
        Task::FlushClient(i) => forall|j: int|
            0 <= j < steps.len() ==> match #[trigger] steps[j] {
                Step::ClientWritten(k, _) => k == i,
                Step::ClientIdle(k) => k == i,
                _ => false,
            },
        Task::Reap => steps.len() == 1 && steps[0] is Reaped,
        Task::Accept => forall|j: int| 0 <= j < steps.len() ==> (#[trigger] steps[j]) is Accepted,
    }
}

impl<S> Session<S> {
    /// The session after steps, one after the other.
    pub open spec fn after_steps(self, steps: Seq<Step<S>>) -> Session<S>
        decreases steps.len(),
    {
        if steps.len() == 0 {
            self
        } else {
            self.after_steps(steps.drop_last()).after(steps.last())
        }
    }

    /// Whether each of the steps, one after the other, can happen.
    pub open spec fn allows_steps(self, steps: Seq<Step<S>>) -> bool
        decreases steps.len(),
    {
        steps.len() > 0 ==> {
            &&& self.allows_steps(steps.drop_last())
            &&& self.after_steps(steps.drop_last()).allows(steps.last())
        }
    }

    /// The session after tasks, each carried out by steps.
    pub open spec fn after_tasks(self, round: Seq<Seq<Step<S>>>) -> Session<S>
        decreases round.len(),
    {
        if round.len() == 0 {
            self
        } else {
            self.after_tasks(round.drop_last()).after_steps(round.last())
        }
    }

    /// Whether `round` carries out `tasks`, one after the other, with steps that can happen.
    pub open spec fn carries_out(self, tasks: Seq<Task>, round: Seq<Seq<Step<S>>>) -> bool
        decreases round.len(),
    {
        &&& tasks.len() == round.len()
        &&& round.len() > 0 ==> {
            &&& self.carries_out(tasks.drop_last(), round.drop_last())
            &&& carried_out(tasks.last(), round.last())
            &&& self.after_tasks(round.drop_last()).allows_steps(round.last())
        }
    }

    /// Whether the clients are those of `other`, in the same order.
    pub open spec fn same_clients(self, other: Session<S>) -> bool {
        &&& self.clients.len() == other.clients.len()
        &&& forall|i: int|
            0 <= i < self.clients.len() ==> (#[trigger] self.clients[i]).stream
                == other.clients[i].stream
    }
}

/// The connections that are made in these steps, as new clients.
pub open spec fn accepted<S>(steps: Seq<Step<S>>) -> Seq<Peer<S>> {
    Seq::new(steps.len(), |i: int| Peer::fresh(steps[i]->Accepted_0))
}

proof fn step_keeps_clients<S>(session: Session<S>, step: Step<S>)
    requires
        session.allows(step),
        !(step is Accepted),
        !(step is Reaped),
    ensures
        session.after(step).same_clients(session),
{
    if let Step::ClientRead(i, Arrival::Data(data)) = step {
        let client = session.clients[i];
        served_keeps(
            session.with_client(i, Peer { unread: client.unread + data, ..client }),
            i,
        );
    }
}

proof fn steps_keep_clients<S>(session: Session<S>, steps: Seq<Step<S>>)
    requires
        session.allows_steps(steps),
        forall|j: int|
            0 <= j < steps.len() ==> !((#[trigger] steps[j]) is Accepted) && !(steps[j] is Reaped),
    ensures
        session.after_steps(steps).same_clients(session),
    decreases steps.len(),
{
    if steps.len() > 0 {
        let earlier = steps.drop_last();
        assert forall|j: int| 0 <= j < earlier.len() implies !(
        (#[trigger] earlier[j]) is Accepted) && !(earlier[j] is Reaped) by {
            assert(earlier[j] == steps[j]);
        }
        steps_keep_clients(session, earlier);
        assert(steps.last() == steps[steps.len() - 1]);
        step_keeps_clients(session.after_steps(earlier), steps.last());
    }
}

/// Until clients are let go and connections accepted, a round keeps its clients.
proof fn tasks_keep_clients<S>(
    session: Session<S>,
    tasks: Seq<Task>,
    round: Seq<Seq<Step<S>>>,
)
    requires
        session.carries_out(tasks, round),
        forall|j: int|
            0 <= j < tasks.len() ==> !((#[trigger] tasks[j]) is Accept) && !(tasks[j] is Reap),
    ensures
        session.after_tasks(round).same_clients(session),
    decreases round.len(),
{
    if round.len() > 0 {
        let earlier = tasks.drop_last();
        assert forall|j: int| 0 <= j < earlier.len() implies !((#[trigger] earlier[j]) is Accept)
            && !(earlier[j] is Reap) by {
            assert(earlier[j] == tasks[j]);
        }
        tasks_keep_clients(session, earlier, round.drop_last());
        assert(tasks.last() == tasks[tasks.len() - 1]);
        let steps = round.last();
        assert forall|j: int| 0 <= j < steps.len() implies !((#[trigger] steps[j]) is Accepted)
            && !(steps[j] is Reaped) by {}
        steps_keep_clients(session.after_tasks(round.drop_last()), steps);
    }
}

proof fn accepted_come_last<S>(session: Session<S>, steps: Seq<Step<S>>)
    requires
        forall|j: int| 0 <= j < steps.len() ==> (#[trigger] steps[j]) is Accepted,
    ensures
        session.after_steps(steps) == (Session {
            clients: session.clients + accepted(steps),
            ..session
        }),
    decreases steps.len(),
{
    if steps.len() == 0 {
        assert(session.clients + accepted(steps) == session.clients);
    } else {
        let earlier = steps.drop_last();
        assert forall|j: int| 0 <= j < earlier.len() implies (#[trigger] earlier[j]) is Accepted by {
            assert(earlier[j] == steps[j]);
        }
        accepted_come_last(session, earlier);
        let last = steps[steps.len() - 1];
        assert(last is Accepted);
        assert((session.clients + accepted(earlier)).push(Peer::fresh(last->Accepted_0))
            == session.clients + accepted(steps));
    }
}

/// What is planned for clients is to read from them or to write to them.
proof fn client_tasks_serve_clients(clients: Seq<Events>, count: nat)
    ensures
        forall|j: int|
            0 <= j < crate::server::client_tasks(clients, count).len() ==> !(
            (#[trigger] crate::server::client_tasks(clients, count)[j]) is Accept)
                && !(crate::server::client_tasks(clients, count)[j] is Reap),
    decreases count,
{
    if count > 0 {
        client_tasks_serve_clients(clients, (count - 1) as nat);
    }
}

/// A plan without the part that lets clients go and accepts connections.
pub open spec fn planned_before_reaping(
    signals: Events,
    pty: Events,
    clients: Seq<Events>,
) -> Seq<Task> {
    crate::server::task_if(signals.spec_any(), Task::Signals) + crate::server::task_if(
        pty.writable,
        Task::WritePty,
    ) + crate::server::task_if(pty.spec_wants_read(), Task::ReadPty) + crate::server::task_if(
        pty.invalid,
        Task::ClosePty,
    ) + crate::server::client_tasks(clients, clients.len())
}

/// The index of the task that lets clients go.
pub open spec fn reaping(
    signals: Events,
    pty: Events,
    clients: Seq<Events>,
) -> int {
    planned_before_reaping(signals, pty, clients).len() as int
}

proof fn plan_ends_with_reaping(
    listener: Events,
    signals: Events,
    pty: Events,
    clients: Seq<Events>,
)
    ensures
        ({
            let before = planned_before_reaping(signals, pty, clients);
            let reap = before.push(Task::Reap);
            &&& crate::server::planned(listener, signals, pty, clients) == if listener.readable {
                reap.push(Task::Accept)
            } else {
                reap
            }
            &&& forall|j: int|
                0 <= j < before.len() ==> !((#[trigger] before[j]) is Accept) && !(
                before[j] is Reap)
        }),
{
    client_tasks_serve_clients(clients, clients.len());
    let before = planned_before_reaping(signals, pty, clients);
    let planned = crate::server::planned(listener, signals, pty, clients);
    if listener.readable {
        assert(planned == before.push(Task::Reap).push(Task::Accept));
    } else {
        assert(planned == before.push(Task::Reap));
    }
}

/// One round of the daemon. A client is watched for messages as long as it is not closing
/// and not too much input waits for the program, and for room as long as it has something
/// to get. Once everything planned for what has come about is carried out, no client is
/// there that was given up: those that were there before and were not given up are there
/// still, in their order, and behind them come the connections that were accepted, if any
/// came, as new clients.
pub proof fn a_round_leaves_only_live_clients<S>(
    session: Session<S>,
    listener: Events,
    signals: Events,
    pty: Events,
    clients: Seq<Events>,
    round: Seq<Seq<Step<S>>>,
)
    requires
        clients.len() == session.clients.len(),
        session.carries_out(crate::server::planned(listener, signals, pty, clients), round),
    ensures
        ({
            let at = reaping(signals, pty, clients);
            let before = session.after_tasks(round.take(at));
            let survivors = before.clients.filter(|client: Peer<S>| !client.dropped);
            let newcomers = if listener.readable {
                accepted(round.last())
            } else {
                Seq::empty()
            };
            let after = session.after_tasks(round);
            &&& before.same_clients(session)
            &&& after.clients == survivors + newcomers
            &&& forall|i: int|
                0 <= i < after.clients.len() ==> !(#[trigger] after.clients[i]).dropped
        }),
        forall|i: int|
            0 <= i < session.clients.len() ==> (#[trigger] session.client_interest(i)) == (Interest {
                read: session.backlog.len() < PTY_BACKLOG_LIMIT && !session.clients[i].closing,
                write: session.clients[i].outbox.len() > 0,
            }),
{
    let tasks = crate::server::planned(listener, signals, pty, clients);
    let early = planned_before_reaping(signals, pty, clients);
    plan_ends_with_reaping(listener, signals, pty, clients);
    let at = early.len() as int;
    let until = round.take(at + 1);
    if listener.readable {
        assert(tasks.drop_last() == early.push(Task::Reap));
        assert(round.drop_last() == until);
    } else {
        assert(round == until);
    }
    assert(session.carries_out(early.push(Task::Reap), until));
    assert(early.push(Task::Reap).drop_last() == early);
    assert(until.drop_last() == round.take(at));
    tasks_keep_clients(session, early, round.take(at));
    let before = session.after_tasks(round.take(at));
    let steps = until.last();
    assert(steps.drop_last() == Seq::<Step<S>>::empty());
    assert(before.after_steps(steps.drop_last()) == before);
    assert(before.after_steps(steps) == before.reaped());
    let reaped = before.reaped();
    only_given_up_clients_are_let_go(before);
    let survivors = before.clients.filter(|client: Peer<S>| !client.dropped);
    assert(reaped.clients == survivors);
    if listener.readable {
        accepted_come_last(reaped, round.last());
    } else {
        assert(survivors + Seq::<Peer<S>>::empty() == survivors);
    }
    let after = session.after_tasks(round);
    assert forall|i: int| 0 <= i < after.clients.len() implies !(
    #[trigger] after.clients[i]).dropped by {
        if i < survivors.len() {
            assert(after.clients[i] == reaped.clients[i]);
        }
    }
}

/// A session starts with its program's terminal open, with nobody connected and nothing
/// waiting, and a connection starts with nothing sent in either direction.
pub proof fn sessions_and_connections_start_empty<S>(stream: S)
    ensures
        Session::<S>::fresh() == (Session::<S> {
            clients: Seq::empty(),
            pty_open: true,
            exit_code: None,
            tracker: crate::modes::Tracker::initial(),
            backlog: Seq::empty(),
            early: Some(Seq::empty()),
        }),
        Peer::fresh(stream) == (Peer {
            stream,
            unread: Seq::empty(),
            outbox: Seq::empty(),
            attached: false,
            closing: false,
            dropped: false,
        }),
{
}

/// A message goes behind all that a client has still to get. A client that then has more
/// than a mebibyte to get is given up, and nothing else of it changes.
pub proof fn messages_are_queued<S>(client: Peer<S>, message: Content)
    ensures
        client.sent(message) == (Peer {
            outbox: client.outbox + message.frame(),
            dropped: client.dropped || client.outbox.len() + message.frame().len() > 1048576,
            ..client
        }),
        client.closed_with(message) == (Peer { closing: true, ..client.sent(message) }),
{
}

/// Pieces of output go to a client each in a message of its own, in order, and the client
/// is given up if it then has more than a mebibyte to get.
#[verifier::spinoff_prover]
pub proof fn output_is_queued<S>(client: Peer<S>, pieces: Seq<Seq<u8>>)
    ensures
        client.sent_output(pieces) == (Peer {
            outbox: client.outbox + crate::protocol_laws::frames(outputs(pieces)),
            dropped: client.dropped || pieces.len() > 0 && client.outbox.len()
                + crate::protocol_laws::frames(outputs(pieces)).len() > 1048576,
            ..client
        }),
    decreases pieces.len(),
{
    sent_output_is_frames(client, pieces);
    client.sent_output_keeps(pieces);
    let after = client.sent_output(pieces);
    if pieces.len() == 0 {
        assert(after == client);
    } else {
        let earlier = pieces.drop_last();
        let before = client.sent_output(earlier);
        output_is_queued(client, earlier);
        sent_output_is_frames(client, earlier);
        assert(after == before.sent(Content::Output(pieces.last())));
        assert(after.outbox.len() >= before.outbox.len());
        assert(after.outbox.len() == client.outbox.len() + crate::protocol_laws::frames(
            outputs(pieces),
        ).len());
        assert(before.outbox.len() == client.outbox.len() + crate::protocol_laws::frames(
            outputs(earlier),
        ).len());
        if earlier.len() == 0 {
            assert(before == client);
        }
        assert(after.dropped == (before.dropped || after.outbox.len() > 1048576));
        assert(after.dropped == (client.dropped || after.outbox.len() > 1048576));
    }
}

/// A write takes from the front of what a client has still to get; a client that is closing
/// is given up once nothing is left, and one that cannot be written to is given up with
/// whatever is left.
pub proof fn writes_to_a_client<S>(client: Peer<S>, written: Seq<u8>, rest: Seq<u8>)
    requires
        client.outbox == written + rest,
        written.len() <= usize::MAX,
    ensures
        client.flushed(Writing::Written(written.len() as usize)) == (
            Peer {
                outbox: rest,
                dropped: client.dropped || client.closing && rest.len() == 0,
                ..client
            },
            rest.len() > 0,
        ),
        client.flushed(Writing::Blocked) == (
            Peer {
                dropped: client.dropped || client.closing && client.outbox.len() == 0,
                ..client
            },
            false,
        ),
        client.flushed(Writing::Failed) == (Peer { dropped: true, ..client }, false),
        client.settled() == (Peer {
            dropped: client.dropped || client.closing && client.outbox.len() == 0,
            ..client
        }),
{
    assert(client.outbox.skip(written.len() as int) == rest);
}

/// Output of the program goes to every attached client, and to nobody else. The modes follow
/// it. Until the first terminal attaches it is also kept; where that would be more than a
/// mebibyte, what restores the modes stands for all of it.
pub proof fn output_is_passed_on<S>(session: Session<S>, data: Seq<u8>)
    ensures
        ({
            let after = session.broadcast(data);
            let frame = Content::Output(data).frame();
            &&& after == (Session {
                clients: after.clients,
                tracker: session.tracker.scan(data),
                early: after.early,
                ..session
            })
            &&& after.clients.len() == session.clients.len()
            &&& forall|i: int|
                0 <= i < session.clients.len() ==> (#[trigger] after.clients[i]) == if
                    session.clients[i].attached {
                    Peer {
                        outbox: session.clients[i].outbox + frame,
                        dropped: session.clients[i].dropped || session.clients[i].outbox.len()
                            + frame.len() > 1048576,
                        ..session.clients[i]
                    }
                } else {
                    session.clients[i]
                }
            &&& session.early is None ==> after.early is None
            &&& session.early is Some && session.early->0.len() + data.len() <= 1048576
                ==> after.early == Some(session.early->0 + data)
            &&& session.early is Some && session.early->0.len() + data.len() > 1048576
                ==> after.early == Some(session.tracker.scan(data).replay())
        }),
{
}

/// Whoever attaches, whichever client it is, has the program draw again and gives it their
/// size, if they have one. They are sent the output so far if they are the first, and else
/// what restores the modes. The output so far is then let go, and nothing else changes.
pub proof fn attaching_is_answered<S>(session: Session<S>, i: int, rows: u16, cols: u16)
    requires
        0 <= i < session.clients.len(),
        !session.clients[i].attached,
    ensures
        ({
            let client = session.clients[i];
            let first = match session.early {
                Some(early) => early,
                None => session.tracker.replay(),
            };
            let sent = crate::protocol_laws::frames(outputs(crate::protocol::chunked(first)));
            session.handled(i, Content::Attach { version: 1, rows, cols }) == (
                Session {
                    clients: session.clients.update(
                        i,
                        Peer {
                            attached: true,
                            outbox: client.outbox + sent,
                            dropped: client.dropped || first.len() > 0 && client.outbox.len()
                                + sent.len() > 1048576,
                            ..client
                        },
                    ),
                    early: None,
                    ..session
                },
                Effect {
                    resize: if rows > 0 && cols > 0 {
                        Some((rows, cols))
                    } else {
                        None
                    },
                    redraw: true,
                },
            )
        }),
{
    let first = session.initial_output();
    let pieces = crate::protocol::chunked(first);
    output_is_queued(Peer { attached: true, ..session.clients[i] }, pieces);
    assert(pieces.len() > 0 <==> first.len() > 0);
}

/// What an attached client types waits for the program behind what waits already, and its
/// size becomes that of the program's terminal, if it has one; nothing else changes.
pub proof fn attached_clients_are_heard<S>(
    session: Session<S>,
    i: int,
    data: Seq<u8>,
    rows: u16,
    cols: u16,
)
    requires
        0 <= i < session.clients.len(),
        session.clients[i].attached,
    ensures
        session.handled(i, Content::Input(data)) == (
            Session { backlog: session.backlog + data, ..session },
            Effect { resize: None, redraw: false },
        ),
        session.handled(i, Content::Resize { rows, cols }) == (
            session,
            Effect {
                resize: if rows > 0 && cols > 0 {
                    Some((rows, cols))
                } else {
                    None
                },
                redraw: false,
            },
        ),
{
}

/// A disconnect sends every attached terminal, and the client that asked for it, the message
/// that they are detached, as the last one; nothing else changes.
pub proof fn disconnecting_is_answered<S>(session: Session<S>, i: int)
    requires
        0 <= i < session.clients.len(),
        !session.clients[i].attached,
    ensures
        ({
            let (after, effect) = session.handled(i, Content::Disconnect { version: 1 });
            let frame = Content::Detached.frame();
            &&& effect == (Effect { resize: None, redraw: false })
            &&& after == (Session { clients: after.clients, ..session })
            &&& after.clients.len() == session.clients.len()
            &&& forall|j: int|
                0 <= j < session.clients.len() ==> (#[trigger] after.clients[j]) == if j == i
                    || session.clients[j].attached {
                    Peer {
                        outbox: session.clients[j].outbox + frame,
                        closing: true,
                        dropped: session.clients[j].dropped || session.clients[j].outbox.len()
                            + frame.len() > 1048576,
                        ..session.clients[j]
                    }
                } else {
                    session.clients[j]
                }
        }),
{
}

/// Whoever speaks another version is told both versions, in a last message; nothing else
/// changes.
pub proof fn other_versions_are_told<S>(
    session: Session<S>,
    i: int,
    version: u8,
    rows: u16,
    cols: u16,
)
    requires
        0 <= i < session.clients.len(),
        !session.clients[i].attached,
        version != 1,
    ensures
        ({
            let client = session.clients[i];
            let frame = Content::Error(
                "speaks protocol "@ + crate::text::decimal(1) + " but the client speaks "@
                    + crate::text::decimal(version as nat) + "; restart the session"@,
            ).frame();
            let answer = (
                Session {
                    clients: session.clients.update(
                        i,
                        Peer {
                            outbox: client.outbox + frame,
                            closing: true,
                            dropped: client.dropped || client.outbox.len() + frame.len() > 1048576,
                            ..client
                        },
                    ),
                    ..session
                },
                Effect { resize: None, redraw: false },
            );
            &&& session.handled(i, Content::Attach { version, rows, cols }) == answer
            &&& session.handled(i, Content::Disconnect { version }) == answer
        }),
{
}

/// Messages that only a session sends, a second request to attach, a disconnect from an
/// attached client, and input and sizes from one that is not attached, have the client given
/// up and do nothing else.
pub proof fn misuse_does_nothing_else<S>(session: Session<S>, i: int, message: Content)
    requires
        0 <= i < session.clients.len(),
        match message {
            Content::Attach { .. } | Content::Disconnect { .. } => session.clients[i].attached,
            Content::Input(_) | Content::Resize { .. } => !session.clients[i].attached,
            Content::Output(_) | Content::Exit(_) | Content::Detached | Content::Error(_) => true,
        },
    ensures
        session.handled(i, message) == (
            Session {
                clients: session.clients.update(i, Peer { dropped: true, ..session.clients[i] }),
                ..session
            },
            Effect { resize: None, redraw: false },
        ),
{
}

/// Messages that a client has sent are dealt with one by one, each with its own effect.
pub proof fn messages_are_served_in_turn<S>(
    session: Session<S>,
    i: int,
    message: Content,
    rest: Seq<u8>,
)
    requires
        0 <= i < session.clients.len(),
        !session.clients[i].closing,
        !session.clients[i].dropped,
        session.clients[i].unread == message.frame() + rest,
        message.payload().len() <= MAX_PAYLOAD,
    ensures
        ({
            let read = Session {
                clients: session.clients.update(i, Peer { unread: rest, ..session.clients[i] }),
                ..session
            };
            let (next, effect) = read.handled(i, message);
            session.served(i) == (next.served(i).0, seq![effect] + next.served(i).1)
        }),
{
    crate::protocol_laws::frame_reads_back(message, rest);
}

/// Serving a client ends where no message is complete, with what has come of the next one
/// kept, and before anything is read of a client that is closing or given up. A client whose
/// next message is refused is given up.
pub proof fn serving_ends<S>(session: Session<S>, i: int)
    requires
        0 <= i < session.clients.len(),
    ensures
        session.clients[i].closing || session.clients[i].dropped ==> session.served(i) == (
            session,
            Seq::<Effect>::empty(),
        ),
        crate::protocol::take_message(session.clients[i].unread).0 == Ok::<
            Option<Content>,
            Seq<char>,
        >(None) ==> session.served(i) == (session, Seq::<Effect>::empty()),
        !session.clients[i].closing && !session.clients[i].dropped
            && crate::protocol::take_message(session.clients[i].unread).0 is Err
            ==> session.served(i) == (
            Session {
                clients: session.clients.update(
                    i,
                    Peer {
                        dropped: true,
                        unread: crate::protocol::take_message(session.clients[i].unread).1,
                        ..session.clients[i]
                    },
                ),
                ..session
            },
            Seq::<Effect>::empty(),
        ),
{
    crate::protocol_laws::later_bytes_change_nothing(session.clients[i].unread, Seq::empty());
    let same = session.with_client(i, session.clients[i]);
    assert(same.clients == session.clients);
}

/// What a client sends goes behind what it has sent before. A client that has closed its side
/// or cannot be read is given up, with nothing done for it; and where nothing has come,
/// nothing changes.
pub proof fn reads_from_a_client<S>(session: Session<S>, i: int, data: Seq<u8>, reason: Seq<char>)
    requires
        0 <= i < session.clients.len(),
    ensures
        ({
            let client = session.clients[i];
            let gone = (
                Session {
                    clients: session.clients.update(i, Peer { dropped: true, ..client }),
                    ..session
                },
                Seq::<Effect>::empty(),
            );
            let more = Session {
                clients: session.clients.update(
                    i,
                    Peer { unread: client.unread + data, ..client },
                ),
                ..session
            };
            &&& session.client_read(i, Arrival::Data(data)) == more.served(i)
            &&& session.client_read(i, Arrival::End) == gone
            &&& session.client_read(i, Arrival::Failed(reason)) == gone
            &&& session.client_read(i, Arrival::Blocked) == (session, Seq::<Effect>::empty())
        }),
{
}

/// What is read from the program's terminal is passed on; one that has ended or cannot be read
/// is closed; and where nothing has come, nothing changes.
pub proof fn reads_from_the_program<S>(session: Session<S>, data: Seq<u8>, reason: Seq<char>)
    ensures
        session.pty_read(Arrival::Data(data)) == session.broadcast(data),
        session.pty_read(Arrival::Blocked) == session,
        session.pty_read(Arrival::End) == (Session { pty_open: false, ..session }),
        session.pty_read(Arrival::Failed(reason)) == (Session { pty_open: false, ..session }),
{
}

/// What waits for the program leaves from the front; where it cannot be written at all, all of
/// it is let go; and nothing else changes.
pub proof fn writes_to_the_program<S>(session: Session<S>, written: Seq<u8>, rest: Seq<u8>)
    requires
        session.backlog == written + rest,
        written.len() <= usize::MAX,
    ensures
        session.pty_written(Writing::Written(written.len() as usize)) == (Session {
            backlog: rest,
            ..session
        }),
        session.pty_written(Writing::Blocked) == session,
        session.pty_written(Writing::Failed) == (Session { backlog: Seq::empty(), ..session }),
{
    assert(session.backlog.skip(written.len() as int) == rest);
}

/// Of the clients of a session, those that were given up are let go, each by itself, and the
/// others stay in their order.
pub proof fn clients_are_let_go_one_by_one<S>(session: Session<S>, client: Peer<S>)
    ensures
        ({
            let more = Session { clients: session.clients.push(client), ..session };
            let none = Session { clients: Seq::empty(), ..session };
            &&& none.reaped() == none
            &&& more.reaped() == if client.dropped {
                session.reaped()
            } else {
                Session { clients: session.reaped().clients.push(client), ..session }
            }
        }),
{
    reveal(Seq::filter);
    let more = session.clients.push(client);
    assert(more.drop_last() == session.clients);
}

/// A client is read from unless it is closing or 65536 bytes wait for the program, and written
/// to when it has something to get.
pub proof fn clients_are_watched<S>(session: Session<S>, i: int)
    requires
        0 <= i < session.clients.len(),
    ensures
        session.client_interest(i).read <==> session.backlog.len() < 65536
            && !session.clients[i].closing,
        session.client_interest(i).write <==> session.clients[i].outbox.len() > 0,
{
}

/// At the end of a session every attached client is told the status of the program, or that
/// it is 0 where it is not known, in a last message; all others are given up; and nothing else
/// changes.
pub proof fn the_end_is_announced<S>(session: Session<S>)
    ensures
        ({
            let after = session.announced();
            let frame = match session.exit_code {
                Some(code) => Content::Exit(code).frame(),
                None => Content::Exit(0).frame(),
            };
            &&& after == (Session { clients: after.clients, ..session })
            &&& after.clients.len() == session.clients.len()
            &&& forall|i: int|
                0 <= i < session.clients.len() ==> (#[trigger] after.clients[i]) == if
                    session.clients[i].attached {
                    Peer {
                        outbox: session.clients[i].outbox + frame,
                        closing: true,
                        dropped: session.clients[i].dropped || session.clients[i].outbox.len()
                            + frame.len() > 1048576,
                        ..session.clients[i]
                    }
                } else {
                    Peer { dropped: true, ..session.clients[i] }
                }
        }),
{
}

proof fn tasks_of_earlier_clients(clients: Seq<Events>, event: Events, count: nat)
    requires
        count <= clients.len(),
    ensures
        crate::server::client_tasks(clients.push(event), count) == crate::server::client_tasks(
            clients,
            count,
        ),
    decreases count,
{
    if count > 0 {
        tasks_of_earlier_clients(clients, event, (count - 1) as nat);
    }
}

/// Each client adds to a round, behind all clients before it, a read if one would come back
/// with something and a write if there is room for one.
pub proof fn each_client_has_its_tasks(clients: Seq<Events>, event: Events)
    requires
        clients.len() <= usize::MAX,
    ensures
        crate::server::client_tasks(clients, 0) == Seq::<Task>::empty(),
        ({
            let before = crate::server::client_tasks(clients, clients.len());
            let after = crate::server::client_tasks(clients.push(event), clients.len() + 1);
            let read = Task::ReadClient(clients.len() as usize);
            let write = Task::FlushClient(clients.len() as usize);
            let reads = event.readable || event.hung_up || event.failed;
            &&& reads && event.writable ==> after == before + seq![read, write]
            &&& reads && !event.writable ==> after == before + seq![read]
            &&& !reads && event.writable ==> after == before + seq![write]
            &&& !reads && !event.writable ==> after == before
        }),
{
    tasks_of_earlier_clients(clients, event, clients.len());
    let before = crate::server::client_tasks(clients, clients.len());
    let after = crate::server::client_tasks(clients.push(event), clients.len() + 1);
    let read = Task::ReadClient(clients.len() as usize);
    let write = Task::FlushClient(clients.len() as usize);
    let reads = event.readable || event.hung_up || event.failed;
    assert(clients.push(event)[clients.len() as int] == event);
    if reads && event.writable {
        assert(after == before + seq![read, write]);
    } else if reads {
        assert(after == before + seq![read]);
    } else if event.writable {
        assert(after == before + seq![write]);
    } else {
        assert(after == before);
    }
}

/// That nothing has come about on a descriptor.
pub open spec fn nothing_came() -> Events {
    Events { readable: false, writable: false, hung_up: false, failed: false, invalid: false }
}

proof fn grouped_to_the_right(
    a: Seq<Task>,
    b: Seq<Task>,
    c: Seq<Task>,
    d: Seq<Task>,
    e: Seq<Task>,
    f: Seq<Task>,
    g: Seq<Task>,
)
    ensures
        a + b + c + d + e + f + g == a + (b + (c + (d + (e + f + g)))),
{
    assert(a + b + c + d + e + f + g == a + b + c + d + (e + f + g));
    let h = e + f + g;
    assert(a + b + c + d + h == a + b + c + (d + h));
    assert(a + b + c + (d + h) == a + b + (c + (d + h)));
    assert(a + b + (c + (d + h)) == a + (b + (c + (d + h))));
}

proof fn round_from_its_end(
    listener: Events,
    signals: Events,
    pty: Events,
    clients: Seq<Events>,
)
    ensures
        crate::server::planned(listener, signals, pty, clients) == crate::server::task_if(
            signals.spec_any(),
            Task::Signals,
        ) + (crate::server::task_if(pty.writable, Task::WritePty) + (crate::server::task_if(
            pty.spec_wants_read(),
            Task::ReadPty,
        ) + (crate::server::task_if(pty.invalid, Task::ClosePty) + (crate::server::client_tasks(
            clients,
            clients.len(),
        ) + seq![Task::Reap] + crate::server::task_if(listener.readable, Task::Accept))))),
{
    grouped_to_the_right(
        crate::server::task_if(signals.spec_any(), Task::Signals),
        crate::server::task_if(pty.writable, Task::WritePty),
        crate::server::task_if(pty.spec_wants_read(), Task::ReadPty),
        crate::server::task_if(pty.invalid, Task::ClosePty),
        crate::server::client_tasks(clients, clients.len()),
        seq![Task::Reap],
        crate::server::task_if(listener.readable, Task::Accept),
    );
}

proof fn nothing_before(tasks: Seq<Task>)
    ensures
        Seq::<Task>::empty() + tasks == tasks,
        tasks + Seq::<Task>::empty() == tasks,
{
}

/// A round looks after the signals before all else, if anything has come about on the pipe
/// that they come through.
pub proof fn rounds_begin_with_signals(
    listener: Events,
    signals: Events,
    pty: Events,
    clients: Seq<Events>,
)
    ensures
        ({
            let without = crate::server::planned(listener, nothing_came(), pty, clients);
            let noted = signals.readable || signals.writable || signals.hung_up || signals.failed
                || signals.invalid;
            crate::server::planned(listener, signals, pty, clients) == if noted {
                seq![Task::Signals] + without
            } else {
                without
            }
        }),
{
    let quiet = nothing_came();
    round_from_its_end(listener, signals, pty, clients);
    round_from_its_end(listener, quiet, pty, clients);
    nothing_before(crate::server::planned(listener, quiet, pty, clients));
}

/// A round then looks after the program's terminal: it writes to it if it can, reads from it if
/// that would come back with something, and then closes it if it is no more.
pub proof fn rounds_go_on_with_the_program(listener: Events, pty: Events, clients: Seq<Events>)
    ensures
        ({
            let quiet = nothing_came();
            let tasks = crate::server::planned(listener, quiet, pty, clients);
            let unwritten = Events { writable: false, ..pty };
            let unread = Events { readable: false, hung_up: false, failed: false, ..unwritten };
            let last = crate::server::planned(listener, quiet, quiet, clients);
            let closed = crate::server::planned(listener, quiet, unread, clients);
            let read = crate::server::planned(listener, quiet, unwritten, clients);
            &&& closed == if pty.invalid {
                seq![Task::ClosePty] + last
            } else {
                last
            }
            &&& read == if pty.readable || pty.hung_up || pty.failed {
                seq![Task::ReadPty] + closed
            } else {
                closed
            }
            &&& tasks == if pty.writable {
                seq![Task::WritePty] + read
            } else {
                read
            }
        }),
{
    let quiet = nothing_came();
    let unwritten = Events { writable: false, ..pty };
    let unread = Events { readable: false, hung_up: false, failed: false, ..unwritten };
    round_from_its_end(listener, quiet, pty, clients);
    round_from_its_end(listener, quiet, unwritten, clients);
    round_from_its_end(listener, quiet, unread, clients);
    round_from_its_end(listener, quiet, quiet, clients);
    let end = crate::server::client_tasks(clients, clients.len()) + seq![Task::Reap]
        + crate::server::task_if(listener.readable, Task::Accept);
    let close = crate::server::task_if(pty.invalid, Task::ClosePty) + end;
    let read = crate::server::task_if(pty.spec_wants_read(), Task::ReadPty) + close;
    nothing_before(end);
    nothing_before(close);
    nothing_before(read);
    nothing_before(crate::server::task_if(pty.writable, Task::WritePty) + read);
}

/// A round ends with the clients, each in turn, lets go of those that were given up, and
/// accepts connections last, if any wait.
pub proof fn rounds_end_with_connections(listener: Events, clients: Seq<Events>)
    ensures
        ({
            let quiet = nothing_came();
            let tasks = crate::server::client_tasks(clients, clients.len());
            crate::server::planned(listener, quiet, quiet, clients) == if listener.readable {
                tasks + seq![Task::Reap, Task::Accept]
            } else {
                tasks + seq![Task::Reap]
            }
        }),
{
    let quiet = nothing_came();
    let tasks = crate::server::client_tasks(clients, clients.len());
    round_from_its_end(listener, quiet, quiet, clients);
    let end = tasks + seq![Task::Reap] + crate::server::task_if(listener.readable, Task::Accept);
    nothing_before(end);
    if listener.readable {
        assert(end == tasks + seq![Task::Reap, Task::Accept]);
    } else {
        nothing_before(tasks + seq![Task::Reap]);
    }
}

/// The program is hung up once for every signal that asks to end, and for no other.
pub proof fn every_request_to_end_counts(signals: Seq<Signal>, signal: Signal)
    ensures
        crate::server::terminations(Seq::empty()) == 0,
        crate::server::terminations(signals.push(Signal::Terminate))
            == crate::server::terminations(signals) + 1,
        signal != Signal::Terminate ==> crate::server::terminations(signals.push(signal))
            == crate::server::terminations(signals),
{
    assert(signals.push(Signal::Terminate).drop_last() == signals);
    assert(signals.push(signal).drop_last() == signals);
}

/// Output is read up to 64 times more once the program has ended; the first terminal has five
/// seconds to come, with waits of 50 milliseconds; and clients then have two seconds to take
/// what they have still to get.
pub proof fn limits_of_the_end()
    ensures
        crate::server::DRAIN_LIMIT == 64,
        crate::server::FIRST_CLIENT_MS == 5000,
        crate::server::EXITED_POLL_MS == 50,
        crate::server::EXIT_FLUSH_MS == 2000,
{
}

} // verus!
