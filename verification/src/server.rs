//! The daemon that keeps a session: what it does with what its program writes, what
//! its terminals send, and what the operating system reports.
//!
//! `S` is whatever stands for the connection to a terminal.

use vstd::prelude::*;
use vstd::slice::slice_to_vec;

use crate::modes::{ModeTracker, Tracker};
use crate::protocol::{chunks, Content, Decoder, Message, VERSION};
use crate::sys::{Arrival, Events, Interest, Reading, Signal, Status, Writing};
use crate::text::{push_bytes, push_decimal};

verus! {

/// A terminal that is this far behind is given up.
pub const CLIENT_BACKLOG_LIMIT: usize = 1048576;

/// With this much input waiting for the program, no more is read.
pub const PTY_BACKLOG_LIMIT: usize = 65536;

/// How often output is read once more after the program has ended.
pub const DRAIN_LIMIT: usize = 64;

/// How long the first terminal has, from the start of the program, to come and see the
/// output of a program that has ended, in milliseconds.
pub const FIRST_CLIENT_MS: u64 = 5000;

/// How long clients have to take what they have still to get once the program has ended,
/// in milliseconds.
pub const EXIT_FLUSH_MS: u64 = 2000;

/// How long one wait for the first terminal takes at most once the program has ended, in
/// milliseconds.
pub const EXITED_POLL_MS: i32 = 50;

/// Whether there is time left for the first terminal to come, so many whole milliseconds
/// after the start of the program.
pub fn first_client_may_come(elapsed_ms: u64) -> (left: bool)
    ensures
        left == (elapsed_ms < FIRST_CLIENT_MS),
{
    elapsed_ms < FIRST_CLIENT_MS
}

/// Whether there is time left for clients to take what they have still to get, so many
/// whole milliseconds after the end was announced.
pub fn flushing_may_go_on(elapsed_ms: u64) -> (left: bool)
    ensures
        left == (elapsed_ms < EXIT_FLUSH_MS),
{
    elapsed_ms < EXIT_FLUSH_MS
}

/// A connection to the daemon.
pub struct Client<S> {
    pub stream: S,
    pub decoder: Decoder,
    pub outbox: Vec<u8>,
    pub attached: bool,
    pub closing: bool,
    pub dropped: bool,
}

/// What a [`Client`] holds: what it has sent that is no complete message yet, and what
/// is still to be sent to it.
#[verifier::ext_equal]
pub struct Peer<S> {
    pub stream: S,
    pub unread: Seq<u8>,
    pub outbox: Seq<u8>,
    pub attached: bool,
    pub closing: bool,
    pub dropped: bool,
}

impl<S> View for Client<S> {
    type V = Peer<S>;

    open spec fn view(&self) -> Peer<S> {
        Peer {
            stream: self.stream,
            unread: self.decoder@,
            outbox: self.outbox@,
            attached: self.attached,
            closing: self.closing,
            dropped: self.dropped,
        }
    }
}

impl<S> Peer<S> {
    /// A connection that has just been made.
    pub open spec fn fresh(stream: S) -> Peer<S> {
        Peer {
            stream,
            unread: Seq::empty(),
            outbox: Seq::empty(),
            attached: false,
            closing: false,
            dropped: false,
        }
    }

    /// With one more message to be sent.
    pub open spec fn sent(self, message: Content) -> Peer<S> {
        let outbox = self.outbox + message.frame();
        Peer {
            outbox,
            dropped: self.dropped || outbox.len() > CLIENT_BACKLOG_LIMIT,
            ..self
        }
    }

    /// With each of `pieces` to be sent as output.
    pub open spec fn sent_output(self, pieces: Seq<Seq<u8>>) -> Peer<S>
        decreases pieces.len(),
    {
        if pieces.len() == 0 {
            self
        } else {
            self.sent_output(pieces.drop_last()).sent(Content::Output(pieces.last()))
        }
    }

    /// With a last message to be sent.
    pub open spec fn closed_with(self, message: Content) -> Peer<S> {
        Peer { closing: true, ..self.sent(message) }
    }

    /// Given up if it was closing and everything has been sent.
    pub open spec fn settled(self) -> Peer<S> {
        if self.closing && self.outbox.len() == 0 {
            Peer { dropped: true, ..self }
        } else {
            self
        }
    }

    /// After a write of the outbox, and whether to write again.
    pub open spec fn flushed(self, outcome: Writing) -> (Peer<S>, bool) {
        match outcome {
            Writing::Written(count) => {
                let after = Peer { outbox: self.outbox.skip(count as int), ..self };
                if after.outbox.len() > 0 {
                    (after, true)
                } else {
                    (after.settled(), false)
                }
            },
            Writing::Blocked => (self.settled(), false),
            Writing::Failed => (Peer { dropped: true, ..self }, false),
        }
    }
}

impl<S> Client<S> {
    pub fn new(stream: S) -> (client: Self)
        ensures
            client@ == Peer::fresh(stream),
    {
        Client {
            stream,
            decoder: Decoder::default(),
            outbox: Vec::new(),
            attached: false,
            closing: false,
            dropped: false,
        }
    }

    /// Puts a message behind those to be sent.
    pub fn send(&mut self, message: &Message)
        ensures
            final(self)@ == old(self)@.sent(message@),
    {
        let mut frame = message.encode();
        self.outbox.append(&mut frame);
        if self.outbox.len() > CLIENT_BACKLOG_LIMIT {
            self.dropped = true;
        }
    }

    /// Puts a last message behind those to be sent.
    pub fn close_with(&mut self, message: &Message)
        ensures
            final(self)@ == old(self)@.closed_with(message@),
    {
        self.send(message);
        self.closing = true;
    }

    fn settle(&mut self)
        ensures
            final(self)@ == old(self)@.settled(),
    {
        if self.closing && self.outbox.len() == 0 {
            self.dropped = true;
        }
    }

    /// Whether the outbox is to be written. A client that was closing is given up once
    /// there is nothing to write.
    pub fn flush(&mut self) -> (write: bool)
        ensures
            write == (old(self)@.outbox.len() > 0),
            final(self)@ == if write { old(self)@ } else { old(self)@.settled() },
    {
        if self.outbox.len() > 0 {
            true
        } else {
            self.settle();
            false
        }
    }

    /// What follows from a write of the outbox: whether to write again.
    pub fn flushed(&mut self, outcome: Writing) -> (again: bool)
        requires
            outcome matches Writing::Written(count) ==> count <= old(self)@.outbox.len(),
        ensures
            (final(self)@, again) == old(self)@.flushed(outcome),
    {
        match outcome {
            Writing::Written(count) => {
                let rest = self.outbox.split_off(count);
                self.outbox = rest;
                assert(self.outbox@ == old(self).outbox@.skip(count as int));
                self.flush()
            },
            Writing::Blocked => {
                self.settle();
                false
            },
            Writing::Failed => {
                self.dropped = true;
                false
            },
        }
    }
}

/// The daemon of a session.
pub struct Server<S> {
    pub clients: Vec<Client<S>>,
    pub pty_open: bool,
    pub exit_code: Option<i32>,
    pub tracker: ModeTracker,
    pub pty_backlog: Vec<u8>,
    pub early_output: Option<Vec<u8>>,
}

/// What a [`Server`] holds: its terminals, whether the program's terminal is open, the
/// status that the program ended with, the modes that it set, the input that waits for
/// it, and, until the first terminal attaches, its output.
#[verifier::ext_equal]
pub struct Session<S> {
    pub clients: Seq<Peer<S>>,
    pub pty_open: bool,
    pub exit_code: Option<i32>,
    pub tracker: Tracker,
    pub backlog: Seq<u8>,
    pub early: Option<Seq<u8>>,
}

pub open spec fn peers<S>(clients: Seq<Client<S>>) -> Seq<Peer<S>> {
    Seq::new(clients.len(), |i: int| clients[i]@)
}

impl<S> View for Server<S> {
    type V = Session<S>;

    open spec fn view(&self) -> Session<S> {
        Session {
            clients: peers(self.clients@),
            pty_open: self.pty_open,
            exit_code: self.exit_code,
            tracker: self.tracker@,
            backlog: self.pty_backlog@,
            early: match self.early_output {
                Some(early) => Some(early@),
                None => None,
            },
        }
    }
}

/// What a message from a terminal asks of the program's terminal.
#[derive(Clone, Copy, PartialEq, Eq, Debug)]
pub struct Effect {
    /// Give it this size.
    pub resize: Option<(u16, u16)>,
    /// Tell the program to draw again.
    pub redraw: bool,
}

/// What is said to a client that speaks another version.
pub open spec fn version_mismatch(version: u8) -> Seq<char> {
    "speaks protocol "@ + crate::text::decimal(VERSION as nat) + " but the client speaks "@
        + crate::text::decimal(version as nat) + "; restart the session"@
}

/// The size that is set: none that has no rows or no columns.
pub open spec fn usable(rows: u16, cols: u16) -> Option<(u16, u16)> {
    if rows > 0 && cols > 0 {
        Some((rows, cols))
    } else {
        None
    }
}

pub open spec fn no_effect() -> Effect {
    Effect { resize: None, redraw: false }
}

impl<S> Session<S> {
    /// A session whose program has just been started.
    pub open spec fn fresh() -> Session<S> {
        Session {
            clients: Seq::empty(),
            pty_open: true,
            exit_code: None,
            tracker: Tracker::initial(),
            backlog: Seq::empty(),
            early: Some(Seq::empty()),
        }
    }

    /// With client `i` replaced.
    pub open spec fn with_client(self, i: int, client: Peer<S>) -> Session<S> {
        Session { clients: self.clients.update(i, client), ..self }
    }

    /// With `message` sent to every attached client.
    pub open spec fn sent_to_attached(self, message: Content) -> Session<S> {
        Session {
            clients: Seq::new(
                self.clients.len(),
                |i: int|
                    if self.clients[i].attached {
                        self.clients[i].sent(message)
                    } else {
                        self.clients[i]
                    },
            ),
            ..self
        }
    }

    /// After output of the program.
    pub open spec fn broadcast(self, data: Seq<u8>) -> Session<S> {
        let tracker = self.tracker.scan(data);
        let early = match self.early {
            Some(early) => if early.len() + data.len() > CLIENT_BACKLOG_LIMIT {
                Some(tracker.replay())
            } else {
                Some(early + data)
            },
            None => None,
        };
        Session { tracker, early, ..self.sent_to_attached(Content::Output(data)) }
    }

    /// What a client that attaches is shown first: the output so far if it is the first
    /// one, and else what puts its terminal into the program's modes.
    pub open spec fn initial_output(self) -> Seq<u8> {
        match self.early {
            Some(early) => early,
            None => self.tracker.replay(),
        }
    }

    /// After client `i` attached.
    pub open spec fn attached(self, i: int) -> Session<S> {
        let client = Peer { attached: true, ..self.clients[i] };
        let shown = client.sent_output(crate::protocol::chunked(self.initial_output()));
        Session { early: None, ..self.with_client(i, shown) }
    }

    /// After client `i` asked for every terminal to be detached.
    pub open spec fn detached_all(self, i: int) -> Session<S> {
        Session {
            clients: Seq::new(
                self.clients.len(),
                |j: int|
                    if j == i || self.clients[j].attached {
                        self.clients[j].closed_with(Content::Detached)
                    } else {
                        self.clients[j]
                    },
            ),
            ..self
        }
    }

    /// After client `i` turned out to speak another version.
    pub open spec fn refused(self, i: int, version: u8) -> Session<S> {
        self.with_client(
            i,
            self.clients[i].closed_with(Content::Error(version_mismatch(version))),
        )
    }

    /// After a message from client `i`, and what it asks of the program's terminal. A
    /// client that sends what it may not send is given up.
    pub open spec fn handled(self, i: int, message: Content) -> (Session<S>, Effect) {
        let client = self.clients[i];
        match message {
            Content::Attach { version, rows, cols } if !client.attached => if version == VERSION {
                (self.attached(i), Effect { resize: usable(rows, cols), redraw: true })
            } else {
                (self.refused(i, version), no_effect())
            },
            Content::Input(data) if client.attached => (
                Session { backlog: self.backlog + data, ..self },
                no_effect(),
            ),
            Content::Resize { rows, cols } if client.attached => (
                self,
                Effect { resize: usable(rows, cols), redraw: false },
            ),
            Content::Disconnect { version } if !client.attached => if version == VERSION {
                (self.detached_all(i), no_effect())
            } else {
                (self.refused(i, version), no_effect())
            },
            _ => (self.with_client(i, Peer { dropped: true, ..client }), no_effect()),
        }
    }
}

impl<S> Server<S> {
    /// The daemon of a session whose program has just been started.
    pub fn new() -> (server: Self)
        ensures
            server@ == Session::<S>::fresh(),
    {
        Server {
            clients: Vec::new(),
            pty_open: true,
            exit_code: None,
            tracker: ModeTracker::default(),
            pty_backlog: Vec::new(),
            early_output: Some(Vec::new()),
        }
    }

    /// Takes in a new connection.
    pub fn accept(&mut self, stream: S)
        ensures
            final(self)@ == (Session {
                clients: old(self)@.clients.push(Peer::fresh(stream)),
                ..old(self)@
            }),
    {
        self.clients.push(Client::new(stream));
        assert(self@.clients == old(self)@.clients.push(Peer::fresh(stream)));
    }

    fn send_to_attached(&mut self, message: &Message)
        ensures
            final(self)@ == old(self)@.sent_to_attached(message@),
    {
        let ghost before = self.clients@;
        let mut i: usize = 0;
        while i < self.clients.len()
            invariant
                i <= self.clients.len(),
                before == old(self).clients@,
                self@ == (Session { clients: self@.clients, ..old(self)@ }),
                self.clients@.len() == before.len(),
                forall|j: int|
                    0 <= j < i ==> (#[trigger] self.clients@[j])@ == if before[j]@.attached {
                        before[j]@.sent(message@)
                    } else {
                        before[j]@
                    },
                forall|j: int| i <= j < before.len() ==> self.clients@[j] == before[j],
            decreases self.clients.len() - i,
        {
            if self.clients[i].attached {
                self.clients[i].send(message);
            }
            i += 1;
        }
        assert(self@.clients == old(self)@.sent_to_attached(message@).clients);
    }

    /// Passes on output of the program.
    pub fn broadcast(&mut self, data: &[u8])
        ensures
            final(self)@ == old(self)@.broadcast(data@),
    {
        self.tracker.scan(data);
        if let Some(early) = self.early_output.take() {
            let mut early = early;
            if data.len() > CLIENT_BACKLOG_LIMIT || early.len() > CLIENT_BACKLOG_LIMIT - data.len() {
                early = self.tracker.replay();
            } else {
                push_bytes(&mut early, data);
            }
            self.early_output = Some(early);
        }
        let message = Message::Output(slice_to_vec(data));
        self.send_to_attached(&message);
    }
}

impl<S> Peer<S> {
    /// Sending output changes nothing but what is to be sent and whether the client is
    /// given up for being behind.
    pub proof fn sent_output_keeps(self, pieces: Seq<Seq<u8>>)
        ensures
            self.sent_output(pieces) == (Peer {
                outbox: self.sent_output(pieces).outbox,
                dropped: self.sent_output(pieces).dropped,
                ..self
            }),
        decreases pieces.len(),
    {
        if pieces.len() > 0 {
            self.sent_output_keeps(pieces.drop_last());
        }
    }
}

impl<S> Session<S> {
    /// A message from a client leaves what that client has sent besides.
    pub proof fn handled_keeps_unread(self, i: int, message: Content)
        requires
            0 <= i < self.clients.len(),
        ensures
            self.handled(i, message).0.clients.len() == self.clients.len(),
            self.handled(i, message).0.clients[i].unread == self.clients[i].unread,
    {
        let client = Peer { attached: true, ..self.clients[i] };
        client.sent_output_keeps(crate::protocol::chunked(self.initial_output()));
    }

    /// After the messages that client `i` has sent, each in turn until it is to be closed
    /// or is given up, and what they ask of the program's terminal.
    pub open spec fn served(self, i: int) -> (Session<S>, Seq<Effect>)
        decreases self.clients[i].unread.len(),
    {
        let client = self.clients[i];
        if !(0 <= i < self.clients.len()) || client.closing || client.dropped {
            (self, Seq::empty())
        } else {
            let (taken, unread) = crate::protocol::take_message(client.unread);
            let read = self.with_client(i, Peer { unread, ..client });
            match taken {
                Ok(Some(message)) => {
                    let (next, effect) = read.handled(i, message);
                    proof {
                        read.handled_keeps_unread(i, message);
                    }
                    let (last, effects) = next.served(i);
                    (last, seq![effect] + effects)
                },
                Ok(None) => (read, Seq::empty()),
                Err(_) => (
                    self.with_client(i, Peer { unread, dropped: true, ..client }),
                    Seq::empty(),
                ),
            }
        }
    }

    /// After a read from client `i`.
    pub open spec fn client_read(self, i: int, arrival: Arrival) -> (Session<S>, Seq<Effect>) {
        let client = self.clients[i];
        match arrival {
            Arrival::Data(data) => self.with_client(
                i,
                Peer { unread: client.unread + data, ..client },
            ).served(i),
            Arrival::Blocked => (self, Seq::empty()),
            Arrival::End | Arrival::Failed(_) => (
                self.with_client(i, Peer { dropped: true, ..client }),
                Seq::empty(),
            ),
        }
    }

    /// After a read from the program's terminal.
    pub open spec fn pty_read(self, arrival: Arrival) -> Session<S> {
        match arrival {
            Arrival::Data(data) => self.broadcast(data),
            Arrival::Blocked => self,
            Arrival::End | Arrival::Failed(_) => Session { pty_open: false, ..self },
        }
    }

    /// After a write of the waiting input to the program's terminal.
    pub open spec fn pty_written(self, outcome: Writing) -> Session<S> {
        match outcome {
            Writing::Written(count) => Session { backlog: self.backlog.skip(count as int), ..self },
            Writing::Blocked => self,
            Writing::Failed => Session { backlog: Seq::empty(), ..self },
        }
    }

    /// Without the clients that were given up.
    pub open spec fn reaped(self) -> Session<S> {
        Session { clients: self.clients.filter(|client: Peer<S>| !client.dropped), ..self }
    }

    /// What client `i` is watched for: messages, unless the client is closing or too much
    /// input waits for the program, and room for what it has still to get.
    pub open spec fn client_interest(self, i: int) -> Interest {
        Interest {
            read: self.backlog.len() < PTY_BACKLOG_LIMIT && !self.clients[i].closing,
            write: self.clients[i].outbox.len() > 0,
        }
    }

    /// After the program has ended with a status: each attached client is told, and the
    /// others are given up.
    pub open spec fn announced(self) -> Session<S> {
        let code = match self.exit_code {
            Some(code) => code,
            None => 0,
        };
        Session {
            clients: Seq::new(
                self.clients.len(),
                |i: int|
                    if self.clients[i].attached {
                        self.clients[i].closed_with(Content::Exit(code))
                    } else {
                        Peer { dropped: true, ..self.clients[i] }
                    },
            ),
            ..self
        }
    }
}

impl<S> Server<S> {
    /// Tells client `index` that it speaks another version, if it does.
    fn version_matches(&mut self, index: usize, version: u8) -> (same: bool)
        requires
            index < old(self).clients@.len(),
        ensures
            same == (version == VERSION),
            final(self)@ == if same {
                old(self)@
            } else {
                old(self)@.refused(index as int, version)
            },
    {
        if version == VERSION {
            return true;
        }
        let mut text = "speaks protocol ".to_owned();
        push_decimal(&mut text, VERSION as usize);
        text.append(" but the client speaks ");
        push_decimal(&mut text, version as usize);
        text.append("; restart the session");
        self.clients[index].close_with(&Message::Error(text));
        assert(self@.clients == old(self)@.refused(index as int, version).clients);
        false
    }

    fn attach(&mut self, index: usize)
        requires
            index < old(self).clients@.len(),
        ensures
            final(self)@ == old(self)@.attached(index as int),
    {
        let initial: Vec<u8> = match self.early_output.take() {
            Some(early) => early,
            None => self.tracker.replay(),
        };
        let ghost before = self.clients@;
        self.clients[index].attached = true;
        let pieces = chunks(initial.as_slice());
        let ghost views = crate::protocol::slice_views(pieces@);
        let ghost client = Peer { attached: true, ..before[index as int]@ };
        let mut i: usize = 0;
        assert(views.take(0) == Seq::<Seq<u8>>::empty());
        while i < pieces.len()
            invariant
                i <= pieces.len(),
                index < before.len(),
                views == crate::protocol::slice_views(pieces@),
                self.clients@.len() == before.len(),
                self.clients@[index as int]@ == client.sent_output(views.take(i as int)),
                forall|j: int|
                    0 <= j < before.len() && j != index ==> self.clients@[j] == before[j],
                self@ == (Session { clients: self@.clients, early: None, ..old(self)@ }),
            decreases pieces.len() - i,
        {
            let message = Message::Output(slice_to_vec(pieces[i]));
            self.clients[index].send(&message);
            i += 1;
            assert(views.take(i as int).drop_last() == views.take(i - 1));
        }
        assert(views.take(i as int) == views);
        assert(self@.clients == old(self)@.attached(index as int).clients);
    }

    fn detach_all(&mut self, index: usize)
        requires
            index < old(self).clients@.len(),
        ensures
            final(self)@ == old(self)@.detached_all(index as int),
    {
        let ghost before = self.clients@;
        let mut i: usize = 0;
        while i < self.clients.len()
            invariant
                i <= self.clients.len(),
                before == old(self).clients@,
                self@ == (Session { clients: self@.clients, ..old(self)@ }),
                self.clients@.len() == before.len(),
                forall|j: int|
                    0 <= j < i ==> (#[trigger] self.clients@[j])@ == if j == index
                        || before[j]@.attached {
                        before[j]@.closed_with(Content::Detached)
                    } else {
                        before[j]@
                    },
                forall|j: int| i <= j < before.len() ==> self.clients@[j] == before[j],
            decreases self.clients.len() - i,
        {
            if i == index || self.clients[i].attached {
                self.clients[i].close_with(&Message::Detached);
            }
            i += 1;
        }
        assert(self@.clients == old(self)@.detached_all(index as int).clients);
    }

    /// Deals with a message from client `index`.
    pub fn handle_message(&mut self, index: usize, message: Message) -> (effect: Effect)
        requires
            index < old(self).clients@.len(),
        ensures
            (final(self)@, effect) == old(self)@.handled(index as int, message@),
    {
        let attached: bool = self.clients[index].attached;
        let nothing = Effect { resize: None, redraw: false };
        match message {
            Message::Attach { version, rows, cols } if !attached => {
                if self.version_matches(index, version) {
                    self.attach(index);
                    return Effect { resize: size(rows, cols), redraw: true };
                }
            },
            Message::Input(data) if attached => {
                push_bytes(&mut self.pty_backlog, data.as_slice());
            },
            Message::Resize { rows, cols } if attached => {
                return Effect { resize: size(rows, cols), redraw: false };
            },
            Message::Disconnect { version } if !attached => {
                if self.version_matches(index, version) {
                    self.detach_all(index);
                }
            },
            _ => {
                self.clients[index].dropped = true;
                assert(self@.clients == old(self)@.handled(index as int, message@).0.clients);
            },
        }
        nothing
    }
}

/// The size that is set: none that has no rows or no columns.
fn size(rows: u16, cols: u16) -> (size: Option<(u16, u16)>)
    ensures
        size == usable(rows, cols),
{
    if rows > 0 && cols > 0 {
        Some((rows, cols))
    } else {
        None
    }
}

/// One thing to do after a poll.
#[derive(Clone, Copy, PartialEq, Eq, Debug, Structural)]
pub enum Task {
    /// Take in the signals, hang up the program as [`hangups`] says, and report how the
    /// program is.
    Signals,
    /// Write the waiting input to the program's terminal.
    WritePty,
    /// Read from the program's terminal.
    ReadPty,
    /// Take the program's terminal for closed.
    ClosePty,
    /// Read from a client.
    ReadClient(usize),
    /// Write the outbox of a client.
    FlushClient(usize),
    /// Let go of the clients that were given up.
    Reap,
    /// Accept the connections that wait.
    Accept,
}

/// `task` alone, or nothing.
pub open spec fn task_if(due: bool, task: Task) -> Seq<Task> {
    if due {
        seq![task]
    } else {
        Seq::empty()
    }
}

/// What to do about the first `count` clients.
pub open spec fn client_tasks(clients: Seq<Events>, count: nat) -> Seq<Task>
    decreases count,
{
    if count == 0 {
        Seq::empty()
    } else {
        let i = (count - 1) as int;
        client_tasks(clients, i as nat) + task_if(
            clients[i].spec_wants_read(),
            Task::ReadClient(i as usize),
        ) + task_if(clients[i].writable, Task::FlushClient(i as usize))
    }
}

/// What to do after a poll, in order: signals first, then the program's terminal, then
/// each client, and new connections last, once the clients given up are gone.
pub open spec fn planned(
    listener: Events,
    signals: Events,
    pty: Events,
    clients: Seq<Events>,
) -> Seq<Task> {
    task_if(signals.spec_any(), Task::Signals) + task_if(pty.writable, Task::WritePty) + task_if(
        pty.spec_wants_read(),
        Task::ReadPty,
    ) + task_if(pty.invalid, Task::ClosePty) + client_tasks(clients, clients.len()) + seq![
        Task::Reap,
    ] + task_if(listener.readable, Task::Accept)
}

fn push_if(tasks: &mut Vec<Task>, due: bool, task: Task)
    ensures
        final(tasks)@ == old(tasks)@ + task_if(due, task),
{
    if due {
        tasks.push(task);
    }
    assert(tasks@ == old(tasks)@ + task_if(due, task));
}

/// What to do after a poll, by what came about on the listener, on the pipe that signals
/// come through, on the program's terminal and on each client.
pub fn plan(listener: Events, signals: Events, pty: Events, clients: &Vec<Events>) -> (tasks: Vec<
    Task,
>)
    ensures
        tasks@ == planned(listener, signals, pty, clients@),
{
    let mut tasks: Vec<Task> = Vec::new();
    push_if(&mut tasks, signals.any(), Task::Signals);
    push_if(&mut tasks, pty.writable, Task::WritePty);
    push_if(&mut tasks, pty.wants_read(), Task::ReadPty);
    push_if(&mut tasks, pty.invalid, Task::ClosePty);
    let ghost before = tasks@;
    let mut i: usize = 0;
    while i < clients.len()
        invariant
            i <= clients.len(),
            tasks@ == before + client_tasks(clients@, i as nat),
        decreases clients.len() - i,
    {
        push_if(&mut tasks, clients[i].wants_read(), Task::ReadClient(i));
        push_if(&mut tasks, clients[i].writable, Task::FlushClient(i));
        i += 1;
        assert(tasks@ == before + client_tasks(clients@, i as nat));
    }
    tasks.push(Task::Reap);
    push_if(&mut tasks, listener.readable, Task::Accept);
    assert(tasks@ == planned(listener, signals, pty, clients@));
    tasks
}

/// How many of the signals ask the daemon to end.
pub open spec fn terminations(signals: Seq<Signal>) -> nat
    decreases signals.len(),
{
    if signals.len() == 0 {
        0
    } else {
        terminations(signals.drop_last()) + if signals.last() is Terminate {
            1nat
        } else {
            0nat
        }
    }
}

/// How often the program is to be hung up: once for each signal that asks to end.
pub fn hangups(signals: &Vec<Signal>) -> (count: usize)
    ensures
        count == terminations(signals@),
{
    let mut count: usize = 0;
    let mut i: usize = 0;
    while i < signals.len()
        invariant
            i <= signals.len(),
            count <= i,
            count == terminations(signals@.take(i as int)),
        decreases signals.len() - i,
    {
        if let Signal::Terminate = signals[i] {
            count += 1;
        }
        i += 1;
        assert(signals@.take(i as int).drop_last() == signals@.take(i - 1));
    }
    assert(signals@.take(i as int) == signals@);
    count
}

/// How to wait for the next events.
#[derive(Clone, Copy, PartialEq, Eq, Debug, Structural)]
pub enum Wait {
    /// As long as it takes.
    Forever,
    /// Only a short time: the program has ended, and the first terminal may yet come to
    /// see its output.
    Briefly,
    /// Not at all: the session ends.
    Finish,
}

impl Wait {
    /// How many milliseconds to wait at most, with -1 for as long as it takes; none where
    /// the session ends.
    pub fn timeout_ms(&self) -> (timeout: Option<i32>)
        ensures
            timeout == match *self {
                Wait::Forever => Some(-1i32),
                Wait::Briefly => Some(EXITED_POLL_MS),
                Wait::Finish => None,
            },
    {
        match self {
            Wait::Forever => Some(-1),
            Wait::Briefly => Some(EXITED_POLL_MS),
            Wait::Finish => None,
        }
    }
}

/// How the end of a session goes on.
#[derive(Clone, Copy, PartialEq, Eq, Debug, Structural)]
pub enum Ending {
    /// Read from the program's terminal once more.
    ReadPty,
    /// Write to the clients what they have still to get.
    Flush,
    /// Wait until a client can take more, then write.
    Poll,
    Done,
}

impl<S> Server<S> {
    /// Deals with a read from client `index`.
    pub fn read_client(&mut self, index: usize, reading: Reading) -> (effects: Vec<Effect>)
        requires
            index < old(self).clients@.len(),
        ensures
            (final(self)@, effects@) == old(self)@.client_read(index as int, reading@),
    {
        let mut effects: Vec<Effect> = Vec::new();
        match reading {
            Reading::Data(data) => self.clients[index].decoder.push(data.as_slice()),
            Reading::Blocked => return effects,
            Reading::End | Reading::Failed(_) => {
                self.clients[index].dropped = true;
                assert(self@.clients == old(self)@.client_read(
                    index as int,
                    reading@,
                ).0.clients);
                return effects;
            },
        }
        let ghost start = self@;
        assert(start.clients == old(self)@.clients.update(
            index as int,
            start.clients[index as int],
        ));
        loop
            invariant_except_break
                index < self.clients@.len(),
                start.served(index as int) == (
                    self@.served(index as int).0,
                    effects@ + self@.served(index as int).1,
                ),
            ensures
                start.served(index as int) == (self@, effects@),
            decreases self@.clients[index as int].unread.len(),
        {
            let ghost before = self@;
            assert(before.clients[index as int] == self.clients@[index as int]@);
            if self.clients[index].closing || self.clients[index].dropped {
                break;
            }
            match self.clients[index].decoder.next_message() {
                Ok(Some(message)) => {
                    let ghost read = self@;
                    proof {
                        let (taken, unread) = crate::protocol::take_message(
                            before.clients[index as int].unread,
                        );
                        assert(read.clients == before.clients.update(
                            index as int,
                            Peer { unread, ..before.clients[index as int] },
                        ));
                        read.handled_keeps_unread(index as int, message@);
                    }
                    let ghost done = effects@;
                    let effect = self.handle_message(index, message);
                    effects.push(effect);
                    assert(done + (seq![effect] + self@.served(index as int).1) == effects@
                        + self@.served(index as int).1);
                },
                Ok(None) => {
                    assert(self@.clients == before.served(index as int).0.clients);
                    break;
                },
                Err(_) => {
                    self.clients[index].dropped = true;
                    assert(self@.clients == before.served(index as int).0.clients);
                    break;
                },
            }
        }
        effects
    }

    /// Deals with a read from the program's terminal, and says whether data arrived.
    pub fn read_pty(&mut self, reading: Reading) -> (arrived: bool)
        ensures
            arrived == (reading is Data),
            final(self)@ == old(self)@.pty_read(reading@),
    {
        match reading {
            Reading::Data(data) => {
                self.broadcast(data.as_slice());
                true
            },
            Reading::Blocked => false,
            Reading::End | Reading::Failed(_) => {
                self.pty_open = false;
                false
            },
        }
    }

    /// Deals with a write of the waiting input to the program's terminal.
    pub fn write_pty(&mut self, outcome: Writing)
        requires
            outcome matches Writing::Written(count) ==> count <= old(self)@.backlog.len(),
        ensures
            final(self)@ == old(self)@.pty_written(outcome),
    {
        match outcome {
            Writing::Written(count) => {
                let rest = self.pty_backlog.split_off(count);
                self.pty_backlog = rest;
                assert(self@.backlog == old(self)@.backlog.skip(count as int));
            },
            Writing::Blocked => {},
            Writing::Failed => self.pty_backlog.clear(),
        }
    }

    /// Takes the program's terminal for closed.
    pub fn close_pty(&mut self)
        ensures
            final(self)@ == (Session { pty_open: false, ..old(self)@ }),
    {
        self.pty_open = false;
    }

    /// Takes note of how the program is, if that could be found out.
    pub fn child_status(&mut self, status: Option<Status>)
        ensures
            final(self)@ == (match status {
                Some(Status::Exited(code)) => Session { exit_code: Some(code), ..old(self)@ },
                _ => old(self)@,
            }),
    {
        if let Some(Status::Exited(code)) = status {
            self.exit_code = Some(code);
        }
    }

    /// Lets go of the clients that were given up.
    pub fn reap(&mut self)
        ensures
            final(self)@ == old(self)@.reaped(),
    {
        let ghost before = peers(self.clients@);
        let ghost stays = |client: Peer<S>| !client.dropped;
        let mut left: Vec<Client<S>> = Vec::new();
        left.append(&mut self.clients);
        let ghost mut seen: int = 0;
        assert(before.skip(0) == before);
        assert(before.take(0).filter(stays) == Seq::<Peer<S>>::empty()) by {
            reveal(Seq::filter);
        }
        while left.len() > 0
            invariant
                0 <= seen <= before.len(),
                before == old(self)@.clients,
                self@ == (Session { clients: self@.clients, ..old(self)@ }),
                stays == (|client: Peer<S>| !client.dropped),
                peers(left@) == before.skip(seen),
                self@.clients == before.take(seen).filter(stays),
            decreases left@.len(),
        {
            let ghost kept = self@.clients;
            let ghost all = left@;
            assert(peers(all).len() == all.len());
            let client = left.remove(0);
            let ghost peer = client@;
            assert(peer == peers(all)[0]);
            assert(peers(left@) == peers(all).drop_first());
            assert(peers(left@) == before.skip(seen + 1));
            assert(before.take(seen + 1).drop_last() == before.take(seen));
            assert(before.take(seen + 1).last() == peer);
            if !client.dropped {
                self.clients.push(client);
                assert(self@.clients == kept.push(peer));
            }
            proof {
                reveal(Seq::filter);
                seen = seen + 1;
            }
        }
        assert(before.take(seen) == before);
    }

    /// What the program's terminal is watched for; nothing once it is closed.
    pub fn pty_interest(&self) -> (interest: Interest)
        ensures
            interest.read == self@.pty_open,
            interest.write == (self@.pty_open && self@.backlog.len() > 0),
    {
        Interest { read: self.pty_open, write: self.pty_open && self.pty_backlog.len() > 0 }
    }

    /// What each client is watched for.
    pub fn client_interests(&self) -> (interests: Vec<Interest>)
        ensures
            interests@.len() == self@.clients.len(),
            forall|i: int|
                0 <= i < self@.clients.len() ==> (#[trigger] interests@[i])
                    == self@.client_interest(i),
    {
        let accepting: bool = self.pty_backlog.len() < PTY_BACKLOG_LIMIT;
        let mut interests: Vec<Interest> = Vec::new();
        let mut i: usize = 0;
        while i < self.clients.len()
            invariant
                i <= self.clients.len(),
                accepting == (self@.backlog.len() < PTY_BACKLOG_LIMIT),
                interests@.len() == i,
                forall|j: int|
                    0 <= j < i ==> (#[trigger] interests@[j]) == (Interest {
                        read: accepting && !self.clients@[j]@.closing,
                        write: self.clients@[j]@.outbox.len() > 0,
                    }),
            decreases self.clients.len() - i,
        {
            let client = &self.clients[i];
            interests.push(
                Interest { read: accepting && !client.closing, write: client.outbox.len() > 0 },
            );
            i += 1;
        }
        interests
    }

    /// How to wait for the next events: `early` says whether there is time left for the
    /// first terminal to come.
    pub fn run(&self, early: bool) -> (wait: Wait)
        ensures
            wait == if self@.exit_code is None {
                Wait::Forever
            } else if self@.early is Some && early {
                Wait::Briefly
            } else {
                Wait::Finish
            },
    {
        match self.exit_code {
            None => Wait::Forever,
            Some(_) => if self.early_output.is_some() && early {
                Wait::Briefly
            } else {
                Wait::Finish
            },
        }
    }

    fn announce(&mut self)
        ensures
            final(self)@ == old(self)@.announced(),
    {
        let code: i32 = match self.exit_code {
            Some(code) => code,
            None => 0,
        };
        let ghost before = self.clients@;
        let mut i: usize = 0;
        while i < self.clients.len()
            invariant
                i <= self.clients.len(),
                before == old(self).clients@,
                self@ == (Session { clients: self@.clients, ..old(self)@ }),
                self.clients@.len() == before.len(),
                forall|j: int|
                    0 <= j < i ==> (#[trigger] self.clients@[j])@ == if before[j]@.attached {
                        before[j]@.closed_with(Content::Exit(code))
                    } else {
                        Peer { dropped: true, ..before[j]@ }
                    },
                forall|j: int| i <= j < before.len() ==> self.clients@[j] == before[j],
            decreases self.clients.len() - i,
        {
            if self.clients[i].attached {
                self.clients[i].close_with(&Message::Exit(code));
            } else {
                self.clients[i].dropped = true;
            }
            i += 1;
        }
        assert(self@.clients == old(self)@.announced().clients);
    }

    /// Begins the end of the session, or goes on with it after `drained` reads from the
    /// program's terminal that all gave data.
    pub fn finish(&mut self, drained: usize) -> (next: Ending)
        ensures
            next == if old(self)@.pty_open && drained < DRAIN_LIMIT {
                Ending::ReadPty
            } else {
                Ending::Flush
            },
            final(self)@ == if next is ReadPty { old(self)@ } else { old(self)@.announced() },
    {
        if self.pty_open && drained < DRAIN_LIMIT {
            Ending::ReadPty
        } else {
            self.announce();
            Ending::Flush
        }
    }

    /// Goes on with the end of the session after one more read from the program's
    /// terminal, with `drained` reads before it: as long as data arrives, and no more
    /// often than the limit, it is read again.
    pub fn drain(&mut self, reading: Reading, drained: usize) -> (next: Ending)
        requires
            drained < DRAIN_LIMIT,
        ensures
            ({
                let after = old(self)@.pty_read(reading@);
                &&& next == if reading is Data && after.pty_open && drained + 1 < DRAIN_LIMIT {
                    Ending::ReadPty
                } else {
                    Ending::Flush
                }
                &&& final(self)@ == if next is ReadPty { after } else { after.announced() }
            }),
    {
        if self.read_pty(reading) {
            self.finish(drained + 1)
        } else {
            self.announce();
            Ending::Flush
        }
    }

    /// Goes on with the end of the session once the clients had their chance to take
    /// what they have still to get: it is over when none is left, or no time.
    pub fn settle(&mut self, time_left: bool) -> (next: Ending)
        ensures
            final(self)@ == old(self)@.reaped(),
            next == if final(self)@.clients.len() == 0 || !time_left {
                Ending::Done
            } else {
                Ending::Poll
            },
    {
        self.reap();
        if self.clients.len() == 0 || !time_left {
            Ending::Done
        } else {
            Ending::Poll
        }
    }
}

} // verus!
