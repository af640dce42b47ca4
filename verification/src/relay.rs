//! What goes on between a terminal and the session that it is attached to.
//!
//! A [`Relay`] is told what has happened and says what to do next, until it says how it
//! ended. It goes in rounds: wait until something has come about, which is also what to
//! do first, then look at the signals, at what the session sends and at what is typed, in
//! this order.

use vstd::prelude::*;
use vstd::slice::{slice_subrange, slice_to_vec};

use crate::modes::{ModeTracker, Tracker};
use crate::protocol::{chunks, Content, Decoder, Message};
use crate::sys::{Arrival, Events, Reading, Signal};
use crate::text::{enclosed, joined};

verus! {

/// How it ends that a terminal is attached.
#[derive(Clone, Copy, PartialEq, Eq, Debug, Structural)]
pub enum Outcome {
    /// Someone left from here.
    Detached,
    /// Someone had every terminal detached.
    Disconnected,
    /// The program ended with this status.
    Exited(i32),
}

/// What has happened.
#[derive(Debug, PartialEq, Eq)]
pub enum Event {
    /// This has come about on the terminal, on the connection to the session, and on the
    /// pipe that signals come through.
    Polled { input: Events, socket: Events, signals: Events },
    /// These signals have come.
    Signals(Vec<Signal>),
    /// The terminal has this size, as far as it tells.
    Size(Option<(u16, u16)>),
    /// The bytes were sent to the session, or were not for a reason.
    Sent(Result<(), String>),
    /// The connection to the session was read from.
    Received(Reading),
    /// The bytes were shown on the terminal, or were not for a reason.
    Shown(Result<(), String>),
    /// The terminal was read from.
    Typed(Reading),
}

/// What to do next.
#[derive(Debug, PartialEq, Eq)]
pub enum Deed {
    /// Wait until something has come about.
    Poll,
    /// Take in the signals that have come.
    TakeSignals,
    /// Ask the terminal for its size.
    AskSize,
    /// Send all these bytes to the session.
    Send(Vec<u8>),
    /// Read from the connection to the session.
    Receive,
    /// Show all these bytes on the terminal.
    Show(Vec<u8>),
    /// Read from the terminal.
    Read,
    /// It has ended like this, or has failed for a reason.
    Finish(Result<Outcome, String>),
}

/// What an [`Event`] says.
#[verifier::ext_equal]
pub enum News {
    Polled { input: Events, socket: Events, signals: Events },
    Signals(Seq<Signal>),
    Size(Option<(u16, u16)>),
    Sent(Result<(), Seq<char>>),
    Received(Arrival),
    Shown(Result<(), Seq<char>>),
    Typed(Arrival),
}

/// What a [`Deed`] says.
#[verifier::ext_equal]
pub enum Order {
    Poll,
    TakeSignals,
    AskSize,
    Send(Seq<u8>),
    Receive,
    Show(Seq<u8>),
    Read,
    Finish(Result<Outcome, Seq<char>>),
}

impl View for Event {
    type V = News;

    open spec fn view(&self) -> News {
        match *self {
            Event::Polled { input, socket, signals } => News::Polled { input, socket, signals },
            Event::Signals(signals) => News::Signals(signals@),
            Event::Size(size) => News::Size(size),
            Event::Sent(result) => News::Sent(crate::text::outcome(result)),
            Event::Received(reading) => News::Received(reading@),
            Event::Shown(result) => News::Shown(crate::text::outcome(result)),
            Event::Typed(reading) => News::Typed(reading@),
        }
    }
}

impl View for Deed {
    type V = Order;

    open spec fn view(&self) -> Order {
        match *self {
            Deed::Poll => Order::Poll,
            Deed::TakeSignals => Order::TakeSignals,
            Deed::AskSize => Order::AskSize,
            Deed::Send(frame) => Order::Send(frame@),
            Deed::Receive => Order::Receive,
            Deed::Show(data) => Order::Show(data@),
            Deed::Read => Order::Read,
            Deed::Finish(result) => Order::Finish(crate::text::outcome(result)),
        }
    }
}

/// What stands between a terminal and a session.
pub struct Relay {
    session: String,
    detach_key: u8,
    decoder: Decoder,
    tracker: ModeTracker,
    signals: Vec<Signal>,
    socket: bool,
    messages: bool,
    input: bool,
    outgoing: Vec<Vec<u8>>,
    leaving: bool,
}

/// What a [`Relay`] holds.
#[verifier::ext_equal]
pub struct Link {
    pub session: Seq<char>,
    pub detach_key: u8,
    /// What the session has sent that is not dealt with.
    pub unread: Seq<u8>,
    /// The modes that the program has set on the terminal.
    pub tracker: Tracker,
    /// The signals that are not dealt with.
    pub signals: Seq<Signal>,
    /// Whether the connection to the session is to be read from in this round.
    pub socket: bool,
    /// Whether what the session has sent is to be looked at in this round.
    pub messages: bool,
    /// Whether the terminal is to be read from in this round.
    pub input: bool,
    /// What is to be sent to the session, each as a frame.
    pub outgoing: Seq<Seq<u8>>,
    /// Whether to leave once everything is sent.
    pub leaving: bool,
}

impl View for Relay {
    type V = Link;

    closed spec fn view(&self) -> Link {
        Link {
            session: self.session@,
            detach_key: self.detach_key,
            unread: self.decoder@,
            tracker: self.tracker@,
            signals: self.signals@,
            socket: self.socket,
            messages: self.messages,
            input: self.input,
            outgoing: crate::cli::arg_views(self.outgoing@),
            leaving: self.leaving,
        }
    }
}

/// Where the first `byte` of `data` stands, or its length.
pub open spec fn position(data: Seq<u8>, byte: u8) -> nat
    decreases data.len(),
{
    if data.len() == 0 || data[0] == byte {
        0
    } else {
        1 + position(data.drop_first(), byte)
    }
}

/// What is typed before the detach key.
pub open spec fn before_key(data: Seq<u8>, key: u8) -> Seq<u8> {
    data.take(position(data, key) as int)
}

/// The frames that carry `data` as input.
pub open spec fn input_frames(data: Seq<u8>) -> Seq<Seq<u8>> {
    let pieces = crate::protocol::chunked(data);
    Seq::new(pieces.len(), |i: int| Content::Input(pieces[i]).frame())
}

impl Link {
    /// Just attached.
    pub open spec fn fresh(session: Seq<char>, detach_key: u8) -> Link {
        Link {
            session,
            detach_key,
            unread: Seq::empty(),
            tracker: Tracker::initial(),
            signals: Seq::empty(),
            socket: false,
            messages: false,
            input: false,
            outgoing: Seq::empty(),
            leaving: false,
        }
    }

    /// With nothing more to read in this round.
    pub open spec fn rested(self) -> Link {
        Link { socket: false, input: false, ..self }
    }

    /// What follows from a message of the session.
    pub open spec fn told(self, message: Content) -> (Link, Order) {
        match message {
            Content::Output(data) => (
                Link { tracker: self.tracker.scan(data), ..self },
                Order::Show(data),
            ),
            Content::Exit(code) => (self, Order::Finish(Ok(Outcome::Exited(code)))),
            Content::Detached => (self, Order::Finish(Ok(Outcome::Disconnected))),
            Content::Error(text) => (self, Order::Finish(Err(text))),
            _ => (self, Order::Finish(Err("unexpected message from session"@))),
        }
    }

    /// What to do in this round once what the session has sent is dealt with.
    pub open spec fn ahead(self) -> (Link, Order) {
        if self.input {
            (Link { input: false, ..self }, Order::Read)
        } else if self.outgoing.len() > 0 {
            (
                Link { outgoing: self.outgoing.drop_first(), ..self },
                Order::Send(self.outgoing[0]),
            )
        } else if self.leaving {
            (self, Order::Finish(Ok(Outcome::Detached)))
        } else {
            (self, Order::Poll)
        }
    }

    /// What to do with the next message that the session has sent.
    pub open spec fn heard(self) -> (Link, Order) {
        let (taken, rest) = crate::protocol::take_message(self.unread);
        let read = Link { unread: rest, ..self };
        match taken {
            Ok(Some(message)) => read.told(message),
            Ok(None) => Link { messages: false, ..read }.ahead(),
            Err(text) => (read, Order::Finish(Err(text))),
        }
    }

    /// What to do next in this round.
    pub open spec fn next(self) -> (Link, Order) {
        if self.signals.len() > 0 {
            if self.signals[0] is WindowChange {
                (Link { signals: self.signals.drop_first(), ..self }, Order::AskSize)
            } else {
                (self, Order::Finish(Ok(Outcome::Detached)))
            }
        } else if self.socket {
            (Link { socket: false, ..self }, Order::Receive)
        } else if self.messages {
            self.heard()
        } else {
            self.ahead()
        }
    }

    /// What to do after what has happened.
    pub open spec fn after(self, news: News) -> (Link, Order) {
        match news {
            News::Polled { input, socket, signals } => {
                let round = Link {
                    socket: socket.spec_any(),
                    input: input.spec_any(),
                    ..self
                };
                if signals.spec_any() {
                    (round, Order::TakeSignals)
                } else {
                    round.next()
                }
            },
            News::Signals(signals) => Link { signals, ..self }.next(),
            News::Size(Some((rows, cols))) => (
                self,
                Order::Send(Content::Resize { rows, cols }.frame()),
            ),
            News::Size(None) => self.next(),
            News::Sent(Ok(())) => self.next(),
            News::Sent(Err(text)) => (self, Order::Finish(Err(text))),
            News::Received(Arrival::Data(data)) => Link {
                unread: self.unread + data,
                messages: true,
                ..self
            }.next(),
            News::Received(Arrival::End) => (
                self,
                Order::Finish(Err("session "@ + self.session + ": lost connection"@)),
            ),
            News::Received(Arrival::Failed(text)) => (
                self,
                Order::Finish(
                    Err("session "@ + self.session + ": lost connection: "@ + text),
                ),
            ),
            News::Shown(Ok(())) => self.next(),
            News::Shown(Err(text)) => (self, Order::Finish(Err(text))),
            News::Typed(Arrival::Data(data)) => Link {
                outgoing: input_frames(before_key(data, self.detach_key)),
                leaving: data.contains(self.detach_key),
                ..self
            }.next(),
            News::Typed(Arrival::End) => (self, Order::Finish(Ok(Outcome::Detached))),
            News::Typed(Arrival::Failed(text)) => (self, Order::Finish(Err(text))),
            News::Received(Arrival::Blocked) | News::Typed(Arrival::Blocked) => (
                self.rested(),
                Order::Poll,
            ),
        }
    }
}

/// Where the first `byte` of `data` stands, or its length.
fn find(data: &[u8], byte: u8) -> (at: usize)
    ensures
        at == position(data@, byte),
        at <= data@.len(),
        at < data@.len() <==> data@.contains(byte),
{
    let mut at: usize = 0;
    assert(data@.skip(0) == data@);
    while at < data.len() && data[at] != byte
        invariant
            at <= data.len(),
            position(data@, byte) == at + position(data@.skip(at as int), byte),
            forall|j: int| 0 <= j < at ==> data@[j] != byte,
        decreases data.len() - at,
    {
        assert(data@.skip(at as int).drop_first() == data@.skip(at + 1));
        at += 1;
    }
    if at < data.len() {
        assert(data@[at as int] == byte);
    }
    at
}

/// The frames that carry `data` as input.
fn frames_of(data: &[u8]) -> (frames: Vec<Vec<u8>>)
    ensures
        crate::cli::arg_views(frames@) == input_frames(data@),
{
    let pieces = chunks(data);
    let ghost views = crate::protocol::slice_views(pieces@);
    let mut frames: Vec<Vec<u8>> = Vec::new();
    let mut i: usize = 0;
    while i < pieces.len()
        invariant
            i <= pieces.len(),
            views == crate::protocol::slice_views(pieces@),
            frames@.len() == i,
            forall|j: int|
                0 <= j < i ==> (#[trigger] frames@[j])@ == Content::Input(views[j]).frame(),
        decreases pieces.len() - i,
    {
        frames.push(Message::Input(slice_to_vec(pieces[i])).encode());
        i += 1;
    }
    assert(crate::cli::arg_views(frames@) == input_frames(data@));
    frames
}

impl Relay {
    /// Between a terminal and the session that it has just attached to.
    pub fn new(session: String, detach_key: u8) -> (relay: Self)
        ensures
            relay@ == Link::fresh(session@, detach_key),
    {
        let outgoing: Vec<Vec<u8>> = Vec::new();
        assert(crate::cli::arg_views(outgoing@) == Seq::<Seq<u8>>::empty());
        Relay {
            session,
            detach_key,
            decoder: Decoder::default(),
            tracker: ModeTracker::default(),
            signals: Vec::new(),
            socket: false,
            messages: false,
            input: false,
            outgoing,
            leaving: false,
        }
    }

    /// What takes the terminal out of the modes that the program has set on it.
    pub fn reset(&self) -> (out: Vec<u8>)
        ensures
            out@ == self@.tracker.reset(),
    {
        self.tracker.reset()
    }

    fn ahead(&mut self) -> (deed: Deed)
        ensures
            (final(self)@, deed@) == old(self)@.ahead(),
    {
        if self.input {
            self.input = false;
            Deed::Read
        } else if self.outgoing.len() > 0 {
            let frame = self.outgoing.remove(0);
            assert(self@.outgoing == old(self)@.outgoing.drop_first());
            assert(frame@ == old(self)@.outgoing[0]);
            Deed::Send(frame)
        } else if self.leaving {
            Deed::Finish(Ok(Outcome::Detached))
        } else {
            Deed::Poll
        }
    }

    fn told(&mut self, message: Message) -> (deed: Deed)
        ensures
            (final(self)@, deed@) == old(self)@.told(message@),
    {
        match message {
            Message::Output(data) => {
                self.tracker.scan(data.as_slice());
                Deed::Show(data)
            },
            Message::Exit(code) => Deed::Finish(Ok(Outcome::Exited(code))),
            Message::Detached => Deed::Finish(Ok(Outcome::Disconnected)),
            Message::Error(text) => Deed::Finish(Err(text)),
            _ => Deed::Finish(Err("unexpected message from session".to_owned())),
        }
    }

    fn heard(&mut self) -> (deed: Deed)
        ensures
            (final(self)@, deed@) == old(self)@.heard(),
    {
        match self.decoder.next_message() {
            Ok(Some(message)) => self.told(message),
            Ok(None) => {
                self.messages = false;
                self.ahead()
            },
            Err(text) => Deed::Finish(Err(text)),
        }
    }

    fn next(&mut self) -> (deed: Deed)
        ensures
            (final(self)@, deed@) == old(self)@.next(),
    {
        if self.signals.len() > 0 {
            if let Signal::WindowChange = self.signals[0] {
                self.signals.remove(0);
                assert(self@.signals == old(self)@.signals.drop_first());
                Deed::AskSize
            } else {
                Deed::Finish(Ok(Outcome::Detached))
            }
        } else if self.socket {
            self.socket = false;
            Deed::Receive
        } else if self.messages {
            self.heard()
        } else {
            self.ahead()
        }
    }

    fn rest(&mut self) -> (deed: Deed)
        ensures
            final(self)@ == old(self)@.rested(),
            deed@ is Poll,
    {
        self.socket = false;
        self.input = false;
        Deed::Poll
    }

    fn typed(&mut self, data: &[u8]) -> (deed: Deed)
        ensures
            (final(self)@, deed@) == old(self)@.after(News::Typed(Arrival::Data(data@))),
    {
        let at: usize = find(data, self.detach_key);
        let before = slice_subrange(data, 0, at);
        assert(before@ == before_key(data@, self.detach_key));
        self.outgoing = frames_of(before);
        self.leaving = at < data.len();
        self.next()
    }

    /// What to do after what has happened.
    pub fn advance(&mut self, event: Event) -> (deed: Deed)
        ensures
            (final(self)@, deed@) == old(self)@.after(event@),
    {
        match event {
            Event::Polled { input, socket, signals } => {
                self.socket = socket.any();
                self.input = input.any();
                if signals.any() {
                    Deed::TakeSignals
                } else {
                    self.next()
                }
            },
            Event::Signals(signals) => {
                self.signals = signals;
                self.next()
            },
            Event::Size(Some((rows, cols))) => Deed::Send(Message::Resize { rows, cols }.encode()),
            Event::Size(None) => self.next(),
            Event::Sent(Ok(())) => self.next(),
            Event::Sent(Err(text)) => Deed::Finish(Err(text)),
            Event::Received(Reading::Data(data)) => {
                self.decoder.push(data.as_slice());
                self.messages = true;
                self.next()
            },
            Event::Received(Reading::End) => Deed::Finish(
                Err(enclosed("session ", self.session.as_str(), ": lost connection")),
            ),
            Event::Received(Reading::Failed(text)) => Deed::Finish(
                Err(
                    joined(
                        enclosed("session ", self.session.as_str(), ": lost connection: ").as_str(),
                        text.as_str(),
                    ),
                ),
            ),
            Event::Shown(Ok(())) => self.next(),
            Event::Shown(Err(text)) => Deed::Finish(Err(text)),
            Event::Typed(Reading::Data(data)) => self.typed(data.as_slice()),
            Event::Typed(Reading::End) => Deed::Finish(Ok(Outcome::Detached)),
            Event::Typed(Reading::Failed(text)) => Deed::Finish(Err(text)),
            Event::Received(Reading::Blocked) | Event::Typed(Reading::Blocked) => self.rest(),
        }
    }
}

} // verus!
