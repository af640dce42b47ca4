use boop::protocol::{Message, MAX_PAYLOAD, VERSION};
use boop::relay::{Deed, Event, Outcome, Relay};
use boop::sys::{Events, Reading, Signal};

const NOTHING: Events =
    Events { readable: false, writable: false, hung_up: false, failed: false, invalid: false };
const READABLE: Events = Events { readable: true, ..NOTHING };

fn relay() -> Relay {
    Relay::new("t".into(), 0x1c)
}

fn polled(input: Events, socket: Events, signals: Events) -> Event {
    Event::Polled { input, socket, signals }
}

fn input(data: &[u8]) -> Deed {
    Deed::Send(Message::Input(data.to_vec()).encode())
}

fn received(messages: &[Message]) -> Event {
    Event::Received(Reading::Data(messages.iter().flat_map(Message::encode).collect()))
}

fn typed(data: &[u8]) -> Event {
    Event::Typed(Reading::Data(data.to_vec()))
}

#[test]
fn a_round_in_order() {
    let mut relay = relay();
    assert_eq!(relay.advance(polled(READABLE, READABLE, READABLE)), Deed::TakeSignals);
    let signals = vec![Signal::WindowChange, Signal::WindowChange];
    assert_eq!(relay.advance(Event::Signals(signals)), Deed::AskSize);
    let resize = Message::Resize { rows: 30, cols: 100 };
    assert_eq!(relay.advance(Event::Size(Some((30, 100)))), Deed::Send(resize.encode()));
    assert_eq!(relay.advance(Event::Sent(Ok(()))), Deed::AskSize);
    assert_eq!(relay.advance(Event::Size(None)), Deed::Receive);
    let messages = [Message::Output(b"a".to_vec()), Message::Output(b"b".to_vec())];
    assert_eq!(relay.advance(received(&messages)), Deed::Show(b"a".to_vec()));
    assert_eq!(relay.advance(Event::Shown(Ok(()))), Deed::Show(b"b".to_vec()));
    assert_eq!(relay.advance(Event::Shown(Ok(()))), Deed::Read);
    assert_eq!(relay.advance(typed(b"ls\r")), input(b"ls\r"));
    assert_eq!(relay.advance(Event::Sent(Ok(()))), Deed::Poll);
    assert_eq!(relay.advance(polled(NOTHING, NOTHING, NOTHING)), Deed::Poll);
}

#[test]
fn detach_key_mid_input_forwards_preceding_bytes() {
    let mut relay = relay();
    assert_eq!(relay.advance(polled(READABLE, NOTHING, NOTHING)), Deed::Read);
    assert_eq!(relay.advance(typed(b"partial\x1cignored")), input(b"partial"));
    assert_eq!(relay.advance(Event::Sent(Ok(()))), Deed::Finish(Ok(Outcome::Detached)));
}

#[test]
fn detach_key_alone() {
    assert_eq!(relay().advance(typed(b"\x1c")), Deed::Finish(Ok(Outcome::Detached)));
    assert_eq!(relay().advance(typed(b"\x1cabc")), Deed::Finish(Ok(Outcome::Detached)));
}

#[test]
fn custom_detach_key() {
    let mut first = Relay::new("t".into(), 1);
    assert_eq!(first.advance(typed(b"x\x1cy\r")), input(b"x\x1cy\r"));
    assert_eq!(first.advance(Event::Sent(Ok(()))), Deed::Poll);
    assert_eq!(first.advance(typed(b"\x01")), Deed::Finish(Ok(Outcome::Detached)));
}

#[test]
fn input_bytes_pass_through() {
    let bytes: Vec<u8> = (0..=255u8).filter(|&byte| byte != 0x1c).collect();
    assert_eq!(relay().advance(typed(&bytes)), input(&bytes));
}

#[test]
fn long_input_is_cut() {
    let mut relay = relay();
    let long = vec![b'x'; MAX_PAYLOAD + 1];
    assert_eq!(relay.advance(typed(&long)), input(&long[..MAX_PAYLOAD]));
    assert_eq!(relay.advance(Event::Sent(Ok(()))), input(b"x"));
    assert_eq!(relay.advance(Event::Sent(Ok(()))), Deed::Poll);
}

#[test]
fn closed_terminal_leaves_session_running() {
    assert_eq!(relay().advance(Event::Typed(Reading::End)), Deed::Finish(Ok(Outcome::Detached)));
}

#[test]
fn terminated_client_detaches() {
    for signal in [Signal::Terminate, Signal::Other] {
        let mut relay = relay();
        assert_eq!(relay.advance(polled(NOTHING, READABLE, READABLE)), Deed::TakeSignals);
        let signals = vec![Signal::WindowChange, signal, Signal::WindowChange];
        assert_eq!(relay.advance(Event::Signals(signals)), Deed::AskSize);
        assert_eq!(relay.advance(Event::Size(None)), Deed::Finish(Ok(Outcome::Detached)));
    }
}

#[test]
fn lost_connection_names_session() {
    let failed = |text: &str| Deed::Finish(Err(text.into()));
    assert_eq!(
        relay().advance(Event::Received(Reading::End)),
        failed("session t: lost connection")
    );
    assert_eq!(
        relay().advance(Event::Received(Reading::Failed("reset by peer".into()))),
        failed("session t: lost connection: reset by peer")
    );
}

#[test]
fn failures_end_the_relay() {
    let failed = |text: &str| Deed::Finish(Err(text.into()));
    assert_eq!(relay().advance(Event::Sent(Err("pipe".into()))), failed("pipe"));
    assert_eq!(relay().advance(Event::Shown(Err("gone".into()))), failed("gone"));
    assert_eq!(relay().advance(Event::Typed(Reading::Failed("tty".into()))), failed("tty"));
    assert_eq!(
        relay().advance(Event::Received(Reading::Data(vec![99, 0, 0, 0, 0]))),
        failed("malformed message of type 99")
    );
}

#[test]
fn messages_that_end_the_relay() {
    let last = |message: Message| relay().advance(received(&[message]));
    assert_eq!(last(Message::Exit(5)), Deed::Finish(Ok(Outcome::Exited(5))));
    assert_eq!(last(Message::Detached), Deed::Finish(Ok(Outcome::Disconnected)));
    assert_eq!(last(Message::Error("no".into())), Deed::Finish(Err("no".into())));
    for message in [
        Message::Attach { version: VERSION, rows: 1, cols: 1 },
        Message::Input(Vec::new()),
        Message::Resize { rows: 1, cols: 1 },
        Message::Disconnect { version: VERSION },
    ] {
        let unexpected = Deed::Finish(Err("unexpected message from session".into()));
        assert_eq!(last(message), unexpected);
    }
}

#[test]
fn messages_may_come_in_pieces() {
    let mut relay = relay();
    let frame = Message::Output(b"abc".to_vec()).encode();
    assert_eq!(relay.advance(polled(NOTHING, READABLE, NOTHING)), Deed::Receive);
    assert_eq!(relay.advance(Event::Received(Reading::Data(frame[..6].to_vec()))), Deed::Poll);
    assert_eq!(relay.advance(polled(READABLE, READABLE, NOTHING)), Deed::Receive);
    let rest = Event::Received(Reading::Data(frame[6..].to_vec()));
    assert_eq!(relay.advance(rest), Deed::Show(b"abc".to_vec()));
    assert_eq!(relay.advance(Event::Shown(Ok(()))), Deed::Read);
}

#[test]
fn a_blocked_read_ends_the_round() {
    let mut relay = relay();
    assert_eq!(relay.advance(polled(READABLE, READABLE, NOTHING)), Deed::Receive);
    assert_eq!(relay.advance(Event::Received(Reading::Blocked)), Deed::Poll);
    assert_eq!(relay.advance(polled(READABLE, NOTHING, NOTHING)), Deed::Read);
    assert_eq!(relay.advance(Event::Typed(Reading::Blocked)), Deed::Poll);
}

#[test]
fn the_terminal_is_reset() {
    let mut relay = relay();
    assert_eq!(relay.reset(), b"\x1b[0m");
    relay.advance(received(&[Message::Output(b"\x1b[?10".to_vec())]));
    relay.advance(Event::Shown(Ok(())));
    relay.advance(received(&[Message::Output(b"49h".to_vec())]));
    assert_eq!(relay.reset(), b"\x1b[?1049l\x1b[0m");
}

/// Hands bytes over in reads of so many bytes, and gives what is shown and what comes last.
fn in_reads(relay: &mut Relay, bytes: &[u8], size: usize) -> (Vec<u8>, Deed) {
    let mut shown = Vec::new();
    let mut deed = Deed::Poll;
    for read in bytes.chunks(size) {
        assert_eq!(deed, Deed::Poll);
        assert_eq!(relay.advance(polled(NOTHING, READABLE, NOTHING)), Deed::Receive);
        deed = relay.advance(Event::Received(Reading::Data(read.to_vec())));
        while let Deed::Show(data) = &deed {
            shown.extend(data);
            deed = relay.advance(Event::Shown(Ok(())));
        }
    }
    (shown, deed)
}

#[test]
fn output_is_shown_however_it_is_cut() {
    let pieces = [b"ab".to_vec(), vec![b'x'; MAX_PAYLOAD], b"".to_vec(), b"\x1b[?1h".to_vec()];
    let bytes: Vec<u8> =
        pieces.iter().flat_map(|piece| Message::Output(piece.clone()).encode()).collect();
    for size in [1, 3, 7, MAX_PAYLOAD - 1, MAX_PAYLOAD, bytes.len()] {
        let mut relay = relay();
        assert_eq!(in_reads(&mut relay, &bytes, size), (pieces.concat(), Deed::Poll));
        assert_eq!(relay.reset(), b"\x1b[?1l\x1b[0m");
    }
}

#[test]
fn the_end_comes_behind_the_output() {
    for (last, outcome) in [
        (Message::Exit(3), Ok(Outcome::Exited(3))),
        (Message::Detached, Ok(Outcome::Disconnected)),
        (Message::Error("no".into()), Err("no".to_string())),
    ] {
        let mut bytes = Message::Output(b"hello".to_vec()).encode();
        bytes.extend(Message::Output(b" you".to_vec()).encode());
        bytes.extend(last.encode());
        for size in 1..=bytes.len() {
            let result = in_reads(&mut relay(), &bytes, size);
            assert_eq!(result, (b"hello you".to_vec(), Deed::Finish(outcome.clone())));
        }
    }
}

#[test]
fn typing_between_reads_changes_nothing() {
    let mut relay = relay();
    let frame = Message::Output(b"abc".to_vec()).encode();
    assert_eq!(relay.advance(Event::Received(Reading::Data(frame[..4].to_vec()))), Deed::Poll);
    assert_eq!(relay.advance(polled(READABLE, NOTHING, NOTHING)), Deed::Read);
    assert_eq!(relay.advance(typed(b"x")), input(b"x"));
    assert_eq!(relay.advance(Event::Sent(Ok(()))), Deed::Poll);
    assert_eq!(relay.advance(Event::Received(Reading::Blocked)), Deed::Poll);
    let rest = Event::Received(Reading::Data(frame[4..].to_vec()));
    assert_eq!(relay.advance(rest), Deed::Show(b"abc".to_vec()));
}
