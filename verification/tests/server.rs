use boop::modes::ModeTracker;
use boop::protocol::{Decoder, Message, VERSION};
use boop::server::{
    first_client_may_come, flushing_may_go_on, hangups, plan, Effect, Ending, Server, Task, Wait,
    CLIENT_BACKLOG_LIMIT, DRAIN_LIMIT, PTY_BACKLOG_LIMIT,
};
use boop::sys::{Events, Interest, Reading, Signal, Status, Writing};

const NOTHING: Events =
    Events { readable: false, writable: false, hung_up: false, failed: false, invalid: false };
const READABLE: Events = Events { readable: true, ..NOTHING };
const WRITABLE: Events = Events { writable: true, ..NOTHING };
const NO_EFFECT: Effect = Effect { resize: None, redraw: false };

fn attach() -> Message {
    Message::Attach { version: VERSION, rows: 24, cols: 80 }
}

fn data(message: Message) -> Reading {
    Reading::Data(message.encode())
}

fn output(text: &[u8]) -> Message {
    Message::Output(text.to_vec())
}

fn sent(outbox: &[u8]) -> Vec<Message> {
    let mut decoder = Decoder::default();
    decoder.push(outbox);
    std::iter::from_fn(|| decoder.next_message().unwrap()).collect()
}

fn with_clients(count: usize) -> Server<usize> {
    let mut server = Server::new();
    for stream in 0..count {
        server.accept(stream);
    }
    server
}

fn with_attached(count: usize) -> Server<usize> {
    let mut server = with_clients(count);
    for index in 0..count {
        server.read_client(index, data(attach()));
    }
    server
}

#[test]
fn fast_command_output_is_kept() {
    let mut server = with_clients(2);
    assert!(server.read_pty(Reading::Data(b"qui".to_vec())));
    assert!(server.read_pty(Reading::Data(b"ck0\r\n".to_vec())));
    server.child_status(Some(Status::Exited(0)));
    assert_eq!(server.run(true), Wait::Briefly);
    let effects = server.read_client(0, data(attach()));
    assert_eq!(effects, [Effect { resize: Some((24, 80)), redraw: true }]);
    assert_eq!(sent(&server.clients[0].outbox), [output(b"quick0\r\n")]);
    assert!(server.clients[0].attached);
    assert_eq!(server.run(true), Wait::Finish);
    server.read_client(1, data(attach()));
    assert_eq!(sent(&server.clients[1].outbox), []);
}

#[test]
fn early_output_is_cut_to_the_modes() {
    let mut server = with_clients(1);
    server.broadcast(b"\x1b[?1049h");
    server.broadcast(&vec![b'x'; CLIENT_BACKLOG_LIMIT - 8]);
    assert_eq!(server.early_output.as_ref().map(Vec::len), Some(CLIENT_BACKLOG_LIMIT));
    server.broadcast(b"y");
    assert_eq!(server.early_output, Some(b"\x1b[?1049h".to_vec()));
    server.broadcast(b"z");
    assert_eq!(server.early_output, Some(b"\x1b[?1049hz".to_vec()));
}

#[test]
fn reattach_signals_resize_even_when_size_is_unchanged() {
    let mut server = with_attached(1);
    server.read_client(0, Reading::End);
    server.reap();
    server.accept(7);
    let effects = server.read_client(0, data(attach()));
    assert_eq!(effects, [Effect { resize: Some((24, 80)), redraw: true }]);
}

#[test]
fn window_size_propagates() {
    let mut server = with_clients(1);
    let effects =
        server.read_client(0, data(Message::Attach { version: VERSION, rows: 20, cols: 70 }));
    assert_eq!(effects, [Effect { resize: Some((20, 70)), redraw: true }]);
    let effects = server.read_client(0, data(Message::Resize { rows: 30, cols: 100 }));
    assert_eq!(effects, [Effect { resize: Some((30, 100)), redraw: false }]);
    for (rows, cols) in [(0, 100), (30, 0), (0, 0)] {
        let effects = server.read_client(0, data(Message::Resize { rows, cols }));
        assert_eq!(effects, [NO_EFFECT]);
    }
    assert!(!server.clients[0].dropped);
}

#[test]
fn output_goes_to_attached_clients_only() {
    let mut server = with_clients(3);
    server.read_client(1, data(attach()));
    server.broadcast(b"a");
    server.broadcast(b"b");
    assert_eq!(server.clients[0].outbox, b"");
    assert_eq!(sent(&server.clients[1].outbox), [output(b"a"), output(b"b")]);
    assert_eq!(server.clients[2].outbox, b"");
}

#[test]
fn clients_too_far_behind_are_given_up() {
    let mut server = with_attached(2);
    server.broadcast(&vec![0; CLIENT_BACKLOG_LIMIT - 5]);
    assert!(!server.clients[0].dropped);
    assert!(!server.clients[1].flushed(Writing::Written(CLIENT_BACKLOG_LIMIT)));
    server.broadcast(b"");
    assert!(server.clients[0].dropped);
    assert!(!server.clients[1].dropped);
    server.reap();
    assert_eq!(server.clients.len(), 1);
    assert_eq!(server.clients[0].stream, 1);
}

#[test]
fn disconnect_detaches_all_clients() {
    let mut server = with_attached(2);
    server.accept(2);
    server.accept(3);
    server.broadcast(b"b-2");
    let request = Message::Disconnect { version: VERSION };
    assert_eq!(server.read_client(2, data(request)), [NO_EFFECT]);
    for index in [0, 1] {
        let told = sent(&server.clients[index].outbox);
        assert_eq!(told, [output(b"b-2"), Message::Detached]);
        assert!(server.clients[index].closing);
    }
    assert_eq!(sent(&server.clients[2].outbox), [Message::Detached]);
    assert!(server.clients[2].closing);
    assert_eq!(server.clients[3].outbox, b"");
    assert!(!server.clients[3].closing);
    assert_eq!(server.exit_code, None);
    assert_eq!(server.run(true), Wait::Forever);
}

#[test]
fn disconnect_without_clients_succeeds() {
    let mut server = with_clients(1);
    server.read_client(0, data(Message::Disconnect { version: VERSION }));
    assert_eq!(sent(&server.clients[0].outbox), [Message::Detached]);
    assert_eq!(server.early_output, Some(Vec::new()));
}

#[test]
fn other_versions_are_told() {
    let told = Message::Error(
        "speaks protocol 1 but the client speaks 20; restart the session".into(),
    );
    for request in [
        Message::Attach { version: 20, rows: 24, cols: 80 },
        Message::Disconnect { version: 20 },
    ] {
        let mut server = with_attached(1);
        server.accept(1);
        assert_eq!(server.read_client(1, data(request)), [NO_EFFECT]);
        assert_eq!(sent(&server.clients[1].outbox), [told.clone()]);
        assert!(server.clients[1].closing && !server.clients[1].attached);
        assert!(!server.clients[0].closing);
    }
}

#[test]
fn misuse_drops_the_client() {
    for message in [
        Message::Input(b"x".to_vec()),
        Message::Resize { rows: 1, cols: 1 },
        output(b"x"),
        Message::Exit(0),
        Message::Detached,
        Message::Error("x".into()),
    ] {
        let mut server = with_clients(1);
        assert_eq!(server.read_client(0, data(message)), [NO_EFFECT]);
        assert!(server.clients[0].dropped);
        assert_eq!(server.pty_backlog, b"");
    }
    for message in [attach(), Message::Disconnect { version: VERSION }] {
        let mut server = with_attached(1);
        server.read_client(0, data(message));
        assert!(server.clients[0].dropped);
    }
}

#[test]
fn nothing_is_read_behind_the_end_of_a_client() {
    let mut server = with_clients(1);
    let mut stream = Message::Disconnect { version: VERSION }.encode();
    stream.extend(attach().encode());
    assert_eq!(server.read_client(0, Reading::Data(stream)), [NO_EFFECT]);
    assert!(!server.clients[0].attached);
    let mut server = with_clients(1);
    assert_eq!(server.read_client(0, Reading::Data(vec![99, 0, 0, 0, 0])), []);
    assert!(server.clients[0].dropped);
}

#[test]
fn input_reaches_the_program() {
    let mut server = with_attached(2);
    let mut stream = Message::Input(b"ls".to_vec()).encode();
    stream.extend(Message::Input(b"\r".to_vec()).encode());
    for byte in stream {
        server.read_client(0, Reading::Data(vec![byte]));
    }
    server.read_client(1, data(Message::Input(b"pwd".to_vec())));
    assert_eq!(server.pty_backlog, b"ls\rpwd");
    assert_eq!(server.pty_interest(), Interest { read: true, write: true });
    server.write_pty(Writing::Written(3));
    assert_eq!(server.pty_backlog, b"pwd");
    server.write_pty(Writing::Blocked);
    assert_eq!(server.pty_backlog, b"pwd");
    server.write_pty(Writing::Failed);
    assert_eq!(server.pty_backlog, b"");
    assert_eq!(server.pty_interest(), Interest { read: true, write: false });
}

#[test]
fn reads_may_be_cut_anywhere() {
    let mut stream = attach().encode();
    stream.extend(Message::Input(b"x".to_vec()).encode());
    stream.extend(Message::Resize { rows: 2, cols: 3 }.encode());
    for cut in 0..=stream.len() {
        let mut server = with_clients(1);
        let mut effects = server.read_client(0, Reading::Data(stream[..cut].to_vec()));
        effects.extend(server.read_client(0, Reading::Data(stream[cut..].to_vec())));
        assert_eq!(
            effects,
            [
                Effect { resize: Some((24, 80)), redraw: true },
                NO_EFFECT,
                Effect { resize: Some((2, 3)), redraw: false },
            ]
        );
        assert_eq!(server.pty_backlog, b"x");
    }
}

#[test]
fn lost_client_leaves_session_running() {
    for reading in [Reading::End, Reading::Failed("reset".into())] {
        let mut server = with_attached(2);
        assert_eq!(server.read_client(0, reading), []);
        assert!(server.clients[0].dropped);
        server.reap();
        assert_eq!(server.clients.len(), 1);
        assert_eq!(server.exit_code, None);
        assert_eq!(server.run(false), Wait::Forever);
        server.broadcast(b"still-3");
        assert_eq!(sent(&server.clients[0].outbox), [output(b"still-3")]);
    }
    let mut server = with_attached(1);
    assert_eq!(server.read_client(0, Reading::Blocked), []);
    assert!(!server.clients[0].dropped);
}

#[test]
fn a_closed_terminal_of_the_program_is_not_watched() {
    for reading in [Reading::End, Reading::Failed("gone".into())] {
        let mut server = with_clients(0);
        assert!(!server.read_pty(reading));
        assert_eq!(server.pty_interest(), Interest { read: false, write: false });
    }
    let mut server = with_clients(0);
    assert!(!server.read_pty(Reading::Blocked));
    assert!(server.pty_open);
    server.close_pty();
    assert!(!server.pty_open);
}

#[test]
fn clients_are_watched_as_long_as_they_may_send() {
    let mut server = with_attached(2);
    let both = |read, write| Interest { read, write };
    assert_eq!(server.client_interests(), [both(true, false), both(true, false)]);
    server.broadcast(b"x");
    server.clients[1].closing = true;
    assert_eq!(server.client_interests(), [both(true, true), both(false, true)]);
    server.pty_backlog = vec![0; PTY_BACKLOG_LIMIT - 1];
    assert_eq!(server.client_interests()[0], both(true, true));
    server.pty_backlog.push(0);
    assert_eq!(server.client_interests()[0], both(false, true));
}

#[test]
fn flushing() {
    let mut server = with_attached(1);
    let client = &mut server.clients[0];
    assert!(!client.flush());
    client.send(&Message::Detached);
    assert!(client.flush());
    assert!(client.flushed(Writing::Written(2)));
    assert_eq!(client.outbox, [0, 0, 0]);
    assert!(!client.flushed(Writing::Blocked));
    assert_eq!(client.outbox, [0, 0, 0]);
    assert!(!client.flushed(Writing::Written(3)));
    assert!(!client.dropped);
    client.close_with(&Message::Exit(1));
    assert!(client.closing && !client.dropped);
    assert!(!client.flushed(Writing::Written(9)));
    assert!(client.dropped);
    let mut server = with_attached(1);
    server.clients[0].send(&Message::Detached);
    assert!(!server.clients[0].flushed(Writing::Failed));
    assert!(server.clients[0].dropped);
}

#[test]
fn a_closing_client_with_nothing_to_get_is_given_up() {
    let mut server = with_attached(1);
    server.clients[0].closing = true;
    assert!(!server.clients[0].flush());
    assert!(server.clients[0].dropped);
}

#[test]
fn tasks_after_a_poll() {
    let clients = vec![READABLE, WRITABLE, NOTHING, Events { readable: true, ..WRITABLE }];
    assert_eq!(
        plan(READABLE, READABLE, Events { writable: true, hung_up: true, ..NOTHING }, &clients),
        [
            Task::Signals,
            Task::WritePty,
            Task::ReadPty,
            Task::ReadClient(0),
            Task::FlushClient(1),
            Task::ReadClient(3),
            Task::FlushClient(3),
            Task::Reap,
            Task::Accept,
        ]
    );
    assert_eq!(plan(NOTHING, NOTHING, NOTHING, &Vec::new()), [Task::Reap]);
    let invalid = Events { invalid: true, ..NOTHING };
    assert_eq!(
        plan(invalid, invalid, invalid, &vec![invalid]),
        [Task::Signals, Task::ClosePty, Task::Reap]
    );
}

#[test]
fn signals_that_hang_up() {
    let signals = vec![Signal::Other, Signal::Terminate, Signal::WindowChange, Signal::Terminate];
    assert_eq!(hangups(&signals), 2);
    assert_eq!(hangups(&Vec::new()), 0);
}

#[test]
fn only_the_program_ends_the_session() {
    let mut server = with_attached(1);
    server.child_status(None);
    server.child_status(Some(Status::Running));
    assert_eq!(server.run(false), Wait::Forever);
    server.child_status(Some(Status::Exited(3)));
    assert_eq!(server.exit_code, Some(3));
    assert_eq!(server.run(true), Wait::Finish);
    let mut server = with_clients(1);
    server.child_status(Some(Status::Exited(3)));
    assert_eq!(server.run(true), Wait::Briefly);
    assert_eq!(server.run(false), Wait::Finish);
}

#[test]
fn command_output_and_exit_status() {
    let mut server = with_attached(1);
    server.accept(1);
    server.child_status(Some(Status::Exited(3)));
    assert_eq!(server.finish(0), Ending::ReadPty);
    assert_eq!(server.drain(Reading::Data(b"hel".to_vec()), 0), Ending::ReadPty);
    assert_eq!(server.drain(Reading::Data(b"lo".to_vec()), 1), Ending::ReadPty);
    assert_eq!(server.drain(Reading::End, 2), Ending::Flush);
    let told = sent(&server.clients[0].outbox);
    assert_eq!(told, [output(b"hel"), output(b"lo"), Message::Exit(3)]);
    assert!(server.clients[0].closing);
    assert!(server.clients[1].dropped);
    assert_eq!(server.settle(true), Ending::Poll);
    assert_eq!(server.clients.len(), 1);
    let length = server.clients[0].outbox.len();
    assert!(!server.clients[0].flushed(Writing::Written(length)));
    assert_eq!(server.settle(true), Ending::Done);
}

#[test]
fn the_end_does_not_wait_forever() {
    let mut server = with_attached(1);
    assert_eq!(server.finish(DRAIN_LIMIT), Ending::Flush);
    assert_eq!(sent(&server.clients[0].outbox), [Message::Exit(0)]);
    assert_eq!(server.settle(false), Ending::Done);
    let mut server = with_attached(1);
    let last = server.drain(Reading::Data(b"x".to_vec()), DRAIN_LIMIT - 1);
    assert_eq!(last, Ending::Flush);
    assert_eq!(sent(&server.clients[0].outbox), [output(b"x"), Message::Exit(0)]);
    let mut server = with_attached(1);
    server.close_pty();
    assert_eq!(server.finish(0), Ending::Flush);
    let mut server = with_attached(1);
    assert_eq!(server.drain(Reading::Blocked, 0), Ending::Flush);
}

#[test]
fn output_cut_outside_a_sequence_keeps_the_modes() {
    let mut server = with_clients(1);
    let mut seen = ModeTracker::default();
    for piece in [
        &b"\x1b[?1049h\x1b[1;2m"[..],
        &vec![b'x'; CLIENT_BACKLOG_LIMIT],
        b"\x1b[?10",
        b"00h\x1b=",
    ] {
        server.broadcast(piece);
    }
    seen.scan(server.early_output.as_ref().unwrap());
    assert_eq!(seen.replay(), b"\x1b[?1049h\x1b[?1000h\x1b=");
    assert_eq!(seen.replay(), server.tracker.replay());
}

#[test]
fn a_round_leaves_only_live_clients() {
    let mut server = with_attached(4);
    let events = vec![NOTHING, READABLE, WRITABLE, READABLE];
    server.clients[2].close_with(&Message::Detached);
    for task in plan(READABLE, NOTHING, READABLE, &events) {
        match task {
            Task::ReadPty => assert!(server.read_pty(Reading::Data(b"x".to_vec()))),
            Task::ReadClient(1) => assert_eq!(server.read_client(1, Reading::End), []),
            Task::ReadClient(index) => {
                server.read_client(index, data(Message::Input(b"y".to_vec())));
            }
            Task::FlushClient(index) => {
                let length = server.clients[index].outbox.len();
                assert!(!server.clients[index].flushed(Writing::Written(length)));
            }
            Task::Reap => server.reap(),
            Task::Accept => {
                server.accept(7);
                server.accept(8);
            }
            task => panic!("{task:?}"),
        }
    }
    let streams: Vec<usize> = server.clients.iter().map(|client| client.stream).collect();
    assert_eq!(streams, [0, 3, 7, 8]);
    assert!(server.clients.iter().all(|client| !client.dropped));
    for newcomer in &server.clients[2..] {
        assert!(!newcomer.attached && !newcomer.closing && newcomer.outbox.is_empty());
    }
}

#[test]
fn limits_of_time() {
    assert!(first_client_may_come(0));
    assert!(first_client_may_come(4999));
    assert!(!first_client_may_come(5000));
    assert!(flushing_may_go_on(0));
    assert!(flushing_may_go_on(1999));
    assert!(!flushing_may_go_on(2000));
    assert_eq!(Wait::Forever.timeout_ms(), Some(-1));
    assert_eq!(Wait::Briefly.timeout_ms(), Some(50));
    assert_eq!(Wait::Finish.timeout_ms(), None);
}
