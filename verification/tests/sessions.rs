//! Sessions, their programs and the terminals attached to them, in memory.

use boop::cli::{parse, usage_error};
use boop::client::{
    attach_request, complaint, connected, disconnect, disconnect_request, exit_status, farewell,
    greeting,
    launched, listing, opened, run, Asking, Step,
};
use boop::protocol::{Decoder, MAX_PAYLOAD};
use boop::relay::{Deed, Event, Relay};
use boop::server::{Ending, Server, Wait};
use boop::sys::{try_wait, Events, Reading, Status, Writing};

const DETACH: &[u8] = b"\x1c";
const NOTHING: Events =
    Events { readable: false, writable: false, hung_up: false, failed: false, invalid: false };
const READABLE: Events = Events { readable: true, ..NOTHING };

struct World {
    sessions: Vec<(String, Server<usize>)>,
    connections: usize,
}

struct Terminal {
    session: String,
    connection: usize,
    relay: Option<Relay>,
    shown: Vec<u8>,
    said: String,
    status: Option<i32>,
}

impl Terminal {
    fn closed(said: String, status: i32) -> Terminal {
        Terminal {
            session: String::new(),
            connection: 0,
            relay: None,
            shown: Vec::new(),
            said,
            status: Some(status),
        }
    }

    fn text(&self) -> String {
        String::from_utf8_lossy(&self.shown).into_owned()
    }
}

impl World {
    fn new() -> World {
        World { sessions: Vec::new(), connections: 0 }
    }

    fn names(&self) -> Vec<String> {
        let mut names: Vec<String> = self.sessions.iter().map(|(name, _)| name.clone()).collect();
        names.sort();
        names
    }

    fn server(&mut self, session: &str) -> &mut Server<usize> {
        let found = self.sessions.iter_mut().find(|(name, _)| name == session);
        &mut found.unwrap().1
    }

    fn client(&mut self, session: &str, connection: usize) -> usize {
        let server = self.server(session);
        server.clients.iter().position(|client| client.stream == connection).unwrap()
    }

    fn send(&mut self, session: &str, connection: usize, data: Vec<u8>) {
        let index = self.client(session, connection);
        self.server(session).read_client(index, Reading::Data(data));
    }

    /// What has been sent to a client, a few bytes at a time.
    fn receive(&mut self, session: &str, connection: usize) -> Option<Vec<u8>> {
        let index = self.client(session, connection);
        let client = &mut self.server(session).clients[index];
        if !client.flush() {
            return None;
        }
        let data: Vec<u8> = client.outbox.iter().take(7).copied().collect();
        client.flushed(Writing::Written(data.len()));
        Some(data)
    }

    fn command(&mut self, args: &[&str], inside: Option<&str>, is_terminal: bool) -> Terminal {
        let args = args.iter().map(|arg| arg.as_bytes().to_vec()).collect();
        let options = match parse(args, None) {
            Ok(options) => options,
            Err(reason) => return Terminal::closed(complaint(&usage_error(&reason)), 1),
        };
        let inside = inside.map(str::to_string);
        let mut step = run(options.action, inside.clone());
        loop {
            step = match step {
                Step::Print(text) => return Terminal::closed(text, 0),
                Step::Fail(reason) => return Terminal::closed(complaint(&reason), 1),
                Step::List => Step::Print(listing(&self.names())),
                Step::Choose => boop::client::auto(self.names(), inside.clone()),
                Step::Open { session, command } => opened(session, command, is_terminal),
                Step::Connect { session, purpose } => {
                    let found = self.names().contains(&session);
                    if found {
                        self.connections += 1;
                        let connection = self.connections;
                        self.server(&session).accept(connection);
                    }
                    connected(session, purpose, found)
                }
                Step::Launch { session, .. } => {
                    self.sessions.push((session.clone(), Server::new()));
                    launched(session, Ok(()))
                }
                Step::Attach { session, started } => {
                    let connection = self.connections;
                    let request = attach_request(Some((24, 80))).encode();
                    self.send(&session, connection, request);
                    return Terminal {
                        said: greeting(&session, started, options.detach_key, inside),
                        relay: Some(Relay::new(session.clone(), options.detach_key)),
                        session,
                        connection,
                        shown: Vec::new(),
                        status: None,
                    };
                }
                Step::Disconnect { session } => {
                    let connection = self.connections;
                    self.send(&session, connection, disconnect_request().encode());
                    return self.ask(&session, connection);
                }
            };
        }
    }

    fn ask(&mut self, session: &str, connection: usize) -> Terminal {
        let mut decoder = Decoder::default();
        loop {
            let read = self.receive(session, connection).unwrap_or_default();
            match disconnect(session, &mut decoder, Ok(read)) {
                Asking::Read => {}
                Asking::Done(text) => return Terminal::closed(text, 0),
                Asking::Fail(reason) => return Terminal::closed(complaint(&reason), 1),
            }
        }
    }

    fn terminal(&mut self, args: &[&str]) -> Terminal {
        self.command(args, None, true)
    }

    fn carry_out(&mut self, terminal: &mut Terminal, first: Event) {
        let mut event = first;
        while let Some(relay) = &mut terminal.relay {
            event = match relay.advance(event) {
                Deed::Poll => return,
                Deed::Send(data) => {
                    let session = terminal.session.clone();
                    self.send(&session, terminal.connection, data);
                    Event::Sent(Ok(()))
                }
                Deed::Show(data) => {
                    terminal.shown.extend(data);
                    Event::Shown(Ok(()))
                }
                Deed::Finish(result) => {
                    terminal.shown.extend(relay.reset());
                    let (text, status) = match result {
                        Ok(outcome) => farewell(&terminal.session, outcome),
                        Err(reason) => (complaint(&reason), 1),
                    };
                    terminal.said.push_str(&text);
                    terminal.status = Some(status);
                    terminal.relay = None;
                    return;
                }
                deed => panic!("{deed:?}"),
            };
        }
    }

    fn types(&mut self, terminal: &mut Terminal, data: &[u8]) {
        let polled = Event::Polled { input: READABLE, socket: NOTHING, signals: NOTHING };
        assert_eq!(terminal.relay.as_mut().unwrap().advance(polled), Deed::Read);
        self.carry_out(terminal, Event::Typed(Reading::Data(data.to_vec())));
        if terminal.relay.is_none() {
            let session = terminal.session.clone();
            let index = self.client(&session, terminal.connection);
            self.server(&session).read_client(index, Reading::End);
            self.server(&session).reap();
        }
    }

    /// Takes what waits for the program of a session.
    fn input(&mut self, session: &str) -> String {
        let server = self.server(session);
        let input = server.pty_backlog.clone();
        server.write_pty(Writing::Written(input.len()));
        String::from_utf8(input).unwrap()
    }

    fn prints(&mut self, session: &str, data: &[u8]) {
        assert!(self.server(session).read_pty(Reading::Data(data.to_vec())));
    }

    /// Shows a terminal all that its session has sent.
    fn update(&mut self, terminal: &mut Terminal) {
        while let Some(relay) = &mut terminal.relay {
            let session = terminal.session.clone();
            let Some(data) = self.receive(&session, terminal.connection) else {
                return;
            };
            let polled = Event::Polled { input: NOTHING, socket: READABLE, signals: NOTHING };
            assert_eq!(relay.advance(polled), Deed::Receive);
            self.carry_out(terminal, Event::Received(Reading::Data(data)));
        }
    }

    /// Ends the program of a session, with `terminals` attached to it.
    fn exit(&mut self, session: &str, code: i32, terminals: &mut [&mut Terminal]) {
        let server = self.server(session);
        server.child_status(Some(Status::Exited(code)));
        assert_eq!(server.run(true), Wait::Finish);
        assert_eq!(server.finish(0), Ending::ReadPty);
        assert_eq!(server.drain(Reading::End, 0), Ending::Flush);
        for terminal in terminals {
            self.update(terminal);
        }
        assert_eq!(self.server(session).settle(true), Ending::Done);
        self.sessions.retain(|(name, _)| name != session);
    }
}

#[test]
fn detach_and_reattach() {
    let mut world = World::new();
    let mut first = world.terminal(&["--session", "t", "sh"]);
    world.types(&mut first, b"echo mark-$((40+1))\r");
    assert_eq!(world.input("t"), "echo mark-$((40+1))\r");
    world.prints("t", b"mark-41");
    world.update(&mut first);
    assert!(first.text().contains("mark-41"));
    world.types(&mut first, DETACH);
    assert_eq!(first.status, Some(0));
    assert!(first.said.contains("[detached from t]"));
    assert_eq!(world.names(), ["t"]);

    let mut second = world.terminal(&["--name", "t"]);
    world.types(&mut second, b"echo mark-$((40+2))\r");
    assert_eq!(world.input("t"), "echo mark-$((40+2))\r");
    world.prints("t", b"mark-42");
    world.update(&mut second);
    assert!(second.text().contains("mark-42"));
    assert!(!second.text().contains("mark-41"));
    world.exit("t", 5, &mut [&mut second]);
    assert_eq!(second.status, Some(5));
    assert!(world.names().is_empty());
}

#[test]
fn session_option_attaches_to_existing() {
    let mut world = World::new();
    let mut first = world.terminal(&["--session", "t", "sh"]);
    world.prints("t", b"ready-2");
    world.update(&mut first);
    assert!(first.text().contains("ready-2"));
    world.types(&mut first, DETACH);

    let mut second = world.terminal(&["--session", "t"]);
    assert!(second.said.contains("[attached to session t"));
    world.types(&mut second, b"echo value-$marker\r");
    assert_eq!(world.input("t"), "echo value-$marker\r");
    world.prints("t", b"value-kept");
    world.exit("t", 0, &mut [&mut second]);
    assert!(second.text().contains("value-kept"));
    assert_eq!(second.status, Some(0));
}

#[test]
fn bare_invocation() {
    let mut world = World::new();
    let mut first = world.terminal(&[]);
    assert_eq!(first.session, "boop");
    world.types(&mut first, DETACH);
    assert_eq!(world.names(), ["boop"]);

    let mut second = world.terminal(&[]);
    assert_eq!(second.session, "boop");
    world.types(&mut second, DETACH);

    let mut other = world.terminal(&["--session", "other", "sh"]);
    world.types(&mut other, DETACH);

    let third = world.terminal(&[]);
    assert_eq!(third.status, Some(1));
    assert!(third.said.contains("boop other"));
    assert!(third.said.contains("boop --name NAME"));
    assert_eq!(world.names(), ["boop", "other"]);
}

#[test]
fn bare_invocation_attaches_to_single_named_session() {
    let mut world = World::new();
    let mut first = world.terminal(&["--session", "solo", "sh"]);
    world.types(&mut first, DETACH);

    let mut second = world.terminal(&[]);
    assert_eq!(second.session, "solo");
    world.exit("solo", 0, &mut [&mut second]);
    assert_eq!(second.status, Some(0));
}

#[test]
fn multiple_clients_share_a_session() {
    let mut world = World::new();
    let mut first = world.terminal(&["--session", "t", "sh"]);
    world.prints("t", b"one-1");
    world.update(&mut first);
    assert!(first.text().contains("one-1"));

    let mut second = world.terminal(&["--name", "t"]);
    world.types(&mut second, b"echo two-$((1+1))\r");
    world.prints("t", b"two-2");
    world.update(&mut first);
    world.update(&mut second);
    assert!(first.text().contains("two-2"));
    assert!(second.text().contains("two-2"));

    world.types(&mut first, b"echo three-$((1+2))\r");
    assert_eq!(world.input("t"), "echo two-$((1+1))\recho three-$((1+2))\r");
    world.prints("t", b"three-3");
    world.update(&mut second);
    assert!(second.text().contains("three-3"));

    world.types(&mut second, DETACH);
    world.prints("t", b"four-4");
    world.update(&mut first);
    assert!(first.text().contains("four-4"));
    world.exit("t", 7, &mut [&mut first]);
    assert_eq!(first.status, Some(7));
}

#[test]
fn modes_are_replayed_and_reset() {
    let mut world = World::new();
    let mut first = world.terminal(&["--session", "t", "sh"]);
    world.prints("t", b"\x1b[?1049h\x1b[?1000h\x1b[?2004hready\n");
    world.update(&mut first);
    assert!(first.text().contains("ready"));
    world.types(&mut first, DETACH);
    assert!(first.text().ends_with("\x1b[?1049l\x1b[?1000l\x1b[?2004l\x1b[0m"));

    let mut second = world.terminal(&["--name", "t"]);
    world.update(&mut second);
    assert_eq!(second.text(), "\x1b[?1049h\x1b[?1000h\x1b[?2004h");
    world.exit("t", 0, &mut [&mut second]);
    assert_eq!(second.status, Some(0));
    assert!(second.text().ends_with("\x1b[?1049l\x1b[?1000l\x1b[?2004l\x1b[0m"));
}

#[test]
fn detached_session_keeps_running() {
    let mut world = World::new();
    let mut first = world.terminal(&["--session", "t", "sh"]);
    world.prints("t", b"waiting");
    world.update(&mut first);
    assert!(first.text().contains("waiting"));
    world.types(&mut first, DETACH);
    let mut starter = world.terminal(&["--name", "t"]);
    world.types(&mut starter, b"\r");
    assert_eq!(world.input("t"), "\r");
    world.prints("t", b"started");
    world.update(&mut starter);
    assert!(starter.text().contains("started"));
    world.types(&mut starter, DETACH);
    assert_eq!(starter.status, Some(0));
    for _ in 0..100 {
        world.prints("t", &[b'x'; 65536]);
    }
    assert_eq!(world.names(), ["t"]);
    assert_eq!(world.server("t").run(false), Wait::Forever);
}

#[test]
fn context_messages() {
    let mut world = World::new();
    let mut first = world.terminal(&["--session", "t", "sh"]);
    assert_eq!(first.said, "[started session t; detach with ^\\]\n");
    world.types(&mut first, DETACH);
    assert!(first.said.ends_with("[detached from t]\n"));

    let mut second = world.terminal(&["--detach-key", "^a", "--name", "t"]);
    assert_eq!(second.said, "[attached to session t; detach with ^A]\n");
    world.exit("t", 4, &mut [&mut second]);
    assert_eq!(second.status, Some(4));
    assert!(second.said.ends_with("[session t ended with status 4]\n"));
}

#[test]
fn nested_session_with_other_name() {
    let mut world = World::new();
    world.terminal(&["--session", "outer", "sh"]);
    let inner = world.command(&["--session", "inner", "sh"], Some("outer"), true);
    assert_eq!(inner.session, "inner");
    assert_eq!(
        inner.said,
        "[inside session outer]\n[started session inner; detach with ^\\]\n"
    );
    assert_eq!(world.names(), ["inner", "outer"]);
}

#[test]
fn disconnect_without_name_detaches_current_session() {
    let mut world = World::new();
    let mut first = world.terminal(&["--session", "t", "sh"]);
    let mut second = world.terminal(&["--name", "t"]);
    let mut other = world.terminal(&["--session", "u", "sh"]);

    let output = world.command(&["--disconnect"], Some("t"), true);
    assert_eq!(output.said, "[disconnected terminals from session t]\n");
    assert_eq!(output.status, Some(0));
    for terminal in [&mut first, &mut second] {
        world.update(terminal);
        assert_eq!(terminal.status, Some(0));
        assert!(terminal.said.ends_with("[detached from t by boop --disconnect]\n"));
    }
    assert_eq!(world.names(), ["t", "u"]);

    world.prints("u", b"still-4");
    world.exit("u", 0, &mut [&mut other]);
    assert!(other.text().contains("still-4"));
    assert_eq!(other.status, Some(0));
}

#[test]
fn large_output_arrives_intact() {
    let mut world = World::new();
    let mut terminal = world.terminal(&["sh", "-c", "seq 1 200000; echo end-$((1+1))"]);
    let lines: String = (1..=200000).map(|n| format!("{n}\r\n")).collect();
    for piece in lines.as_bytes().chunks(MAX_PAYLOAD) {
        world.prints("boop", piece);
        let connection = terminal.connection;
        let index = world.client("boop", connection);
        let server = world.server("boop");
        let data = server.clients[index].outbox.clone();
        server.clients[index].flushed(Writing::Written(data.len()));
        assert!(data.len() > MAX_PAYLOAD || piece.len() < MAX_PAYLOAD);
        for read in data.chunks(MAX_PAYLOAD) {
            let polled = Event::Polled { input: NOTHING, socket: READABLE, signals: NOTHING };
            assert_eq!(terminal.relay.as_mut().unwrap().advance(polled), Deed::Receive);
            world.carry_out(&mut terminal, Event::Received(Reading::Data(read.to_vec())));
        }
    }
    world.prints("boop", b"end-2");
    world.exit("boop", 0, &mut [&mut terminal]);
    assert_eq!(terminal.status, Some(0));
    let text = terminal.text();
    assert!(text.contains("\n199999\r\n200000\r\nend-2"));
    assert!(text.contains("\n100000\r\n100001\r\n"));
    assert!(text.starts_with(&lines));
}

#[test]
fn help_version_and_usage_errors() {
    let mut world = World::new();
    let help = world.command(&["--help"], None, false);
    assert_eq!(help.status, Some(0));
    assert!(help.said.contains("--disconnect [NAME]"));
    let version = world.command(&["--version"], None, false);
    assert_eq!(version.status, Some(0));
    assert_eq!(version.said, "boop 0.1.0\n");
    for args in [
        &["--bogus"][..],
        &["--session"],
        &["--session", "a/b"],
        &["--name", "a", "--session", "b"],
        &["--detach-key", "x"],
    ] {
        let output = world.command(args, None, false);
        assert_eq!(output.status, Some(1), "{args:?}");
        assert!(output.said.starts_with("boop: "), "{args:?}");
        assert!(output.said.contains("Usage:"), "{args:?}");
    }
    let reason = parse(vec![b"--list".to_vec()], Some("bad")).unwrap_err();
    let said = complaint(&usage_error(&reason));
    assert!(said.starts_with("boop: BOOP_DETACH_KEY: invalid key \"bad\""));
    assert!(said.contains("BOOP_DETACH_KEY"));

    let status = world.command(&["--status"], Some("work"), false);
    assert_eq!((status.said.as_str(), status.status), ("work\n", Some(0)));
    let listed = world.command(&["--list"], None, false);
    assert_eq!((listed.said.as_str(), listed.status), ("", Some(0)));
}

#[test]
fn a_refused_version_reaches_the_terminal() {
    let mut world = World::new();
    let mut terminal = world.terminal(&["--session", "t"]);
    world.server("t").accept(99);
    let request = boop::protocol::Message::Attach { version: 2, rows: 1, cols: 1 };
    world.send("t", 99, request.encode());
    terminal.connection = 99;
    world.update(&mut terminal);
    assert_eq!(terminal.status, Some(1));
    assert!(terminal.said.ends_with(
        "boop: speaks protocol 1 but the client speaks 2; restart the session\n"
    ));
}

#[test]
fn the_status_of_the_program_is_the_status_of_boop() {
    for (status, code) in [(0, 0), (3 << 8, 3), (255 << 8, 255), (15, 143)] {
        let mut world = World::new();
        let mut terminal = world.terminal(&["--session", "t", "sh"]);
        let Status::Exited(found) = try_wait(1, status) else {
            panic!("running");
        };
        world.exit("t", found, &mut [&mut terminal]);
        assert_eq!(terminal.status.map(exit_status), Some(code));
        assert!(terminal.said.ends_with(&format!("[session t ended with status {code}]\n")));
    }
}
