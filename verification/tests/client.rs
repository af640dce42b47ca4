use boop::cli::{Action, USAGE};
use boop::client::{
    attach_request, complaint, connected, current_session, disconnect, disconnect_request,
    exit_status, farewell, greeting, launched, listing, opened, refuse_nesting, require_terminal,
    run, told_size, Asking, Purpose, Step, DEFAULT_SIZE, RELEASE,
};
use boop::protocol::{Decoder, Message, VERSION};
use boop::relay::Outcome;

fn some(text: &str) -> Option<String> {
    Some(text.into())
}

fn fail(text: &str) -> Step {
    Step::Fail(text.into())
}

fn names(names: &[&str]) -> Vec<String> {
    names.iter().map(|name| name.to_string()).collect()
}

fn command(args: &[&str]) -> Vec<Vec<u8>> {
    args.iter().map(|arg| arg.as_bytes().to_vec()).collect()
}

fn open(session: &str) -> Step {
    Step::Open { session: session.into(), command: Vec::new() }
}

fn attach(session: &str, started: bool) -> Step {
    Step::Attach { session: session.into(), started }
}

#[test]
fn missing_sessions_are_errors() {
    for purpose in [Purpose::Attach, Purpose::Disconnect] {
        assert_eq!(connected("absent".into(), purpose, false), fail("no session named absent"));
    }
    assert_eq!(
        connected("t".into(), Purpose::Started, false),
        fail("session t ended at once")
    );
}

#[test]
fn nesting_is_refused() {
    let refusal = fail("already inside session t");
    assert_eq!(run(Action::Attach { session: "t".into() }, some("t")), refusal);
    let action = Action::Open { session: "t".into(), command: command(&["sh"]) };
    assert_eq!(run(action, some("t")), refusal);
    assert_eq!(boop::client::auto(names(&["t"]), some("t")), refusal);
    assert_eq!(boop::client::auto(Vec::new(), some("boop")), fail("already inside session boop"));
    assert_eq!(run(Action::List, some("t")), Step::List);
    assert_eq!(refuse_nesting("t", &some("t")), Err("already inside session t".into()));
    assert_eq!(refuse_nesting("t", &some("tt")), Ok(()));
    assert_eq!(refuse_nesting("t", &None), Ok(()));
}

#[test]
fn first_steps() {
    assert_eq!(run(Action::Auto, None), Step::Choose);
    assert_eq!(run(Action::Help, None), Step::Print(USAGE.into()));
    assert_eq!(run(Action::Version, None), Step::Print(format!("boop {RELEASE}\n")));
    let action = Action::Open { session: "t".into(), command: command(&["a", "b"]) };
    let step = Step::Open { session: "t".into(), command: command(&["a", "b"]) };
    assert_eq!(run(action, some("other")), step);
    let purpose = Purpose::Attach;
    assert_eq!(
        run(Action::Attach { session: "t".into() }, None),
        Step::Connect { session: "t".into(), purpose }
    );
    let purpose = Purpose::Disconnect;
    assert_eq!(
        run(Action::Disconnect { session: "t".into() }, some("t")),
        Step::Connect { session: "t".into(), purpose }
    );
}

#[test]
fn disconnect_without_name_outside_session_is_refused() {
    assert_eq!(run(Action::DisconnectCurrent, None), fail("not inside a session"));
    let Step::Fail(reason) = run(Action::DisconnectCurrent, some("a/b")) else {
        panic!("accepted");
    };
    assert!(reason.starts_with("BOOP_SESSION: invalid session name \"a/b\": use up to 64"));
    let step = run(Action::DisconnectCurrent, some("gone"));
    let purpose = Purpose::Disconnect;
    assert_eq!(step, Step::Connect { session: "gone".into(), purpose });
    assert_eq!(
        connected("gone".into(), Purpose::Disconnect, false),
        fail("no session named gone")
    );
}

#[test]
fn status_names_the_current_session() {
    assert_eq!(run(Action::Status, some("work")), Step::Print("work\n".into()));
    assert_eq!(run(Action::Status, None), fail("not inside a session"));
    assert!(matches!(run(Action::Status, some("")), Step::Fail(_)));
    assert_eq!(current_session(some("work")), Ok("work".into()));
}

#[test]
fn sessions_to_choose_from() {
    assert_eq!(boop::client::auto(Vec::new(), None), open("boop"));
    assert_eq!(boop::client::auto(names(&["solo"]), some("outer")), open("solo"));
    assert_eq!(
        boop::client::auto(names(&["boop", "other"]), None),
        fail("sessions running: boop other\nchoose one with: boop --name NAME")
    );
    assert_eq!(
        boop::client::auto(names(&["a", "b", "c"]), some("a")),
        fail("sessions running: a b c\nchoose one with: boop --name NAME")
    );
}

#[test]
fn listings() {
    assert_eq!(listing(&Vec::new()), "");
    assert_eq!(listing(&names(&["t"])), "t\n");
    assert_eq!(listing(&names(&["t", "u"])), "t\nu\n");
}

#[test]
fn non_terminal_input_is_refused() {
    let refusal = "standard input is not a terminal";
    assert_eq!(opened("t".into(), command(&["sh"]), false), fail(refusal));
    assert_eq!(require_terminal(false), Err(refusal.into()));
    assert_eq!(require_terminal(true), Ok(()));
    assert_eq!(
        opened("t".into(), command(&["sh"]), true),
        Step::Connect { session: "t".into(), purpose: Purpose::Open(command(&["sh"])) }
    );
}

#[test]
fn command_for_existing_session_is_refused() {
    for session in ["t", "boop"] {
        assert_eq!(
            connected(session.into(), Purpose::Open(command(&["top"])), true),
            Step::Fail(format!(
                "session {session} already exists; name a new one with --session"
            ))
        );
    }
}

#[test]
fn sessions_are_attached_or_started() {
    assert_eq!(connected("t".into(), Purpose::Open(Vec::new()), true), attach("t", false));
    assert_eq!(connected("t".into(), Purpose::Attach, true), attach("t", false));
    assert_eq!(connected("t".into(), Purpose::Started, true), attach("t", true));
    assert_eq!(
        connected("t".into(), Purpose::Disconnect, true),
        Step::Disconnect { session: "t".into() }
    );
    assert_eq!(
        connected("t".into(), Purpose::Open(command(&["sh"])), false),
        Step::Launch { session: "t".into(), command: command(&["sh"]) }
    );
    assert_eq!(
        launched("t".into(), Ok(())),
        Step::Connect { session: "t".into(), purpose: Purpose::Started }
    );
    assert_eq!(launched("t".into(), Err("why".into())), fail("why"));
}

#[test]
fn requests() {
    assert_eq!(
        attach_request(Some((30, 100))),
        Message::Attach { version: VERSION, rows: 30, cols: 100 }
    );
    assert_eq!(attach_request(None), Message::Attach { version: VERSION, rows: 24, cols: 80 });
    assert_eq!(disconnect_request(), Message::Disconnect { version: VERSION });
    assert_eq!(told_size(None), DEFAULT_SIZE);
    assert_eq!(told_size(Some((1, 2))), (1, 2));
}

#[test]
fn greetings_and_farewells() {
    assert_eq!(greeting("t", true, 0x1c, None), "[started session t; detach with ^\\]\n");
    assert_eq!(greeting("t", false, 1, None), "[attached to session t; detach with ^A]\n");
    assert_eq!(greeting("t", false, 1, some("a/b")), greeting("t", false, 1, None));
    assert_eq!(farewell("t", Outcome::Detached), ("[detached from t]\n".into(), 0));
    assert_eq!(
        farewell("t", Outcome::Disconnected),
        ("[detached from t by boop --disconnect]\n".into(), 0)
    );
    assert_eq!(
        farewell("t", Outcome::Exited(4)),
        ("[session t ended with status 4]\n".into(), 4)
    );
    assert_eq!(
        farewell("t", Outcome::Exited(i32::MIN)).0,
        "[session t ended with status -2147483648]\n"
    );
}

#[test]
fn nested_context_is_reported() {
    assert_eq!(
        greeting("inner", true, 0x1c, some("outer")),
        "[inside session outer]\n[started session inner; detach with ^\\]\n"
    );
    assert_eq!(
        farewell("inner", Outcome::Exited(2)),
        ("[session inner ended with status 2]\n".into(), 2)
    );
}

#[test]
fn statuses_fit_a_process() {
    assert_eq!(exit_status(0), 0);
    assert_eq!(exit_status(143), 143);
    assert_eq!(exit_status(255), 255);
    assert_eq!(exit_status(256), 255);
    assert_eq!(exit_status(-1), 0);
}

#[test]
fn complaints() {
    assert_eq!(complaint("not inside a session"), "boop: not inside a session\n");
}

#[test]
fn disconnect_is_reported() {
    let mut decoder = Decoder::default();
    let frames: Vec<u8> = [Message::Output(b"x".to_vec()), Message::Detached]
        .iter()
        .flat_map(Message::encode)
        .collect();
    let first = disconnect("t", &mut decoder, Ok(frames[..8].to_vec()));
    assert_eq!(first, Asking::Read);
    let last = disconnect("t", &mut decoder, Ok(frames[8..].to_vec()));
    assert_eq!(last, Asking::Done("[disconnected terminals from session t]\n".into()));
}

#[test]
fn disconnect_may_fail() {
    let after = |read| disconnect("t", &mut Decoder::default(), read);
    let failed = |text: &str| Asking::Fail(text.into());
    assert_eq!(after(Ok(Vec::new())), failed("session t closed the connection"));
    assert_eq!(after(Err("reset".into())), failed("reset"));
    assert_eq!(
        after(Err("Resource temporarily unavailable (os error 11)".into())),
        failed("Resource temporarily unavailable (os error 11)")
    );
    assert_eq!(after(Ok(Message::Error("no".into()).encode())), failed("no"));
    assert_eq!(after(Ok(vec![99, 0, 0, 0, 0])), failed("malformed message of type 99"));
}

#[test]
fn an_answer_may_be_cut_anywhere() {
    for (answer, expected) in [
        (Message::Detached, Asking::Done("[disconnected terminals from session t]\n".into())),
        (Message::Error("no".into()), Asking::Fail("no".into())),
    ] {
        let bytes = answer.encode();
        for cut in 1..bytes.len() {
            let mut decoder = Decoder::default();
            assert_eq!(disconnect("t", &mut decoder, Ok(bytes[..cut].to_vec())), Asking::Read);
            assert_eq!(disconnect("t", &mut decoder, Ok(bytes[cut..].to_vec())), expected);
        }
    }
}
