use boop::launch::{
    cannot_run, command_line, launch, reported, run_failure, Happened, Launch, Next,
};
use boop::sys::Fork;

fn wanted(command: &[&[u8]]) -> Launch {
    Launch {
        name: "t".into(),
        command: command.iter().map(|arg| arg.to_vec()).collect(),
        rows: 24,
        cols: 80,
    }
}

fn next(happened: Happened) -> Next {
    launch(&wanted(&[b"top"]), None, happened)
}

fn error(text: &str) -> Result<(), String> {
    Err(text.into())
}

#[test]
fn command_or_shell() {
    let none: Vec<Vec<u8>> = Vec::new();
    assert_eq!(command_line(&none, Some(b"/bin/zsh".to_vec())), Ok(vec![b"/bin/zsh".to_vec()]));
    assert_eq!(command_line(&none, Some(Vec::new())), Ok(vec![b"/bin/sh".to_vec()]));
    assert_eq!(command_line(&none, None), Ok(vec![b"/bin/sh".to_vec()]));
    let command = vec![b"ls".to_vec(), Vec::new(), vec![0xff]];
    assert_eq!(command_line(&command, Some(b"/bin/zsh".to_vec())), Ok(command));
}

#[test]
fn nul_bytes_are_refused() {
    let refusal = Err("command contains a NUL byte".into());
    assert_eq!(command_line(&vec![b"ls".to_vec(), b"a\0".to_vec()], None), refusal);
    assert_eq!(command_line(&Vec::new(), Some(b"\0".to_vec())), refusal);
    assert_eq!(
        launch(&wanted(&[b"\0"]), None, Happened::Bound),
        Next::Return(error("command contains a NUL byte"))
    );
}

#[test]
fn the_way_of_the_parent() {
    assert_eq!(next(Happened::Located(Ok(()))), Next::Bind);
    assert_eq!(next(Happened::Bound), Next::Pipe(vec![b"top".to_vec()]));
    assert_eq!(next(Happened::Piped(Ok(()))), Next::Fork);
    assert_eq!(next(Happened::Forked(Ok(Fork::Parent(5)))), Next::Wait(5));
    assert_eq!(next(Happened::Waited(Ok(()))), Next::ReadReport);
    assert_eq!(next(Happened::Reported(Ok(String::new()))), Next::Return(Ok(())));
}

#[test]
fn the_way_of_the_daemon() {
    assert_eq!(next(Happened::Forked(Ok(Fork::Child))), Next::Daemonize);
    assert_eq!(next(Happened::Daemonized(Ok(Fork::Parent(6)))), Next::Exit(0));
    assert_eq!(next(Happened::Daemonized(Ok(Fork::Child))), Next::Start);
    assert_eq!(next(Happened::Started(Ok(()))), Next::Serve);
    assert_eq!(next(Happened::Served(true)), Next::Leave(0));
    assert_eq!(next(Happened::Served(false)), Next::Leave(1));
}

#[test]
fn launch_failures() {
    assert_eq!(next(Happened::NameTaken), Next::Return(error("session t already exists")));
    assert_eq!(
        next(Happened::BindFailed { shown: "/run/boop/t".into(), error: "no space".into() }),
        Next::Return(error("/run/boop/t: no space"))
    );
    assert_eq!(next(Happened::Located(error("a"))), Next::Return(error("a")));
    assert_eq!(next(Happened::Piped(error("b"))), Next::Return(error("b")));
    assert_eq!(next(Happened::Forked(Err("c".into()))), Next::Return(error("c")));
    assert_eq!(next(Happened::Waited(error("d"))), Next::Return(error("d")));
    assert_eq!(next(Happened::Reported(Err("e".into()))), Next::Return(error("e")));
    assert_eq!(next(Happened::Daemonized(Err("f".into()))), Next::ReportAndExit("f".into()));
    assert_eq!(next(Happened::Started(error("g"))), Next::ReportAndExit("g".into()));
}

#[test]
fn exec_failure_is_reported() {
    let message = cannot_run(b"/nonexistent/program", "No such file or directory (os error 2)");
    assert_eq!(
        message,
        "cannot run /nonexistent/program: No such file or directory (os error 2)"
    );
    assert_eq!(reported(message.clone()), Err(message.clone()));
    assert_eq!(next(Happened::Started(Err(message.clone()))), Next::ReportAndExit(message.clone()));
    assert_eq!(next(Happened::Reported(Ok(message.clone()))), Next::Return(Err(message)));
    assert_eq!(cannot_run(b"a\xff", "e"), "cannot run a\u{fffd}: e");
    assert_eq!(run_failure("<x>", "e"), "cannot run <x>: e");
}

#[test]
fn empty_report_is_success() {
    assert_eq!(reported(String::new()), Ok(()));
    assert_eq!(reported("\u{e9}".into()), Err("\u{e9}".into()));
}
