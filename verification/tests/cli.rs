use boop::cli::{
    key_name, key_refusal, name_refusal, parse, parse_key, session_name, usage_error, Action, Options, DEFAULT_DETACH_KEY,
    USAGE,
};

fn bytes(args: &[&str]) -> Vec<Vec<u8>> {
    args.iter().map(|arg| arg.as_bytes().to_vec()).collect()
}

fn run(args: &[&str]) -> Result<Options, String> {
    parse(bytes(args), None)
}

fn action(args: &[&str]) -> Action {
    run(args).unwrap().action
}

fn open(session: &str, command: &[&str]) -> Action {
    Action::Open { session: session.into(), command: bytes(command) }
}

#[test]
fn bare_invocation_is_auto() {
    assert_eq!(action(&[]), Action::Auto);
    assert_eq!(run(&[]).unwrap().detach_key, DEFAULT_DETACH_KEY);
}

#[test]
fn command_opens_default_session() {
    assert_eq!(action(&["top"]), open("boop", &["top"]));
    assert_eq!(
        action(&["ls", "-l", "--session", "x"]),
        open("boop", &["ls", "-l", "--session", "x"])
    );
}

#[test]
fn double_dash_ends_options() {
    assert_eq!(action(&["--", "--list"]), open("boop", &["--list"]));
    assert_eq!(action(&["--"]), Action::Auto);
}

#[test]
fn session_forms() {
    assert_eq!(action(&["--session", "work"]), open("work", &[]));
    assert_eq!(action(&["--session=work"]), open("work", &[]));
    assert_eq!(action(&["-s", "work", "vim", "f"]), open("work", &["vim", "f"]));
}

#[test]
fn name_attaches() {
    assert_eq!(action(&["--name", "work"]), Action::Attach { session: "work".into() });
    assert!(run(&["--name", "work", "top"]).is_err());
}

#[test]
fn disconnect_and_list() {
    assert_eq!(action(&["-d", "work"]), Action::Disconnect { session: "work".into() });
    assert_eq!(action(&["--list"]), Action::List);
    assert!(run(&["--list", "top"]).is_err());
    assert!(run(&["--list=x"]).is_err());
    assert!(run(&["--disconnect", "a", "top"]).is_err());
}

#[test]
fn exclusive_options() {
    assert!(run(&["--session", "a", "--name", "b"]).is_err());
    assert!(run(&["--list", "--disconnect", "b"]).is_err());
}

#[test]
fn help_and_version() {
    assert_eq!(action(&["--help"]), Action::Help);
    assert_eq!(action(&["-V"]), Action::Version);
}

#[test]
fn errors() {
    assert!(run(&["--bogus"]).is_err());
    assert!(run(&["--session"]).is_err());
    assert!(run(&["--session", ""]).is_err());
    assert!(run(&["--session", "a/b"]).is_err());
    assert!(run(&["--session", ".."]).is_err());
    assert!(run(&["--session", &"x".repeat(65)]).is_err());
    assert!(run(&["--detach-key", "a"]).is_err());
}

#[test]
fn detach_key_option_and_environment() {
    assert_eq!(run(&["-k", "^a"]).unwrap().detach_key, 1);
    assert_eq!(run(&["--detach-key=^]"]).unwrap().detach_key, 0x1d);
    let env = parse(vec![], Some("^B")).unwrap();
    assert_eq!(env.detach_key, 2);
    let both = parse(bytes(&["-k", "^C"]), Some("^B")).unwrap();
    assert_eq!(both.detach_key, 3);
    assert!(parse(vec![], Some("x")).is_err());
}

#[test]
fn key_parsing() {
    assert_eq!(parse_key("^\\"), Ok(0x1c));
    assert_eq!(parse_key("^@"), Ok(0));
    assert_eq!(parse_key("^_"), Ok(0x1f));
    assert_eq!(parse_key("^?"), Ok(0x7f));
    assert_eq!(parse_key("^z"), Ok(0x1a));
    assert!(parse_key("^").is_err());
    assert!(parse_key("^1").is_err());
    assert!(parse_key("^ab").is_err());
    assert!(parse_key("\\").is_err());
}

#[test]
fn key_names() {
    assert_eq!(key_name(0x1c), "^\\");
    assert_eq!(key_name(0), "^@");
    assert_eq!(key_name(1), "^A");
    assert_eq!(key_name(0x1f), "^_");
    assert_eq!(key_name(0x7f), "^?");
    for text in ["^@", "^A", "^Z", "^[", "^\\", "^]", "^^", "^_", "^?"] {
        assert_eq!(key_name(parse_key(text).unwrap()), text);
    }
}

#[test]
fn every_control_key_reads_back() {
    for key in (0..0x20u8).chain([0x7f]) {
        assert_eq!(parse_key(&key_name(key)), Ok(key));
    }
}

#[test]
fn refused_keys_are_quoted() {
    assert_eq!(
        parse_key("a\"\n"),
        Err("invalid key \"a\\\"\\n\": expected ^ and a character from @A-Z[\\]^_?".into())
    );
    assert!(parse_key("^\u{e9}").is_err());
    assert!(parse_key("").is_err());
}

#[test]
fn session_names() {
    for name in ["a", "A-Z_0.9+@:", &"x".repeat(64), "-"] {
        assert_eq!(session_name(name.into()), Ok(name.into()));
    }
    for name in ["", ".", ".a", "a b", "a/b", "\u{e9}", &"x".repeat(65), "a\0"] {
        let reason = session_name(name.into()).unwrap_err();
        assert_eq!(
            reason,
            format!(
                "invalid session name {name:?}: use up to 64 of A-Z a-z 0-9 . _ - + @ : not \
                 starting with ."
            )
        );
    }
}

#[test]
fn reasons_for_refusal() {
    assert_eq!(
        name_refusal("<x>"),
        "invalid session name <x>: use up to 64 of A-Z a-z 0-9 . _ - + @ : not starting with ."
    );
    assert_eq!(
        key_refusal("<x>"),
        "invalid key <x>: expected ^ and a character from @A-Z[\\]^_?"
    );
}

#[test]
fn disconnect_without_name_is_the_current_session() {
    assert_eq!(action(&["--disconnect"]), Action::DisconnectCurrent);
    assert_eq!(action(&["-d"]), Action::DisconnectCurrent);
    assert_eq!(action(&["--disconnect=work"]), Action::Disconnect { session: "work".into() });
    assert_eq!(action(&["-k", "^a", "-d"]), Action::DisconnectCurrent);
    assert!(run(&["--disconnect="]).is_err());
    assert!(run(&["--disconnect", "a/b"]).is_err());
    assert!(run(&["--list", "-d"]).is_err());
}

#[test]
fn status_stands_alone() {
    assert_eq!(action(&["--status"]), Action::Status);
    assert_eq!(action(&["-k", "^a", "--status"]), Action::Status);
    assert!(run(&["--status", "top"]).is_err());
    assert!(run(&["--status", "--list"]).is_err());
    assert!(run(&["--status=x"]).is_err());
}

#[test]
fn refusals() {
    let refusal = |args: &[&str]| run(args).unwrap_err();
    assert_eq!(refusal(&["--bogus"]), "unknown option --bogus");
    assert_eq!(refusal(&["--bogus=1"]), "unknown option --bogus=1");
    assert_eq!(refusal(&["-s"]), "-s needs a value");
    assert_eq!(refusal(&["--name"]), "--name needs a value");
    assert_eq!(refusal(&["--list=x"]), "--list takes no value");
    assert_eq!(
        refusal(&["-s", "a", "-l"]),
        "--session, --name, --disconnect and --list are exclusive"
    );
    assert_eq!(
        refusal(&["-n", "a", "top"]),
        "a command is only accepted with --session or alone"
    );
    assert_eq!(
        parse(vec![], Some("x")).unwrap_err(),
        "BOOP_DETACH_KEY: invalid key \"x\": expected ^ and a character from @A-Z[\\]^_?"
    );
    let bad = parse(vec![b"-s".to_vec(), vec![0xff]], None);
    assert_eq!(bad.unwrap_err(), "-s needs a value");
}

#[test]
fn bytes_that_are_no_text_begin_a_command() {
    let args = vec![vec![0xff, b'-'], b"--list".to_vec()];
    let options = parse(args.clone(), None).unwrap();
    assert_eq!(options.action, Action::Open { session: "boop".into(), command: args });
    assert_eq!(action(&["-"]), open("boop", &["-"]));
}

#[test]
fn last_option_of_a_kind_counts() {
    assert!(run(&["-s", "a", "--session=b=c"]).is_err());
    assert_eq!(action(&["-s", "a", "-s", "b"]), open("b", &[]));
    assert_eq!(run(&["-k", "^a", "-k", "^b"]).unwrap().detach_key, 2);
}

#[test]
fn help_counts_at_once() {
    let options = parse(bytes(&["-k", "^a", "-s", "x", "--help", "--bogus"]), Some("bad")).unwrap();
    assert_eq!(options, Options { action: Action::Help, detach_key: DEFAULT_DETACH_KEY });
    assert!(run(&["--bogus", "--help"]).is_err());
}

#[test]
fn usage_follows_the_reason() {
    let text = usage_error("unknown option -x");
    assert!(text.starts_with("unknown option -x\nUsage: boop "));
    assert!(text.ends_with(USAGE));
    assert!(USAGE.contains("--disconnect [NAME]"));
    assert!(USAGE.contains("(default ^\\)"));
}

#[test]
fn options_are_spelled_alike() {
    for (long, short) in
        [("--session", "-s"), ("--name", "-n"), ("--disconnect", "-d"), ("--detach-key", "-k")]
    {
        for value in ["work", "", "a=b", "^a", "^", "--list", "\u{e9}", "a/b"] {
            for rest in [&[][..], &["top", "-s", "x"], &["--list"], &["-k", "^b"], &["--bogus"]] {
                let inline = format!("{long}={value}");
                let apart = run(&[&[long, value][..], rest].concat());
                assert_eq!(run(&[&[inline.as_str()][..], rest].concat()), apart);
                assert_eq!(run(&[&[short, value][..], rest].concat()), apart);
            }
        }
    }
}

#[test]
fn accepted_detach_keys_are_control_keys() {
    for c in 0..=127u8 {
        let text = format!("^{}", c as char);
        let by_option = parse(vec![b"-k".to_vec(), text.clone().into_bytes()], None);
        let by_environment = parse(vec![], Some(&text));
        for options in [by_option, by_environment].into_iter().flatten() {
            assert!(options.detach_key < 0x20 || options.detach_key == 0x7f);
        }
    }
}
