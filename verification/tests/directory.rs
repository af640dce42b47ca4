use boop::sessions::{
    candidate, check_directory, connect, created, directory, list, removed, socket_path,
    Connection, Entry,
};
use boop::sys::Failure;

fn entry(file_name: &[u8], is_socket: bool, answers: bool) -> Entry {
    Entry { file_name: file_name.to_vec(), is_socket, answers }
}

#[test]
fn directories() {
    let runtime = |path: &[u8]| directory(Some(path.to_vec()), 1000);
    assert_eq!(runtime(b"/run/user/1000"), b"/run/user/1000/boop");
    assert_eq!(runtime(b"/run/"), b"/run/boop");
    assert_eq!(runtime(b"run"), b"run/boop");
    assert_eq!(runtime(b""), b"/tmp/boop-1000");
    assert_eq!(directory(None, 0), b"/tmp/boop-0");
    assert_eq!(directory(None, u32::MAX), b"/tmp/boop-4294967295");
}

#[test]
fn socket_paths() {
    assert_eq!(socket_path(b"/run/boop", "t"), b"/run/boop/t");
    assert_eq!(socket_path(b"/tmp/boop-0", "a.b"), b"/tmp/boop-0/a.b");
}

#[test]
fn insecure_directory_is_refused() {
    let refusal = Err("/run/boop must be a directory owned by the user with mode 0700".into());
    assert_eq!(check_directory("/run/boop", true, 7, 0o40755, 7), refusal);
    assert_eq!(check_directory("/run/boop", true, 7, 0o40701, 7), refusal);
    assert_eq!(check_directory("/run/boop", true, 7, 0o40710, 7), refusal);
    assert_eq!(check_directory("/run/boop", true, 8, 0o40700, 7), refusal);
    assert_eq!(check_directory("/run/boop", false, 7, 0o100700, 7), refusal);
    assert_eq!(check_directory("/run/boop", true, 7, 0o40700, 7), Ok(()));
    assert_eq!(check_directory("/run/boop", true, 7, 0o40500, 7), Ok(()));
}

#[test]
fn directory_that_exists_is_used() {
    assert!(created(Failure::AlreadyExists));
    assert!(!created(Failure::NotFound));
    assert!(!created(Failure::ConnectionRefused));
    assert!(!created(Failure::Other));
}

#[test]
fn stale_socket_is_removed() {
    assert_eq!(connect(Err(Failure::ConnectionRefused)), Connection::Stale);
    assert_eq!(removed(Ok(())), Connection::Absent);
    assert_eq!(removed(Err(Failure::NotFound)), Connection::Absent);
    assert_eq!(removed(Err(Failure::Other)), Connection::Failed);
}

#[test]
fn connections() {
    assert_eq!(connect(Ok(())), Connection::Found);
    assert_eq!(connect(Err(Failure::NotFound)), Connection::Absent);
    assert_eq!(connect(Err(Failure::AlreadyExists)), Connection::Failed);
    assert_eq!(connect(Err(Failure::Other)), Connection::Failed);
}

#[test]
fn foreign_files_are_ignored() {
    assert_eq!(list(&vec![entry(b"plain", false, false)]), Vec::<String>::new());
    assert_eq!(list(&vec![entry(b"plain", false, true)]), Vec::<String>::new());
    assert_eq!(list(&vec![entry(b"stale", true, false)]), Vec::<String>::new());
    assert_eq!(list(&vec![entry(b".hidden", true, true)]), Vec::<String>::new());
    assert_eq!(list(&vec![entry(&[0xff], true, true)]), Vec::<String>::new());
}

#[test]
fn sessions_are_listed_in_order() {
    let entries = vec![
        entry(b"b", true, true),
        entry(b"ab", true, true),
        entry(b"x", true, false),
        entry(b"a", true, true),
        entry(b"B", true, true),
        entry(b"a-", true, true),
    ];
    assert_eq!(list(&entries), ["B", "a", "a-", "ab", "b"]);
}

#[test]
fn candidates() {
    assert_eq!(candidate(b"work"), Some("work".into()));
    assert_eq!(candidate(b""), None);
    assert_eq!(candidate(b"a b"), None);
    assert_eq!(candidate(&[b'a', 0x80]), None);
}
