use boop::sys::{fork, try_wait, window_size, Delivery, Events, Fork, Status, WriteAll, Writing};

const NOTHING: Events =
    Events { readable: false, writable: false, hung_up: false, failed: false, invalid: false };

#[test]
fn wait_status() {
    assert_eq!(try_wait(0, 0), Status::Running);
    assert_eq!(try_wait(0, 3 << 8), Status::Running);
    assert_eq!(try_wait(9, 0), Status::Exited(0));
    assert_eq!(try_wait(9, 3 << 8), Status::Exited(3));
    assert_eq!(try_wait(9, 255 << 8), Status::Exited(255));
    assert_eq!(try_wait(9, libc::SIGKILL), Status::Exited(137));
    assert_eq!(try_wait(9, libc::SIGSEGV | 0x80), Status::Exited(128 + libc::SIGSEGV));
    assert_eq!(try_wait(9, libc::SIGSTOP << 8 | 0x7f), Status::Running);
    assert_eq!(try_wait(9, 0xffff), Status::Running);
}

#[test]
fn signalled_command_status() {
    assert_eq!(try_wait(1, libc::SIGTERM), Status::Exited(128 + libc::SIGTERM));
}

#[test]
fn wait_status_of_every_shape() {
    for status in (0..0x1_0000).chain([-1, i32::MIN, i32::MAX, -0x100, -0x7f]) {
        let expected = if libc::WIFEXITED(status) {
            Status::Exited(libc::WEXITSTATUS(status))
        } else if libc::WIFSIGNALED(status) {
            Status::Exited(128 + libc::WTERMSIG(status))
        } else {
            Status::Running
        };
        assert_eq!(try_wait(1, status), expected);
    }
}

#[test]
fn sides_of_a_fork() {
    assert_eq!(fork(0), Fork::Child);
    assert_eq!(fork(17), Fork::Parent(17));
}

#[test]
fn sizes_that_are_none() {
    assert_eq!(window_size(true, 24, 80), Some((24, 80)));
    assert_eq!(window_size(false, 24, 80), None);
    assert_eq!(window_size(true, 0, 80), None);
    assert_eq!(window_size(true, 24, 0), None);
}

#[test]
fn events() {
    assert!(!NOTHING.any());
    assert!(!NOTHING.wants_read());
    for event in [
        Events { readable: true, ..NOTHING },
        Events { hung_up: true, ..NOTHING },
        Events { failed: true, ..NOTHING },
    ] {
        assert!(event.any());
        assert!(event.wants_read());
    }
    for event in [Events { writable: true, ..NOTHING }, Events { invalid: true, ..NOTHING }] {
        assert!(event.any());
        assert!(!event.wants_read());
    }
}

#[test]
fn everything_is_written() {
    let mut all = WriteAll::new(b"hello".to_vec());
    assert_eq!(all.begin(), Delivery::Write);
    assert_eq!(all.left(), b"hello");
    assert_eq!(all.wrote(Writing::Written(2)), Delivery::Write);
    assert_eq!(all.left(), b"llo");
    assert_eq!(all.wrote(Writing::Blocked), Delivery::Wait);
    assert_eq!(all.left(), b"llo");
    assert_eq!(all.wrote(Writing::Written(3)), Delivery::Done);
    assert_eq!(all.left(), b"");
    assert_eq!(all.begin(), Delivery::Done);
}

#[test]
fn a_failed_write_is_given_up() {
    let mut all = WriteAll::new(b"x".to_vec());
    assert_eq!(all.wrote(Writing::Failed), Delivery::Fail);
    assert_eq!(WriteAll::new(Vec::new()).begin(), Delivery::Done);
}
