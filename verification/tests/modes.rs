use boop::modes::{ModeTracker, MAX_PARAMS};

fn scanned(data: &[u8]) -> ModeTracker {
    let mut tracker = ModeTracker::default();
    tracker.scan(data);
    tracker
}

fn replay(data: &[u8]) -> String {
    String::from_utf8(scanned(data).replay()).unwrap()
}

#[test]
fn defaults_replay_nothing() {
    assert_eq!(replay(b""), "");
    assert_eq!(scanned(b"").reset(), b"\x1b[0m");
}

#[test]
fn single_mode() {
    assert_eq!(replay(b"\x1b[?1000h"), "\x1b[?1000h");
    assert_eq!(replay(b"\x1b[?1000h\x1b[?1000l"), "");
}

#[test]
fn default_on_modes() {
    assert_eq!(replay(b"\x1b[?25l"), "\x1b[?25l");
    assert_eq!(replay(b"\x1b[?25l\x1b[?25h"), "");
    assert_eq!(
        String::from_utf8(scanned(b"\x1b[?25l").reset()).unwrap(),
        "\x1b[?25h\x1b[0m"
    );
}

#[test]
fn multiple_parameters() {
    assert_eq!(replay(b"\x1b[?1002;1006;9999h"), "\x1b[?1002h\x1b[?1006h");
}

#[test]
fn alternate_screen_first() {
    let tracker = scanned(b"\x1b[?2004h\x1b[?1049h");
    assert_eq!(
        String::from_utf8(tracker.replay()).unwrap(),
        "\x1b[?1049h\x1b[?2004h"
    );
    assert_eq!(
        String::from_utf8(tracker.reset()).unwrap(),
        "\x1b[?1049l\x1b[?2004l\x1b[0m"
    );
}

#[test]
fn split_across_chunks() {
    let data = b"text\x1b[?1049h more \x1b[?1000;1006h tail";
    for split in 0..data.len() {
        let mut tracker = ModeTracker::default();
        tracker.scan(&data[..split]);
        tracker.scan(&data[split..]);
        assert_eq!(
            String::from_utf8(tracker.replay()).unwrap(),
            "\x1b[?1049h\x1b[?1000h\x1b[?1006h",
            "split at {split}"
        );
    }
}

#[test]
fn non_private_ignored() {
    assert_eq!(replay(b"\x1b[1000h\x1b[4h\x1b[>1000h\x1b[=25l"), "");
}

#[test]
fn other_finals_ignored() {
    assert_eq!(replay(b"\x1b[?1000$p\x1b[?25s\x1b[?1049m"), "");
}

#[test]
fn misplaced_leader_ignored() {
    assert_eq!(replay(b"\x1b[1?1000h\x1b[??1000h"), "");
}

#[test]
fn colon_parameters_ignored() {
    assert_eq!(replay(b"\x1b[?1000:1h"), "");
}

#[test]
fn keypad() {
    assert_eq!(replay(b"\x1b="), "\x1b=");
    assert_eq!(replay(b"\x1b=\x1b>"), "");
    assert_eq!(
        String::from_utf8(scanned(b"\x1b=").reset()).unwrap(),
        "\x1b>\x1b[0m"
    );
}

#[test]
fn full_reset() {
    assert_eq!(replay(b"\x1b[?1049h\x1b=\x1b[?25l\x1bc"), "");
}

#[test]
fn control_strings_hide_sequences() {
    assert_eq!(replay(b"\x1b]0;[?1000h\x07"), "");
    assert_eq!(replay(b"\x1bPq=\x1b\\"), "");
    assert_eq!(replay(b"\x1b]2;title\x1b\\\x1b[?1000h"), "\x1b[?1000h");
    assert_eq!(replay(b"\x1b]2;title\x07\x1b="), "\x1b=");
}

#[test]
fn escape_intermediates() {
    assert_eq!(replay(b"\x1b(=\x1b[?1h"), "\x1b[?1h");
    assert_eq!(replay(b"\x1b#8"), "");
}

#[test]
fn cancel_aborts_sequence() {
    assert_eq!(replay(b"\x1b[?10\x1800h"), "");
    assert_eq!(replay(b"\x1b[?1000\x1ah"), "");
}

#[test]
fn escape_restarts_sequence() {
    assert_eq!(replay(b"\x1b[?10\x1b[?2004h"), "\x1b[?2004h");
}

#[test]
fn embedded_controls_executed() {
    assert_eq!(replay(b"\x1b[?10\r\n00h"), "\x1b[?1000h");
}

#[test]
fn huge_parameters_saturate() {
    assert_eq!(replay(b"\x1b[?99999999999h\x1b[?25l"), "\x1b[?25l");
}

#[test]
fn too_many_parameters_ignored() {
    let mut data = b"\x1b[?".to_vec();
    data.extend("1;".repeat(MAX_PARAMS).bytes());
    data.extend(b"1000h");
    assert_eq!(replay(&data), "");
}

#[test]
fn empty_parameters_skipped() {
    assert_eq!(replay(b"\x1b[?;1000;h"), "\x1b[?1000h");
}

#[test]
fn arbitrary_bytes_do_not_panic() {
    let data: Vec<u8> = (0..=255u8).cycle().take(4096).collect();
    scanned(&data).replay();
}

#[test]
fn as_many_parameters_as_allowed_count() {
    let mut data = b"\x1b[?".to_vec();
    data.extend("1;".repeat(MAX_PARAMS - 1).bytes());
    data.extend(b"1000h");
    assert_eq!(replay(&data), "\x1b[?1h\x1b[?1000h");
}

#[test]
fn replaying_a_replay_changes_nothing() {
    let all = b"\x1b[?1049;1047;47;1h\x1b[?7;25l\x1b[?1000;1002;1003;1004;1005;1006;1015;2004h\x1b=";
    let first = scanned(all);
    let expected = "\x1b[?1049h\x1b[?1047h\x1b[?47h\x1b[?1h\x1b[?7l\x1b[?25l\x1b[?1000h\x1b[?1002h\
                    \x1b[?1003h\x1b[?1004h\x1b[?1005h\x1b[?1006h\x1b[?1015h\x1b[?2004h\x1b=";
    assert_eq!(String::from_utf8(first.replay()).unwrap(), expected);
    assert_eq!(scanned(&first.replay()).replay(), first.replay());
    assert!(first.replay().len() <= 128);
}

#[test]
fn reset_undoes_everything() {
    let mut tracker = scanned(b"\x1b[?1049h\x1b[?25l\x1b=\x1b[?10");
    tracker.scan(&tracker.reset());
    assert_eq!(tracker.replay(), b"");
    assert_eq!(tracker.reset(), b"\x1b[0m");
}
