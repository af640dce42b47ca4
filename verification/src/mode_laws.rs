//! What holds of mode tracking as a whole.

use vstd::prelude::*;

use crate::modes::{State, Tracker, ESC, MODE_COUNT, TRACKED};

verus! {

/// Output may be read in pieces: reading two pieces one after the other leaves the
/// same tracker as reading them at once.
pub proof fn scan_in_pieces(tracker: Tracker, first: Seq<u8>, second: Seq<u8>)
    ensures
        tracker.scan(first + second) == tracker.scan(first).scan(second),
    decreases second.len(),
{
    if second.len() == 0 {
        assert(first + second == first);
    } else {
        scan_in_pieces(tracker, first, second.drop_last());
        assert((first + second).drop_last() == first + second.drop_last());
    }
}

/// A tracker keeps one setting for each followed mode and never holds more
/// parameters than a control sequence may carry, whatever the output.
pub proof fn scan_keeps_wf(tracker: Tracker, data: Seq<u8>)
    requires
        tracker.wf(),
    ensures
        tracker.scan(data).wf(),
    decreases data.len(),
{
    if data.len() > 0 {
        scan_keeps_wf(tracker, data.drop_last());
    }
}

/// A tracker that has seen no output is well formed.
pub proof fn initial_wf()
    ensures
        Tracker::initial().wf(),
{
}

/// A full reset (escape `c`) forgets everything that came before it.
pub proof fn full_reset_forgets(tracker: Tracker)
    ensures
        tracker.scan(seq![ESC, 'c' as u8]) == Tracker::initial(),
{
    scan_two(tracker, ESC, 'c' as u8);
}

/// A terminal in its default modes needs no replay, and is only told to drop its
/// character attributes.
pub proof fn defaults_need_nothing(tracker: Tracker)
    requires
        tracker.modes == Tracker::initial().modes,
        !tracker.keypad,
    ensures
        tracker.replay() == Seq::<u8>::empty(),
        tracker.reset() == seq![ESC, '[' as u8, '0' as u8, 'm' as u8],
{
    no_changes(tracker.modes, MODE_COUNT as nat);
}

proof fn no_changes(modes: Seq<bool>, count: nat)
    requires
        modes == crate::modes::default_modes(),
        count <= MODE_COUNT,
    ensures
        crate::modes::changes(modes, count) == Seq::<(u16, bool)>::empty(),
    decreases count,
{
    if count > 0 {
        no_changes(modes, (count - 1) as nat);
    }
}

proof fn scan_one(tracker: Tracker, byte: u8)
    ensures
        tracker.scan(seq![byte]) == tracker.step(byte),
{
    assert(seq![byte].drop_last() == Seq::<u8>::empty());
    assert(tracker.scan(Seq::<u8>::empty()) == tracker);
}

proof fn scan_two(tracker: Tracker, first: u8, second: u8)
    ensures
        tracker.scan(seq![first, second]) == tracker.step(first).step(second),
{
    assert(seq![first, second].drop_last() == seq![first]);
    scan_one(tracker, first);
}

/// Reading the decimal digits of a number inside a control sequence gives the number.
proof fn scan_digits(tracker: Tracker, n: nat)
    requires
        tracker.state is Csi,
        tracker.current is None,
        n <= u16::MAX,
    ensures
        tracker.scan(crate::text::digits(n)) == (Tracker {
            parameter_seen: true,
            current: Some(n as u16),
            ..tracker
        }),
    decreases n,
{
    if n < 10 {
        scan_one(tracker, (48 + n) as u8);
    } else {
        scan_digits(tracker, n / 10);
        let all = crate::text::digits(n);
        assert(all.drop_last() == crate::text::digits(n / 10));
    }
}

/// The control sequence for a mode sets that mode and nothing else that is followed,
/// wherever in an escape sequence the output stood.
pub proof fn mode_sequence_switches(tracker: Tracker, mode: u16, enabled: bool)
    ensures
        ({
            let after = tracker.scan(crate::modes::mode_sequence(mode, enabled));
            &&& after.state is Ground
            &&& after.keypad == tracker.keypad
            &&& after.modes == crate::modes::switched(tracker.modes, seq![mode], enabled)
        }),
{
    let last = if enabled { 'h' as u8 } else { 'l' as u8 };
    let head = seq![ESC, '[' as u8, '?' as u8];
    let number = crate::text::digits(mode as nat);
    scan_two(tracker, ESC, '[' as u8);
    assert(head.drop_last() == seq![ESC, '[' as u8]);
    let opened = tracker.scan(head);
    scan_in_pieces(tracker, head, number);
    scan_digits(opened, mode as nat);
    scan_in_pieces(tracker, head + number, seq![last]);
    let read = tracker.scan(head + number);
    scan_one(read, last);
    assert(read.push_param().params == seq![mode]);
}

proof fn tracked_modes_differ(i: int, j: int)
    requires
        0 <= i < MODE_COUNT,
        0 <= j < MODE_COUNT,
        i != j,
    ensures
        TRACKED[i].0 != TRACKED[j].0,
{
}

/// Settings `start`, with the first `count` taken from `target`.
spec fn overlaid(start: Seq<bool>, target: Seq<bool>, count: nat) -> Seq<bool> {
    Seq::new(start.len(), |i: int| if i < count { target[i] } else { start[i] })
}

/// Setting one more mode to its target.
proof fn switching_overlays(start: Seq<bool>, target: Seq<bool>, i: int)
    requires
        start.len() == MODE_COUNT,
        0 <= i < MODE_COUNT,
    ensures
        crate::modes::switched(
            overlaid(start, target, i as nat),
            seq![TRACKED[i].0],
            target[i],
        ) == overlaid(start, target, (i + 1) as nat),
{
    let mode = TRACKED[i].0;
    let switched = crate::modes::switched(
        overlaid(start, target, i as nat),
        seq![mode],
        target[i],
    );
    assert forall|j: int| 0 <= j < MODE_COUNT implies switched[j] == overlaid(
        start,
        target,
        (i + 1) as nat,
    )[j] by {
        if j == i {
            assert(seq![mode][0] == mode);
            assert(seq![mode].contains(mode));
        } else {
            tracked_modes_differ(i, j);
            assert(!seq![mode].contains(TRACKED[j].0));
        }
    }
    assert(switched == overlaid(start, target, (i + 1) as nat));
}

/// Scanning the control sequences for the first `count` changes of `modes` makes
/// them, or with `undo` takes them back.
proof fn scan_changes(tracker: Tracker, modes: Seq<bool>, count: nat, undo: bool)
    requires
        modes.len() == MODE_COUNT,
        count <= MODE_COUNT,
        tracker.modes == if undo { modes } else { crate::modes::default_modes() },
    ensures
        ({
            let target = if undo { crate::modes::default_modes() } else { modes };
            let settings = crate::modes::changes(modes, count);
            let after = tracker.scan(crate::modes::mode_sequences(settings, undo));
            &&& after.modes == overlaid(tracker.modes, target, count)
            &&& after.keypad == tracker.keypad
            &&& after.state is Ground || after.state == tracker.state
        }),
    decreases count,
{
    let target = if undo { crate::modes::default_modes() } else { modes };
    if count == 0 {
        assert(overlaid(tracker.modes, target, 0) == tracker.modes);
    } else {
        let i = count - 1;
        scan_changes(tracker, modes, i as nat, undo);
        let before = crate::modes::changes(modes, i as nat);
        let earlier = crate::modes::mode_sequences(before, undo);
        let reached = tracker.scan(earlier);
        if modes[i] != TRACKED[i].1 {
            let mode = TRACKED[i].0;
            let enabled = modes[i] != undo;
            let settings = crate::modes::changes(modes, count);
            assert(settings.drop_last() == before);
            scan_in_pieces(tracker, earlier, crate::modes::mode_sequence(mode, enabled));
            mode_sequence_switches(reached, mode, enabled);
            assert(enabled == target[i]);
            switching_overlays(tracker.modes, target, i);
        } else {
            assert(overlaid(tracker.modes, target, i as nat) == overlaid(
                tracker.modes,
                target,
                count,
            ));
        }
    }
}

/// Replaying the modes of a session brings a terminal in its default modes into
/// exactly those modes.
pub proof fn replay_restores(session: Tracker, terminal: Tracker)
    requires
        session.wf(),
        terminal.modes == crate::modes::default_modes(),
        !terminal.keypad,
    ensures
        terminal.scan(session.replay()).modes == session.modes,
        terminal.scan(session.replay()).keypad == session.keypad,
        terminal.state is Ground ==> terminal.scan(session.replay()).state is Ground,
{
    let settings = crate::modes::changes(session.modes, MODE_COUNT as nat);
    let sequences = crate::modes::mode_sequences(settings, false);
    scan_changes(terminal, session.modes, MODE_COUNT as nat, false);
    let reached = terminal.scan(sequences);
    assert(reached.modes == session.modes);
    if session.keypad {
        scan_in_pieces(terminal, sequences, seq![ESC, '=' as u8]);
        scan_two(reached, ESC, '=' as u8);
    } else {
        assert(session.replay() == sequences);
    }
}

/// Resetting a terminal that is in the modes of a session takes every one of them
/// back to its default, wherever in an escape sequence the output stood.
pub proof fn reset_restores_defaults(session: Tracker, terminal: Tracker)
    requires
        session.wf(),
        terminal.modes == session.modes,
        terminal.keypad == session.keypad,
    ensures
        terminal.scan(session.reset()).modes == crate::modes::default_modes(),
        !terminal.scan(session.reset()).keypad,
        terminal.scan(session.reset()).state is Ground,
{
    let settings = crate::modes::changes(session.modes, MODE_COUNT as nat);
    let sequences = crate::modes::mode_sequences(settings, true);
    let keypad = if session.keypad { seq![ESC, '>' as u8] } else { Seq::empty() };
    let attributes = seq![ESC, '[' as u8, '0' as u8, 'm' as u8];
    scan_changes(terminal, session.modes, MODE_COUNT as nat, true);
    let reached = terminal.scan(sequences);
    assert(reached.modes == crate::modes::default_modes());
    scan_in_pieces(terminal, sequences, keypad);
    let quiet = terminal.scan(sequences + keypad);
    if session.keypad {
        scan_two(reached, ESC, '>' as u8);
    } else {
        assert(reached.scan(keypad) == reached);
    }
    scan_in_pieces(terminal, sequences + keypad, attributes);
    assert(attributes == seq![ESC, '[' as u8] + seq!['0' as u8, 'm' as u8]);
    scan_in_pieces(quiet, seq![ESC, '[' as u8], seq!['0' as u8, 'm' as u8]);
    scan_two(quiet, ESC, '[' as u8);
    scan_two(quiet.scan(seq![ESC, '[' as u8]), '0' as u8, 'm' as u8);
}

proof fn mode_sequence_is_short(mode: u16, enabled: bool)
    ensures
        crate::modes::mode_sequence(mode, enabled).len() <= 9,
{
    reveal_with_fuel(crate::text::digits, 5);
}

proof fn sequences_are_short(modes: Seq<bool>, count: nat)
    ensures
        crate::modes::mode_sequences(crate::modes::changes(modes, count), false).len() <= 9 * count,
    decreases count,
{
    if count > 0 {
        let i = count - 1;
        sequences_are_short(modes, i as nat);
        let settings = crate::modes::changes(modes, count);
        if modes[i] != TRACKED[i].1 {
            assert(settings.drop_last() == crate::modes::changes(modes, i as nat));
            mode_sequence_is_short(settings.last().0, settings.last().1);
        }
    }
}

/// A replay is short, whatever the program has done.
pub proof fn replay_is_short(tracker: Tracker)
    ensures
        tracker.replay().len() <= 9 * MODE_COUNT + 2,
{
    sequences_are_short(tracker.modes, MODE_COUNT as nat);
}

/// Whether two trackers have the same modes and will read the same from any output that
/// follows: what was read of a control sequence counts only inside one.
pub open spec fn in_step(one: Tracker, other: Tracker) -> bool {
    &&& one.modes == other.modes
    &&& one.keypad == other.keypad
    &&& one.state == other.state
    &&& one.state is Csi ==> one == other
}

/// Trackers in step stay in step, whatever the output.
pub proof fn scan_keeps_in_step(one: Tracker, other: Tracker, data: Seq<u8>)
    requires
        in_step(one, other),
    ensures
        in_step(one.scan(data), other.scan(data)),
    decreases data.len(),
{
    if data.len() > 0 {
        scan_keeps_in_step(one, other, data.drop_last());
    }
}

/// A tracker that has seen no output is outside any escape sequence, with every followed
/// mode at its default and the keypad mode off; a full reset (escape `c`) leads back there
/// from anywhere.
pub proof fn full_reset_leads_back_to_the_start(tracker: Tracker)
    ensures
        ({
            let after = tracker.scan(seq![0x1bu8, 0x63u8]);
            &&& after.state is Ground
            &&& !after.keypad
            &&& after.modes.len() == 14
            &&& forall|i: int| 0 <= i < 14 ==> after.modes[i] == TRACKED[i].1
            &&& after.replay() == Seq::<u8>::empty()
        }),
        Tracker::initial() == tracker.scan(seq![0x1bu8, 0x63u8]),
{
    scan_two(tracker, 0x1b, 0x63);
    no_changes(Tracker::initial().modes, MODE_COUNT as nat);
}

/// Output outside any escape sequence changes nothing, until an escape character.
pub proof fn plain_output_changes_nothing(tracker: Tracker, data: Seq<u8>)
    requires
        tracker.state is Ground,
        !data.contains(0x1b),
    ensures
        tracker.scan(data) == tracker,
    decreases data.len(),
{
    if data.len() > 0 {
        assert(data.contains(data.last()));
        assert forall|b: u8| data.drop_last().contains(b) implies data.contains(b) by {
            let i = choose|i: int| 0 <= i < data.drop_last().len() && data.drop_last()[i] == b;
            assert(data[i] == b);
        }
        plain_output_changes_nothing(tracker, data.drop_last());
    }
}

/// An escape character begins an escape sequence, and cancel and substitute end one, from
/// anywhere; neither sets a mode.
pub proof fn sequences_begin_and_are_cancelled(tracker: Tracker, byte: u8)
    requires
        byte == 0x1b || byte == 0x18 || byte == 0x1a,
    ensures
        ({
            let after = tracker.scan(seq![byte]);
            &&& after.modes == tracker.modes
            &&& after.keypad == tracker.keypad
            &&& byte == 0x1b ==> after.state is Escape
            &&& byte != 0x1b ==> after.state is Ground
        }),
{
    scan_one(tracker, byte);
}

/// Of the escape sequences of one character, only the two for the keypad and the full reset
/// change a mode; the others change none, and all end there but those that begin something
/// longer.
pub proof fn only_three_escapes_change_modes(tracker: Tracker, byte: u8)
    ensures
        ({
            let after = tracker.scan(seq![0x1b, byte]);
            let character = byte as char;
            &&& character != 'c' ==> after.modes == tracker.modes
            &&& character == '=' ==> after.keypad
            &&& character == '>' ==> !after.keypad
            &&& character != '=' && character != '>' && character != 'c' ==> after.keypad
                == tracker.keypad
            &&& after.state == if byte == 0x1b {
                State::Escape
            } else if character == '[' {
                State::Csi
            } else if character == ']' || character == 'P' || character == 'X' || character == '^'
                || character == '_' {
                State::ControlString
            } else if 0x20 <= byte <= 0x2f {
                State::EscapeIntermediate
            } else {
                State::Ground
            }
        }),
{
    scan_two(tracker, 0x1b, byte);
}

/// An escape sequence with an intermediate character goes on to its final character, and
/// sets no mode.
pub proof fn longer_escapes_change_nothing(tracker: Tracker, byte: u8)
    requires
        tracker.state is EscapeIntermediate,
        byte != 0x1b,
    ensures
        ({
            let after = tracker.scan(seq![byte]);
            &&& after.modes == tracker.modes
            &&& after.keypad == tracker.keypad
            &&& after.state == if 0x30 <= byte <= 0x7e || byte == 0x18 || byte == 0x1a {
                State::Ground
            } else {
                State::EscapeIntermediate
            }
        }),
{
    scan_one(tracker, byte);
}

/// Nothing inside a control string sets a mode: it goes on until a bell, an escape
/// character, cancel or substitute.
pub proof fn control_strings_change_nothing(tracker: Tracker, data: Seq<u8>)
    requires
        tracker.state is ControlString,
        forall|i: int|
            0 <= i < data.len() ==> (#[trigger] data[i]) != 0x07 && data[i] != 0x1b && data[i]
                != 0x18 && data[i] != 0x1a,
    ensures
        tracker.scan(data) == tracker,
        tracker.scan(data.push(0x07)) == (Tracker { state: State::Ground, ..tracker }),
    decreases data.len(),
{
    if data.len() > 0 {
        let earlier = data.drop_last();
        assert forall|i: int| 0 <= i < earlier.len() implies (#[trigger] earlier[i]) != 0x07
            && earlier[i] != 0x1b && earlier[i] != 0x18 && earlier[i] != 0x1a by {
            assert(earlier[i] == data[i]);
        }
        control_strings_change_nothing(tracker, earlier);
        assert(data.last() == data[data.len() - 1]);
    }
    assert(data.push(0x07).drop_last() == data);
}

/// Whether a byte may stand in a control sequence before its final character.
pub open spec fn before_final(byte: u8) -> bool {
    !(0x40 <= byte <= 0x7e) && byte != 0x1b && byte != 0x18 && byte != 0x1a
}

/// The bytes that count in a control sequence: controls and what is no ASCII do not.
pub open spec fn counting(body: Seq<u8>) -> Seq<u8>
    decreases body.len(),
{
    if body.len() == 0 {
        body
    } else {
        let earlier = counting(body.drop_last());
        if 0x20 <= body.last() <= 0x7e {
            earlier.push(body.last())
        } else {
            earlier
        }
    }
}

/// Whether these bytes of a control sequence can set modes at all: they begin with `?`, and
/// digits and semicolons follow.
pub open spec fn private_numbers(body: Seq<u8>) -> bool {
    &&& body.len() > 0
    &&& body[0] as char == '?'
    &&& forall|i: int| 0 < i < body.len() ==> '0' <= (#[trigger] body[i]) as char <= '9'
        || body[i] as char == ';'
}

proof fn inside_control_sequence(tracker: Tracker, body: Seq<u8>)
    requires
        forall|i: int| 0 <= i < body.len() ==> before_final(#[trigger] body[i]),
    ensures
        ({
            let after = tracker.scan(seq![0x1b, 0x5b] + body);
            &&& after.state is Csi
            &&& after.modes == tracker.modes
            &&& after.keypad == tracker.keypad
            &&& counting(body).len() == 0 ==> after.leader is None && !after.parameter_seen
                && !after.ignore
            &&& after.leader == Some('?' as u8) && !after.ignore ==> private_numbers(counting(body))
            &&& counting(body).len() > 0 ==> after.leader is Some || after.parameter_seen
                || after.ignore
            &&& tracker.scan(seq![0x1b, 0x5b] + counting(body)) == after
        }),
    decreases body.len(),
{
    let head = seq![0x1b, 0x5b];
    scan_two(tracker, 0x1b, 0x5b);
    if body.len() == 0 {
        assert(head + body == head);
        assert(head + counting(body) == head);
    } else {
        let earlier = body.drop_last();
        assert forall|i: int| 0 <= i < earlier.len() implies before_final(#[trigger] earlier[i]) by {
            assert(earlier[i] == body[i]);
        }
        inside_control_sequence(tracker, earlier);
        let byte = body.last();
        assert(before_final(body[body.len() - 1]));
        assert((head + body).drop_last() == head + earlier);
        if 0x20 <= byte <= 0x7e {
            assert((head + counting(body)).drop_last() == head + counting(earlier));
            let before = tracker.scan(head + earlier);
            let after = tracker.scan(head + body);
            if after.leader == Some('?' as u8) && !after.ignore {
                if counting(earlier).len() > 0 {
                    assert(private_numbers(counting(earlier)));
                    assert forall|i: int| 0 < i < counting(body).len() implies '0' <= (
                    #[trigger] counting(body)[i]) as char <= '9' || counting(body)[i] as char
                        == ';' by {
                        if i < counting(earlier).len() {
                            assert(counting(body)[i] == counting(earlier)[i]);
                        }
                    }
                    assert(counting(body)[0] == counting(earlier)[0]);
                }
            }
        }
    }
}

/// A control sequence sets a mode only if it begins with `?`, goes on with numbers, and ends
/// with `h` or `l`; any other leaves all modes, and none touches the keypad mode. Controls
/// in it, and what is no ASCII, make no difference.
pub proof fn other_control_sequences_change_nothing(tracker: Tracker, body: Seq<u8>, last: u8)
    requires
        forall|i: int| 0 <= i < body.len() ==> before_final(#[trigger] body[i]),
        0x40 <= last <= 0x7e,
    ensures
        ({
            let after = tracker.scan(seq![0x1b, 0x5b] + body + seq![last]);
            &&& after.state is Ground
            &&& after.keypad == tracker.keypad
            &&& !private_numbers(counting(body)) || (last as char != 'h' && last as char != 'l')
                ==> after.modes == tracker.modes
            &&& after == tracker.scan(seq![0x1b, 0x5b] + counting(body) + seq![last])
        }),
{
    let head = seq![0x1b, 0x5b];
    inside_control_sequence(tracker, body);
    assert((head + body + seq![last]).drop_last() == head + body);
    assert((head + counting(body) + seq![last]).drop_last() == head + counting(body));
}

/// Whether a text is nothing but decimal digits.
pub open spec fn all_digits(text: Seq<u8>) -> bool {
    forall|i: int| 0 <= i < text.len() ==> '0' <= (#[trigger] text[i]) as char <= '9'
}

/// The number that decimal digits stand for.
pub open spec fn number(text: Seq<u8>) -> nat
    decreases text.len(),
{
    if text.len() == 0 {
        0
    } else {
        (number(text.drop_last()) * 10 + (text.last() - 0x30)) as nat
    }
}

/// Texts with a semicolon between each two.
pub open spec fn separated(texts: Seq<Seq<u8>>) -> Seq<u8>
    decreases texts.len(),
{
    if texts.len() == 0 {
        Seq::empty()
    } else if texts.len() == 1 {
        texts[0]
    } else {
        separated(texts.drop_last()) + seq![0x3b] + texts.last()
    }
}

/// How many of the texts are not empty.
pub open spec fn numbers_in(texts: Seq<Seq<u8>>) -> nat
    decreases texts.len(),
{
    if texts.len() == 0 {
        0
    } else {
        numbers_in(texts.drop_last()) + if texts.last().len() > 0 {
            1nat
        } else {
            0nat
        }
    }
}

/// Whether one of the texts is the number of a mode.
pub open spec fn names_mode(texts: Seq<Seq<u8>>, mode: u16) -> bool {
    exists|k: int| 0 <= k < texts.len() && (#[trigger] texts[k]).len() > 0 && number(texts[k]) == mode
}

spec fn held(text: Seq<u8>) -> u16 {
    if number(text) > u16::MAX {
        u16::MAX
    } else {
        number(text) as u16
    }
}

spec fn all_held(texts: Seq<Seq<u8>>) -> Seq<u16>
    decreases texts.len(),
{
    if texts.len() == 0 {
        Seq::empty()
    } else if texts.last().len() > 0 {
        all_held(texts.drop_last()).push(held(texts.last()))
    } else {
        all_held(texts.drop_last())
    }
}

proof fn all_held_names(texts: Seq<Seq<u8>>, mode: u16)
    requires
        mode < u16::MAX,
    ensures
        all_held(texts).contains(mode) <==> names_mode(texts, mode),
        all_held(texts).len() == numbers_in(texts),
    decreases texts.len(),
{
    if texts.len() > 0 {
        let earlier = texts.drop_last();
        all_held_names(earlier, mode);
        let all = all_held(texts);
        let before = all_held(earlier);
        if names_mode(texts, mode) {
            let k = choose|k: int|
                0 <= k < texts.len() && (#[trigger] texts[k]).len() > 0 && number(texts[k]) == mode;
            if k < earlier.len() {
                assert(earlier[k] == texts[k]);
                assert(before.contains(mode));
                let i = choose|i: int| 0 <= i < before.len() && before[i] == mode;
                assert(all[i] == mode);
            } else {
                assert(all[all.len() - 1] == mode);
            }
        }
        if all.contains(mode) {
            let i = choose|i: int| 0 <= i < all.len() && all[i] == mode;
            if i < before.len() {
                assert(before[i] == mode);
                let k = choose|k: int|
                    0 <= k < earlier.len() && (#[trigger] earlier[k]).len() > 0 && number(
                        earlier[k],
                    ) == mode;
                assert(texts[k] == earlier[k]);
            } else {
                assert(texts[texts.len() - 1].len() > 0);
            }
        }
    }
}

proof fn scan_number(tracker: Tracker, text: Seq<u8>)
    requires
        tracker.state is Csi,
        tracker.current is None,
        all_digits(text),
    ensures
        tracker.scan(text) == if text.len() == 0 {
            tracker
        } else {
            Tracker { parameter_seen: true, current: Some(held(text)), ..tracker }
        },
    decreases text.len(),
{
    if text.len() > 0 {
        let earlier = text.drop_last();
        assert forall|i: int| 0 <= i < earlier.len() implies '0' <= (
        #[trigger] earlier[i]) as char <= '9' by {
            assert(earlier[i] == text[i]);
        }
        scan_number(tracker, earlier);
        assert('0' <= text[text.len() - 1] as char <= '9');
        if earlier.len() == 0 {
            assert(number(earlier) == 0);
        }
    }
}

proof fn fewer_before(texts: Seq<Seq<u8>>)
    ensures
        texts.len() > 0 ==> numbers_in(texts.drop_last()) <= numbers_in(texts),
{
}

/// Reading numbers inside a control sequence that has just begun.
proof fn scan_numbers(tracker: Tracker, texts: Seq<Seq<u8>>)
    requires
        tracker.state is Csi,
        tracker.current is None,
        tracker.params.len() == 0,
        !tracker.ignore,
        texts.len() > 0,
        forall|k: int| 0 <= k < texts.len() ==> all_digits(#[trigger] texts[k]),
    ensures
        ({
            let after = tracker.scan(separated(texts));
            let earlier = texts.drop_last();
            let room = earlier.len() == 0 || numbers_in(earlier.drop_last()) < 16;
            &&& after.state is Csi
            &&& after.leader == tracker.leader
            &&& after.modes == tracker.modes
            &&& after.keypad == tracker.keypad
            &&& room ==> !after.ignore && after.params == all_held(earlier) && after.current
                == if texts.last().len() > 0 {
                Some(held(texts.last()))
            } else {
                None
            }
            &&& !room ==> after.ignore && after.params.len() >= 16
        }),
    decreases texts.len(),
{
    let earlier = texts.drop_last();
    assert(all_digits(texts[texts.len() - 1]));
    if texts.len() == 1 {
        assert(separated(texts) == texts[0]);
        scan_number(tracker, texts[0]);
        assert(tracker.params == Seq::<u16>::empty());
        assert(all_held(earlier) == Seq::<u16>::empty());
    } else {
        assert forall|k: int| 0 <= k < earlier.len() implies all_digits(#[trigger] earlier[k]) by {
            assert(earlier[k] == texts[k]);
        }
        scan_numbers(tracker, earlier);
        all_held_names(earlier, 0);
        all_held_names(earlier.drop_last(), 0);
        fewer_before(earlier.drop_last());
        let before = tracker.scan(separated(earlier));
        scan_in_pieces(tracker, separated(earlier), seq![0x3b]);
        scan_one(before, 0x3b);
        let parted = tracker.scan(separated(earlier) + seq![0x3b]);
        assert(parted == before.csi(0x3b));
        scan_in_pieces(tracker, separated(earlier) + seq![0x3b], texts.last());
        if numbers_in(earlier.drop_last()) < 16 {
            assert(parted.current is None);
            scan_number(parted, texts.last());
        } else {
            ignored_numbers(parted, texts.last());
        }
    }
}

proof fn ignored_numbers(tracker: Tracker, text: Seq<u8>)
    requires
        tracker.state is Csi,
        all_digits(text),
    ensures
        ({
            let after = tracker.scan(text);
            &&& after.state is Csi
            &&& after.leader == tracker.leader
            &&& after.modes == tracker.modes
            &&& after.keypad == tracker.keypad
            &&& after.ignore == tracker.ignore
            &&& after.params == tracker.params
        }),
    decreases text.len(),
{
    if text.len() > 0 {
        let earlier = text.drop_last();
        assert forall|i: int| 0 <= i < earlier.len() implies '0' <= (
        #[trigger] earlier[i]) as char <= '9' by {
            assert(earlier[i] == text[i]);
        }
        ignored_numbers(tracker, earlier);
        assert('0' <= text[text.len() - 1] as char <= '9');
    }
}

/// A control sequence for private modes sets every followed mode whose number it gives, and
/// no other, to on (`h`) or off (`l`). Empty numbers are skipped; with sixteen numbers before
/// the last one there are too many, and nothing is set.
pub proof fn private_modes_are_set(tracker: Tracker, texts: Seq<Seq<u8>>, on: bool)
    requires
        tracker.modes.len() == 14,
        texts.len() > 0,
        forall|k: int| 0 <= k < texts.len() ==> all_digits(#[trigger] texts[k]),
    ensures
        ({
            let last = if on {
                0x68u8
            } else {
                0x6cu8
            };
            let after = tracker.scan(
                seq![0x1b, 0x5b, 0x3f] + separated(texts) + seq![last],
            );
            &&& after.state is Ground
            &&& after.keypad == tracker.keypad
            &&& after.modes.len() == 14
            &&& forall|i: int|
                0 <= i < 14 ==> (#[trigger] after.modes[i]) == if numbers_in(texts.drop_last()) < 16
                    && names_mode(texts, TRACKED[i].0) {
                    on
                } else {
                    tracker.modes[i]
                }
        }),
{
    let last = if on {
        0x68u8
    } else {
        0x6cu8
    };
    let head = seq![0x1bu8, 0x5b, 0x3f];
    let body = separated(texts);
    let opened = tracker.scan(head);
    assert(head.drop_last() == seq![0x1bu8, 0x5b]);
    scan_two(tracker, 0x1b, 0x5b);
    scan_in_pieces(tracker, head, body);
    scan_numbers(opened, texts);
    let read = tracker.scan(head + body);
    scan_in_pieces(tracker, head + body, seq![last]);
    scan_one(read, last);
    let after = tracker.scan(head + body + seq![last]);
    fewer_before(texts.drop_last());
    let earlier = texts.drop_last();
    all_held_names(earlier, 0);
    assert forall|i: int| 0 <= i < 14 implies (#[trigger] after.modes[i]) == if numbers_in(earlier)
        < 16 && names_mode(texts, TRACKED[i].0) {
        on
    } else {
        tracker.modes[i]
    } by {
        all_held_names(texts, TRACKED[i].0);
        tracked_below_largest(i);
        if numbers_in(earlier) < 16 {
            assert(read.push_param().params == all_held(texts));
        }
    }
}

proof fn tracked_below_largest(i: int)
    requires
        0 <= i < MODE_COUNT,
    ensures
        TRACKED[i].0 < u16::MAX,
{
}

/// The control sequence that a replay holds for one mode, and nothing where the mode is at
/// its default; with `undo`, the one that takes it back.
pub open spec fn change_of(modes: Seq<bool>, i: int, undo: bool) -> Seq<u8> {
    if modes[i] == TRACKED[i].1 {
        Seq::empty()
    } else {
        seq![0x1bu8, 0x5b, 0x3f] + crate::text::digits(TRACKED[i].0 as nat) + seq![
            if modes[i] != undo {
                0x68u8
            } else {
                0x6cu8
            },
        ]
    }
}

proof fn sequences_are_the_changes(modes: Seq<bool>, count: nat, undo: bool)
    ensures
        crate::modes::mode_sequences(crate::modes::changes(modes, count), undo)
            == crate::protocol_laws::joined(
            Seq::new(count, |i: int| change_of(modes, i, undo)),
        ),
    decreases count,
{
    let parts = Seq::new(count, |i: int| change_of(modes, i, undo));
    if count == 0 {
        assert(parts == Seq::<Seq<u8>>::empty());
    } else {
        let i = count - 1;
        let before = Seq::new(i as nat, |i: int| change_of(modes, i, undo));
        sequences_are_the_changes(modes, i as nat, undo);
        assert(parts == before + seq![change_of(modes, i, undo)]);
        crate::protocol_laws::joined_in_parts(before, seq![change_of(modes, i, undo)]);
        let one = seq![change_of(modes, i, undo)];
        assert(one.drop_first() == Seq::<Seq<u8>>::empty());
        assert(crate::protocol_laws::joined(one.drop_first()) == Seq::<u8>::empty());
        assert(one[0] + Seq::<u8>::empty() == one[0]);
        let settings = crate::modes::changes(modes, count);
        if modes[i] != TRACKED[i].1 {
            assert(settings.drop_last() == crate::modes::changes(modes, i as nat));
        } else {
            assert(crate::protocol_laws::joined(before) + Seq::<u8>::empty()
                == crate::protocol_laws::joined(before));
        }
    }
}

/// A replay switches each followed mode that is not at its default, in their order, and then
/// the keypad mode if it is on; it holds nothing else. A reset takes each of these back, and
/// then drops the character attributes.
pub proof fn replay_and_reset_hold_the_changes(tracker: Tracker)
    ensures
        tracker.replay() == crate::protocol_laws::joined(
            Seq::new(14, |i: int| change_of(tracker.modes, i, false)),
        ) + if tracker.keypad {
            seq![0x1bu8, 0x3d]
        } else {
            Seq::empty()
        },
        tracker.reset() == crate::protocol_laws::joined(
            Seq::new(14, |i: int| change_of(tracker.modes, i, true)),
        ) + if tracker.keypad {
            seq![0x1bu8, 0x3e, 0x1b, 0x5b, 0x30, 0x6d]
        } else {
            seq![0x1bu8, 0x5b, 0x30, 0x6d]
        },
{
    sequences_are_the_changes(tracker.modes, 14, false);
    sequences_are_the_changes(tracker.modes, 14, true);
    let changes = crate::protocol_laws::joined(
        Seq::new(14, |i: int| change_of(tracker.modes, i, true)),
    );
    assert(tracker.reset() == changes + if tracker.keypad {
        seq![0x1bu8, 0x3e, 0x1b, 0x5b, 0x30, 0x6d]
    } else {
        seq![0x1bu8, 0x5b, 0x30, 0x6d]
    });
}

/// The modes that are followed are those of the alternate screens, the cursor keys, wrapping,
/// the cursor, the mouse, focus and bracketed paste, and no other; of these wrapping and the
/// cursor are on by default, and the others off.
pub proof fn the_followed_modes(mode: u16, i: int)
    ensures
        (exists|j: int| 0 <= j < MODE_COUNT && (#[trigger] TRACKED[j]).0 == mode) <==> seq![
            1049u16,
            1047,
            47,
            1,
            7,
            25,
            1000,
            1002,
            1003,
            1004,
            1005,
            1006,
            1015,
            2004,
        ].contains(mode),
        0 <= i < MODE_COUNT ==> (TRACKED[i].1 <==> TRACKED[i].0 == 7 || TRACKED[i].0 == 25),
{
    let modes = seq![
        1049u16,
        1047,
        47,
        1,
        7,
        25,
        1000,
        1002,
        1003,
        1004,
        1005,
        1006,
        1015,
        2004,
    ];
    assert forall|j: int| 0 <= j < MODE_COUNT implies (#[trigger] TRACKED[j]).0 == modes[j] by {}
    if modes.contains(mode) {
        let j = choose|j: int| 0 <= j < modes.len() && modes[j] == mode;
        assert(TRACKED[j].0 == mode);
    }
    if exists|j: int| 0 <= j < MODE_COUNT && (#[trigger] TRACKED[j]).0 == mode {
        let j = choose|j: int| 0 <= j < MODE_COUNT && (#[trigger] TRACKED[j]).0 == mode;
        assert(modes[j] == mode);
    }
}

} // verus!
