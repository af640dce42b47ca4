//! Terminal modes that the program in a session has switched on or off.
//!
//! A [`ModeTracker`] reads the program's output and remembers the DEC private
//! modes in [`TRACKED`] and the keypad mode. [`ModeTracker::replay`] puts a fresh
//! terminal into the same modes, and [`ModeTracker::reset`] takes a terminal in
//! those modes back to the defaults.

use vstd::prelude::*;

use crate::text::push_digits;

verus! {

pub const ESC: u8 = 0x1b;

/// How many parameters one control sequence may carry before it is ignored.
pub const MAX_PARAMS: usize = 16;

pub const MODE_COUNT: usize = 14;

/// The modes that are followed, in the order in which they are replayed, each
/// with its default.
pub const TRACKED: [(u16, bool); MODE_COUNT] = [
    (1049, false),
    (1047, false),
    (47, false),
    (1, false),
    (7, true),
    (25, true),
    (1000, false),
    (1002, false),
    (1003, false),
    (1004, false),
    (1005, false),
    (1006, false),
    (1015, false),
    (2004, false),
];

/// Where in an escape sequence the output stands.
#[derive(Clone, Copy, PartialEq, Eq, Debug, Structural)]
pub enum State {
    Ground,
    Escape,
    EscapeIntermediate,
    Csi,
    ControlString,
}

/// What a [`ModeTracker`] holds.
#[verifier::ext_equal]
pub struct Tracker {
    pub state: State,
    pub leader: Option<u8>,
    pub params: Seq<u16>,
    pub current: Option<u16>,
    pub ignore: bool,
    pub parameter_seen: bool,
    pub modes: Seq<bool>,
    pub keypad: bool,
}

/// The default of every followed mode.
pub open spec fn default_modes() -> Seq<bool> {
    Seq::new(MODE_COUNT as nat, |i: int| TRACKED[i].1)
}

impl Tracker {
    /// A tracker that has seen no output.
    pub open spec fn initial() -> Tracker {
        Tracker {
            state: State::Ground,
            leader: None,
            params: Seq::empty(),
            current: None,
            ignore: false,
            parameter_seen: false,
            modes: default_modes(),
            keypad: false,
        }
    }

    pub open spec fn wf(self) -> bool {
        &&& self.modes.len() == MODE_COUNT
        &&& self.params.len() <= MAX_PARAMS
    }

    /// The tracker after one more byte of output.
    pub open spec fn step(self, byte: u8) -> Tracker {
        if byte == ESC {
            Tracker { state: State::Escape, ..self }
        } else if byte == 0x18 || byte == 0x1a {
            Tracker { state: State::Ground, ..self }
        } else {
            match self.state {
                State::Ground => self,
                State::Escape => self.escape(byte),
                State::EscapeIntermediate => if 0x30 <= byte <= 0x7e {
                    Tracker { state: State::Ground, ..self }
                } else {
                    self
                },
                State::Csi => self.csi(byte),
                State::ControlString => if byte == 0x07 {
                    Tracker { state: State::Ground, ..self }
                } else {
                    self
                },
            }
        }
    }

    /// The tracker after the byte behind an escape character.
    pub open spec fn escape(self, byte: u8) -> Tracker {
        if byte == '[' as u8 {
            Tracker {
                state: State::Csi,
                leader: None,
                params: Seq::empty(),
                current: None,
                ignore: false,
                parameter_seen: false,
                ..self
            }
        } else if byte == ']' as u8 || byte == 'P' as u8 || byte == 'X' as u8 || byte == '^' as u8 || byte == '_' as u8 {
            Tracker { state: State::ControlString, ..self }
        } else if byte == '=' as u8 {
            Tracker { state: State::Ground, keypad: true, ..self }
        } else if byte == '>' as u8 {
            Tracker { state: State::Ground, keypad: false, ..self }
        } else if byte == 'c' as u8 {
            Tracker::initial()
        } else if 0x20 <= byte <= 0x2f {
            Tracker { state: State::EscapeIntermediate, ..self }
        } else {
            Tracker { state: State::Ground, ..self }
        }
    }

    /// The tracker after a byte inside a control sequence.
    pub open spec fn csi(self, byte: u8) -> Tracker {
        if '0' as u8 <= byte <= '9' as u8 {
            Tracker {
                parameter_seen: true,
                current: Some(append_digit(self.current, (byte - '0' as u8) as u16)),
                ..self
            }
        } else if byte == ';' as u8 {
            Tracker { parameter_seen: true, ..self }.push_param()
        } else if 0x3c <= byte <= 0x3f {
            if self.parameter_seen || self.leader is Some {
                Tracker { ignore: true, ..self }
            } else {
                Tracker { leader: Some(byte), ..self }
            }
        } else if byte == ':' as u8 || 0x20 <= byte <= 0x2f {
            Tracker { ignore: true, ..self }
        } else if 0x40 <= byte <= 0x7e {
            let ended = Tracker { state: State::Ground, ..self }.push_param();
            if !ended.ignore && ended.leader == Some('?' as u8) && (byte == 'h' as u8 || byte == 'l' as u8) {
                Tracker { modes: switched(ended.modes, ended.params, byte == 'h' as u8), ..ended }
            } else {
                ended
            }
        } else {
            self
        }
    }

    /// The tracker once the parameter that was being read is complete.
    pub open spec fn push_param(self) -> Tracker {
        if self.params.len() >= MAX_PARAMS {
            Tracker { ignore: true, ..self }
        } else if self.current is Some {
            Tracker { params: self.params.push(self.current->0), current: None, ..self }
        } else {
            self
        }
    }

    /// The tracker after all of `data`.
    pub open spec fn scan(self, data: Seq<u8>) -> Tracker
        decreases data.len(),
    {
        if data.len() == 0 {
            self
        } else {
            self.scan(data.drop_last()).step(data.last())
        }
    }
}

/// A parameter after one more decimal digit, held at the largest `u16`.
pub open spec fn append_digit(current: Option<u16>, digit: u16) -> u16 {
    let value = (if current is Some { current->0 as int } else { 0 }) * 10 + digit;
    if value > u16::MAX { u16::MAX } else { value as u16 }
}

/// The modes once each one that is named in `params` is set to `enabled`.
pub open spec fn switched(modes: Seq<bool>, params: Seq<u16>, enabled: bool) -> Seq<bool> {
    Seq::new(
        modes.len(),
        |i: int| if params.contains(TRACKED[i].0) { enabled } else { modes[i] },
    )
}

/// The first `count` followed modes that differ from their default, each with its
/// present setting.
pub open spec fn changes(modes: Seq<bool>, count: nat) -> Seq<(u16, bool)>
    decreases count,
{
    if count == 0 {
        Seq::empty()
    } else {
        let i = count - 1;
        let before = changes(modes, i as nat);
        if modes[i] != TRACKED[i].1 {
            before.push((TRACKED[i].0, modes[i]))
        } else {
            before
        }
    }
}

/// The control sequence that switches one mode.
pub open spec fn mode_sequence(mode: u16, enabled: bool) -> Seq<u8> {
    seq![ESC, '[' as u8, '?' as u8] + crate::text::digits(mode as nat) + seq![
        if enabled { 'h' as u8 } else { 'l' as u8 },
    ]
}

/// The control sequences that make all of `settings`, one after the other; with
/// `undo`, that make the opposite of each.
pub open spec fn mode_sequences(settings: Seq<(u16, bool)>, undo: bool) -> Seq<u8>
    decreases settings.len(),
{
    if settings.len() == 0 {
        Seq::empty()
    } else {
        mode_sequences(settings.drop_last(), undo) + mode_sequence(
            settings.last().0,
            settings.last().1 != undo,
        )
    }
}

impl Tracker {
    /// What puts a terminal in its default modes into the modes of this tracker.
    pub open spec fn replay(self) -> Seq<u8> {
        mode_sequences(changes(self.modes, MODE_COUNT as nat), false) + if self.keypad {
            seq![ESC, '=' as u8]
        } else {
            Seq::empty()
        }
    }

    /// What takes a terminal in the modes of this tracker back to the defaults.
    pub open spec fn reset(self) -> Seq<u8> {
        mode_sequences(changes(self.modes, MODE_COUNT as nat), true) + (if self.keypad {
            seq![ESC, '>' as u8]
        } else {
            Seq::empty()
        }) + seq![ESC, '[' as u8, '0' as u8, 'm' as u8]
    }
}

#[derive(Debug)]
pub struct ModeTracker {
    state: State,
    leader: Option<u8>,
    params: Vec<u16>,
    current: Option<u16>,
    ignore: bool,
    parameter_seen: bool,
    modes: [bool; MODE_COUNT],
    keypad: bool,
}

impl View for ModeTracker {
    type V = Tracker;

    closed spec fn view(&self) -> Tracker {
        Tracker {
            state: self.state,
            leader: self.leader,
            params: self.params@,
            current: self.current,
            ignore: self.ignore,
            parameter_seen: self.parameter_seen,
            modes: self.modes@,
            keypad: self.keypad,
        }
    }
}

impl Default for ModeTracker {
    fn default() -> (tracker: Self)
        ensures
            tracker@ == Tracker::initial(),
    {
        let mut modes = [false; MODE_COUNT];
        let mut i: usize = 0;
        while i < MODE_COUNT
            invariant
                i <= MODE_COUNT,
                forall|j: int| 0 <= j < i ==> modes@[j] == TRACKED[j].1,
            decreases MODE_COUNT - i,
        {
            modes[i] = TRACKED[i].1;
            i += 1;
        }
        ModeTracker {
            state: State::Ground,
            leader: None,
            params: Vec::new(),
            current: None,
            ignore: false,
            parameter_seen: false,
            modes,
            keypad: false,
        }
    }
}

impl ModeTracker {
    /// Reads a piece of output.
    pub fn scan(&mut self, data: &[u8])
        ensures
            final(self)@ == old(self)@.scan(data@),
    {
        let mut i: usize = 0;
        while i < data.len()
            invariant
                i <= data.len(),
                self@ == old(self)@.scan(data@.take(i as int)),
            decreases data.len() - i,
        {
            self.step(data[i]);
            i += 1;
            assert(data@.take(i as int).drop_last() == data@.take(i - 1));
        }
        assert(data@.take(i as int) == data@);
    }

    fn step(&mut self, byte: u8)
        ensures
            final(self)@ == old(self)@.step(byte),
    {
        if byte == ESC {
            self.state = State::Escape;
            return;
        }
        if byte == 0x18 || byte == 0x1a {
            self.state = State::Ground;
            return;
        }
        match self.state {
            State::Ground => {},
            State::Escape => self.escape(byte),
            State::EscapeIntermediate => {
                if 0x30 <= byte && byte <= 0x7e {
                    self.state = State::Ground;
                }
            },
            State::Csi => self.csi(byte),
            State::ControlString => {
                if byte == 0x07 {
                    self.state = State::Ground;
                }
            },
        }
    }

    fn escape(&mut self, byte: u8)
        ensures
            final(self)@ == old(self)@.escape(byte),
    {
        self.state = State::Ground;
        match byte as char {
            '[' => {
                self.state = State::Csi;
                self.leader = None;
                self.params.clear();
                self.current = None;
                self.ignore = false;
                self.parameter_seen = false;
            },
            ']' | 'P' | 'X' | '^' | '_' => self.state = State::ControlString,
            '=' => self.keypad = true,
            '>' => self.keypad = false,
            'c' => *self = ModeTracker::default(),
            ' '..='/' => self.state = State::EscapeIntermediate,
            _ => {},
        }
    }

    fn csi(&mut self, byte: u8)
        ensures
            final(self)@ == old(self)@.csi(byte),
    {
        match byte as char {
            '0'..='9' => {
                self.parameter_seen = true;
                let value: u32 = match self.current {
                    Some(value) => value as u32,
                    None => 0,
                };
                let next: u32 = value * 10 + (byte - '0' as u8) as u32;
                self.current = Some(if next > 0xffff { 0xffff } else { next as u16 });
            },
            ';' => {
                self.parameter_seen = true;
                self.push_param();
            },
            ':' => self.ignore = true,
            '<'..='?' => {
                if self.parameter_seen || self.leader.is_some() {
                    self.ignore = true;
                } else {
                    self.leader = Some(byte);
                }
            },
            ' '..='/' => self.ignore = true,
            '@'..='~' => {
                self.state = State::Ground;
                self.push_param();
                if !self.ignore && self.leader == Some('?' as u8) {
                    match byte as char {
                        'h' => self.apply(true),
                        'l' => self.apply(false),
                        _ => {},
                    }
                }
            },
            _ => {},
        }
    }

    fn push_param(&mut self)
        ensures
            final(self)@ == old(self)@.push_param(),
    {
        if self.params.len() >= MAX_PARAMS {
            self.ignore = true;
        } else if let Some(value) = self.current.take() {
            self.params.push(value);
        }
    }

    fn apply(&mut self, enabled: bool)
        ensures
            final(self)@ == (Tracker {
                modes: switched(old(self)@.modes, old(self)@.params, enabled),
                ..old(self)@
            }),
    {
        let mut i: usize = 0;
        while i < MODE_COUNT
            invariant
                i <= MODE_COUNT,
                self@ == (Tracker { modes: self@.modes, ..old(self)@ }),
                forall|j: int| 0 <= j < i ==> self@.modes[j] == switched(
                    old(self)@.modes,
                    old(self)@.params,
                    enabled,
                )[j],
                forall|j: int| i <= j < MODE_COUNT ==> self@.modes[j] == old(self)@.modes[j],
            decreases MODE_COUNT - i,
        {
            let mode: u16 = TRACKED[i].0;
            if self.names(mode) {
                self.modes[i] = enabled;
            }
            i += 1;
        }
    }

    /// Whether `mode` is among the parameters read.
    fn names(&self, mode: u16) -> (named: bool)
        ensures
            named == self@.params.contains(mode),
    {
        let mut i: usize = 0;
        while i < self.params.len()
            invariant
                i <= self.params.len(),
                forall|j: int| 0 <= j < i ==> self.params@[j] != mode,
            decreases self.params.len() - i,
        {
            if self.params[i] == mode {
                return true;
            }
            i += 1;
        }
        false
    }

    /// The modes that differ from their default, each with its present setting.
    fn differing(&self) -> (settings: Vec<(u16, bool)>)
        ensures
            settings@ == changes(self@.modes, MODE_COUNT as nat),
    {
        let mut settings: Vec<(u16, bool)> = Vec::new();
        let mut i: usize = 0;
        while i < MODE_COUNT
            invariant
                i <= MODE_COUNT,
                settings@ == changes(self@.modes, i as nat),
            decreases MODE_COUNT - i,
        {
            let current: bool = self.modes[i];
            if current != TRACKED[i].1 {
                settings.push((TRACKED[i].0, current));
            }
            i += 1;
        }
        settings
    }

    /// What puts a terminal in its default modes into the modes followed here.
    pub fn replay(&self) -> (out: Vec<u8>)
        ensures
            out@ == self@.replay(),
    {
        let mut out: Vec<u8> = Vec::new();
        push_modes(&mut out, &self.differing(), false);
        if self.keypad {
            out.push(ESC);
            out.push('=' as u8);
        }
        out
    }

    /// What takes a terminal in the modes followed here back to the defaults.
    pub fn reset(&self) -> (out: Vec<u8>)
        ensures
            out@ == self@.reset(),
    {
        let mut out: Vec<u8> = Vec::new();
        push_modes(&mut out, &self.differing(), true);
        if self.keypad {
            out.push(ESC);
            out.push('>' as u8);
        }
        out.push(ESC);
        out.push('[' as u8);
        out.push('0' as u8);
        out.push('m' as u8);
        out
    }
}

fn push_modes(out: &mut Vec<u8>, settings: &Vec<(u16, bool)>, undo: bool)
    ensures
        final(out)@ == old(out)@ + mode_sequences(settings@, undo),
{
    let mut i: usize = 0;
    while i < settings.len()
        invariant
            i <= settings.len(),
            out@ == old(out)@ + mode_sequences(settings@.take(i as int), undo),
        decreases settings.len() - i,
    {
        let (mode, enabled) = settings[i];
        set_mode(out, mode, enabled != undo);
        i += 1;
        assert(settings@.take(i as int).drop_last() == settings@.take(i - 1));
    }
    assert(settings@.take(i as int) == settings@);
}

/// Appends the control sequence that switches one mode.
fn set_mode(out: &mut Vec<u8>, mode: u16, enabled: bool)
    ensures
        final(out)@ == old(out)@ + mode_sequence(mode, enabled),
{
    out.push(ESC);
    out.push('[' as u8);
    out.push('?' as u8);
    push_digits(out, mode as u32);
    out.push(if enabled { 'h' as u8 } else { 'l' as u8 });
}

} // verus!
