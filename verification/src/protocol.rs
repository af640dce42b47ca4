//! The messages between a session and the terminals attached to it.
//!
//! A message travels as a frame: one byte that names its kind, the length of its
//! payload as four bytes with the most significant first, and the payload.

use vstd::prelude::*;
use vstd::slice::{slice_subrange, slice_to_vec};

use crate::text::{lossy_text, push_bytes, push_decimal};

verus! {

pub const VERSION: u8 = 1;

/// The longest payload that is read.
pub const MAX_PAYLOAD: usize = 65536;

pub const HEADER: usize = 5;

pub const ATTACH: u8 = 1;

pub const INPUT: u8 = 2;

pub const RESIZE: u8 = 3;

pub const DISCONNECT: u8 = 4;

pub const OUTPUT: u8 = 10;

pub const EXIT: u8 = 11;

pub const DETACHED: u8 = 12;

pub const ERROR: u8 = 13;

#[derive(Debug, PartialEq, Eq, Clone)]
pub enum Message {
    Attach { version: u8, rows: u16, cols: u16 },
    Input(Vec<u8>),
    Resize { rows: u16, cols: u16 },
    Disconnect { version: u8 },
    Output(Vec<u8>),
    Exit(i32),
    Detached,
    Error(String),
}

/// What a [`Message`] says.
#[verifier::ext_equal]
pub enum Content {
    Attach { version: u8, rows: u16, cols: u16 },
    Input(Seq<u8>),
    Resize { rows: u16, cols: u16 },
    Disconnect { version: u8 },
    Output(Seq<u8>),
    Exit(i32),
    Detached,
    Error(Seq<char>),
}

impl View for Message {
    type V = Content;

    open spec fn view(&self) -> Content {
        match *self {
            Message::Attach { version, rows, cols } => Content::Attach { version, rows, cols },
            Message::Input(data) => Content::Input(data@),
            Message::Resize { rows, cols } => Content::Resize { rows, cols },
            Message::Disconnect { version } => Content::Disconnect { version },
            Message::Output(data) => Content::Output(data@),
            Message::Exit(code) => Content::Exit(code),
            Message::Detached => Content::Detached,
            Message::Error(text) => Content::Error(text@),
        }
    }
}

/// The two bytes of `n`, the most significant first.
pub open spec fn be16(n: u16) -> Seq<u8> {
    seq![(n / 256) as u8, (n % 256) as u8]
}

/// The four lowest bytes of `n`, the most significant first.
pub open spec fn be32(n: nat) -> Seq<u8> {
    seq![
        ((n / 0x100_0000) % 256) as u8,
        ((n / 0x1_0000) % 256) as u8,
        ((n / 0x100) % 256) as u8,
        (n % 256) as u8,
    ]
}

/// The number that two bytes stand for, the most significant first.
pub open spec fn of_be16(bytes: Seq<u8>) -> nat {
    (bytes[0] * 0x100 + bytes[1]) as nat
}

/// The number that four bytes stand for, the most significant first.
pub open spec fn of_be32(bytes: Seq<u8>) -> nat {
    (bytes[0] * 0x100_0000 + bytes[1] * 0x1_0000 + bytes[2] * 0x100 + bytes[3]) as nat
}

/// `code` as the unsigned number with the same 32 bits.
pub open spec fn bits_of(code: i32) -> nat {
    (if code < 0 { code + 0x1_0000_0000 } else { code as int }) as nat
}

/// The number whose 32 bits are those of `bits`.
pub open spec fn of_bits(bits: nat) -> i32 {
    (if bits >= 0x8000_0000 { bits - 0x1_0000_0000 } else { bits as int }) as i32
}

impl Content {
    pub open spec fn kind(self) -> u8 {
        match self {
            Content::Attach { .. } => ATTACH,
            Content::Input(_) => INPUT,
            Content::Resize { .. } => RESIZE,
            Content::Disconnect { .. } => DISCONNECT,
            Content::Output(_) => OUTPUT,
            Content::Exit(_) => EXIT,
            Content::Detached => DETACHED,
            Content::Error(_) => ERROR,
        }
    }

    pub open spec fn payload(self) -> Seq<u8> {
        match self {
            Content::Attach { version, rows, cols } => seq![version] + be16(rows) + be16(cols),
            Content::Input(data) => data,
            Content::Resize { rows, cols } => be16(rows) + be16(cols),
            Content::Disconnect { version } => seq![version],
            Content::Output(data) => data,
            Content::Exit(code) => be32(bits_of(code)),
            Content::Detached => Seq::empty(),
            Content::Error(text) => vstd::utf8::encode_utf8(text),
        }
    }

    /// The frame that carries the message.
    pub open spec fn frame(self) -> Seq<u8> {
        seq![self.kind()] + be32(self.payload().len()) + self.payload()
    }

    /// The message of a kind with a payload, if there is such a message.
    pub open spec fn decode(kind: u8, payload: Seq<u8>) -> Option<Content> {
        if kind == ATTACH && payload.len() == 5 {
            Some(
                Content::Attach {
                    version: payload[0],
                    rows: of_be16(payload.subrange(1, 3)) as u16,
                    cols: of_be16(payload.subrange(3, 5)) as u16,
                },
            )
        } else if kind == INPUT {
            Some(Content::Input(payload))
        } else if kind == RESIZE && payload.len() == 4 {
            Some(
                Content::Resize {
                    rows: of_be16(payload.subrange(0, 2)) as u16,
                    cols: of_be16(payload.subrange(2, 4)) as u16,
                },
            )
        } else if kind == DISCONNECT && payload.len() == 1 {
            Some(Content::Disconnect { version: payload[0] })
        } else if kind == OUTPUT {
            Some(Content::Output(payload))
        } else if kind == EXIT && payload.len() == 4 {
            Some(Content::Exit(of_bits(of_be32(payload))))
        } else if kind == DETACHED && payload.len() == 0 {
            Some(Content::Detached)
        } else if kind == ERROR {
            Some(Content::Error(crate::text::lossy(payload)))
        } else {
            None
        }
    }
}

/// Why a frame of this kind is refused.
pub open spec fn malformed(kind: u8) -> Seq<char> {
    "malformed message of type "@ + crate::text::decimal(kind as nat)
}

/// Why a frame with a payload this long is refused.
pub open spec fn oversize(length: nat) -> Seq<char> {
    "message of "@ + crate::text::decimal(length) + " bytes exceeds limit"@
}

/// What taking a message off the front of a buffer gives: the message, nothing as
/// long as its frame is not complete, or why the frame is refused.
pub type Taken = Result<Option<Content>, Seq<char>>;

/// Takes a message off the front of `buffer`, and says what is left of it.
pub open spec fn take_message(buffer: Seq<u8>) -> (Taken, Seq<u8>) {
    if buffer.len() < HEADER {
        (Ok(None), buffer)
    } else {
        let length = of_be32(buffer.subrange(1, 5));
        if length > MAX_PAYLOAD {
            (Err(oversize(length)), buffer)
        } else if buffer.len() < HEADER + length {
            (Ok(None), buffer)
        } else {
            let end = HEADER + length;
            let taken: Taken = match Content::decode(buffer[0], buffer.subrange(5, end)) {
                Some(message) => Ok(Some(message)),
                None => Err(malformed(buffer[0])),
            };
            (taken, buffer.skip(end))
        }
    }
}

pub open spec fn taken_view(result: Result<Option<Message>, String>) -> Taken {
    match result {
        Ok(Some(message)) => Ok(Some(message@)),
        Ok(None) => Ok(None),
        Err(text) => Err(text@),
    }
}

fn push_be16(out: &mut Vec<u8>, n: u16)
    ensures
        final(out)@ == old(out)@ + be16(n),
{
    out.push((n / 256) as u8);
    out.push((n % 256) as u8);
}

fn push_be32(out: &mut Vec<u8>, n: u32)
    ensures
        final(out)@ == old(out)@ + be32(n as nat),
{
    out.push((n / 0x100_0000) as u8);
    out.push((n / 0x1_0000 % 256) as u8);
    out.push((n / 0x100 % 256) as u8);
    out.push((n % 256) as u8);
}

/// Only the lowest 32 bits of a length reach its four bytes.
proof fn low_word_bytes(n: u64)
    ensures
        be32((n % 0x1_0000_0000) as nat) == be32(n as nat),
{
    assert(n % 0x1_0000_0000 / 0x100_0000 % 256 == n / 0x100_0000 % 256) by (bit_vector);
    assert(n % 0x1_0000_0000 / 0x1_0000 % 256 == n / 0x1_0000 % 256) by (bit_vector);
    assert(n % 0x1_0000_0000 / 0x100 % 256 == n / 0x100 % 256) by (bit_vector);
    assert(n % 0x1_0000_0000 % 256 == n % 256) by (bit_vector);
}

/// The lowest 32 bits of a length.
fn low_word(n: usize) -> (low: u32)
    ensures
        low == n as nat % 0x1_0000_0000,
{
    (n as u64 % 0x1_0000_0000) as u32
}

fn size_bytes(out: &mut Vec<u8>, rows: u16, cols: u16)
    ensures
        final(out)@ == old(out)@ + be16(rows) + be16(cols),
{
    push_be16(out, rows);
    push_be16(out, cols);
}

/// Reads rows and columns out of exactly four bytes.
fn parse_size(bytes: &[u8]) -> (size: Option<(u16, u16)>)
    ensures
        bytes@.len() == 4 ==> size == Some(
            (
                of_be16(bytes@.subrange(0, 2)) as u16,
                of_be16(bytes@.subrange(2, 4)) as u16,
            ),
        ),
        bytes@.len() != 4 ==> size is None,
{
    if bytes.len() != 4 {
        return None;
    }
    let rows: u16 = bytes[0] as u16 * 256 + bytes[1] as u16;
    let cols: u16 = bytes[2] as u16 * 256 + bytes[3] as u16;
    Some((rows, cols))
}

fn read_be32(bytes: &[u8], at: usize) -> (n: u32)
    requires
        at + 4 <= bytes@.len(),
    ensures
        n == of_be32(bytes@.subrange(at as int, at + 4)),
{
    bytes[at] as u32 * 0x100_0000 + bytes[at + 1] as u32 * 0x1_0000 + bytes[at + 2] as u32 * 0x100
        + bytes[at + 3] as u32
}

impl Message {
    /// The frame that carries the message.
    pub fn encode(&self) -> (frame: Vec<u8>)
        ensures
            frame@ == self@.frame(),
    {
        let (kind, mut payload) = self.parts();
        let mut frame: Vec<u8> = Vec::new();
        frame.push(kind);
        push_be32(&mut frame, low_word(payload.len()));
        proof {
            low_word_bytes(payload.len() as u64);
        }
        frame.append(&mut payload);
        frame
    }

    fn parts(&self) -> (parts: (u8, Vec<u8>))
        ensures
            parts.0 == self@.kind(),
            parts.1@ == self@.payload(),
    {
        let mut payload: Vec<u8> = Vec::new();
        let kind: u8 = match self {
            Message::Attach { version, rows, cols } => {
                payload.push(*version);
                size_bytes(&mut payload, *rows, *cols);
                ATTACH
            },
            Message::Input(data) => {
                push_bytes(&mut payload, data.as_slice());
                INPUT
            },
            Message::Resize { rows, cols } => {
                size_bytes(&mut payload, *rows, *cols);
                RESIZE
            },
            Message::Disconnect { version } => {
                payload.push(*version);
                DISCONNECT
            },
            Message::Output(data) => {
                push_bytes(&mut payload, data.as_slice());
                OUTPUT
            },
            Message::Exit(code) => {
                let bits: u32 = if *code < 0 {
                    (*code as i64 + 0x1_0000_0000) as u32
                } else {
                    *code as u32
                };
                push_be32(&mut payload, bits);
                EXIT
            },
            Message::Detached => DETACHED,
            Message::Error(text) => {
                push_bytes(&mut payload, text.as_str().as_bytes());
                ERROR
            },
        };
        (kind, payload)
    }

    fn decode(kind: u8, payload: &[u8]) -> (result: Result<Message, String>)
        ensures
            match Content::decode(kind, payload@) {
                Some(content) => result is Ok && result->Ok_0@ == content,
                None => result is Err && result->Err_0@ == malformed(kind),
            },
    {
        match kind {
            ATTACH => if payload.len() > 0 {
                let size = slice_subrange(payload, 1, payload.len());
                if let Some((rows, cols)) = parse_size(size) {
                    assert(size@.subrange(0, 2) == payload@.subrange(1, 3));
                    assert(size@.subrange(2, 4) == payload@.subrange(3, 5));
                    return Ok(Message::Attach { version: payload[0], rows, cols });
                }
            },
            INPUT => return Ok(Message::Input(slice_to_vec(payload))),
            RESIZE => if let Some((rows, cols)) = parse_size(payload) {
                return Ok(Message::Resize { rows, cols });
            },
            DISCONNECT => if payload.len() == 1 {
                return Ok(Message::Disconnect { version: payload[0] });
            },
            OUTPUT => return Ok(Message::Output(slice_to_vec(payload))),
            EXIT => if payload.len() == 4 {
                let bits: u32 = read_be32(payload, 0);
                assert(payload@.subrange(0, 4) == payload@);
                let code: i32 = if bits >= 0x8000_0000 {
                    (bits as i64 - 0x1_0000_0000) as i32
                } else {
                    bits as i32
                };
                return Ok(Message::Exit(code));
            },
            DETACHED => if payload.len() == 0 {
                return Ok(Message::Detached);
            },
            ERROR => return Ok(Message::Error(lossy_text(payload))),
            _ => {},
        }
        let mut reason = "malformed message of type ".to_owned();
        push_decimal(&mut reason, kind as usize);
        Err(reason)
    }
}

/// Puts messages together from the bytes of a connection.
pub struct Decoder {
    buffer: Vec<u8>,
}

impl View for Decoder {
    type V = Seq<u8>;

    /// The bytes that no message has been made of yet.
    closed spec fn view(&self) -> Seq<u8> {
        self.buffer@
    }
}

impl Default for Decoder {
    fn default() -> (decoder: Self)
        ensures
            decoder@ == Seq::<u8>::empty(),
    {
        Decoder { buffer: Vec::new() }
    }
}

impl Decoder {
    /// Takes in bytes of the connection.
    pub fn push(&mut self, data: &[u8])
        ensures
            final(self)@ == old(self)@ + data@,
    {
        push_bytes(&mut self.buffer, data);
    }

    /// Takes out the next message, if its frame is complete.
    pub fn next_message(&mut self) -> (result: Result<Option<Message>, String>)
        ensures
            (taken_view(result), final(self)@) == take_message(old(self)@),
    {
        if self.buffer.len() < HEADER {
            return Ok(None);
        }
        let length: usize = read_be32(self.buffer.as_slice(), 1) as usize;
        if length > MAX_PAYLOAD {
            let mut reason = "message of ".to_owned();
            push_decimal(&mut reason, length);
            reason.append(" bytes exceeds limit");
            return Err(reason);
        }
        if self.buffer.len() < HEADER + length {
            return Ok(None);
        }
        let end: usize = HEADER + length;
        let payload = slice_subrange(self.buffer.as_slice(), HEADER, end);
        let message = Message::decode(self.buffer[0], payload);
        let rest = self.buffer.split_off(end);
        self.buffer = rest;
        match message {
            Ok(message) => Ok(Some(message)),
            Err(reason) => Err(reason),
        }
    }
}

/// `data` cut into payloads, each as long as a payload may be but for the last.
pub open spec fn chunked(data: Seq<u8>) -> Seq<Seq<u8>>
    decreases data.len(),
{
    if data.len() == 0 {
        Seq::empty()
    } else if data.len() <= MAX_PAYLOAD {
        seq![data]
    } else {
        seq![data.take(MAX_PAYLOAD as int)] + chunked(data.skip(MAX_PAYLOAD as int))
    }
}

pub open spec fn slice_views(pieces: Seq<&[u8]>) -> Seq<Seq<u8>> {
    Seq::new(pieces.len(), |i: int| pieces[i]@)
}

/// Cuts `data` into payloads.
pub fn chunks(data: &[u8]) -> (pieces: Vec<&[u8]>)
    ensures
        slice_views(pieces@) == chunked(data@),
{
    let mut pieces: Vec<&[u8]> = Vec::new();
    let mut at: usize = 0;
    assert(data@.skip(0) == data@);
    while at < data.len()
        invariant
            at <= data.len(),
            chunked(data@) == slice_views(pieces@) + chunked(data@.skip(at as int)),
        decreases data.len() - at,
    {
        let end: usize = if data.len() - at <= MAX_PAYLOAD {
            data.len()
        } else {
            at + MAX_PAYLOAD
        };
        let ghost before = pieces@;
        let piece = slice_subrange(data, at, end);
        pieces.push(piece);
        proof {
            let left = data@.skip(at as int);
            assert(slice_views(pieces@) == slice_views(before).push(piece@));
            assert(left.skip(end - at) == data@.skip(end as int));
            if left.len() <= MAX_PAYLOAD {
                assert(piece@ == left);
                assert(chunked(data@.skip(end as int)) == Seq::<Seq<u8>>::empty());
            } else {
                assert(piece@ == left.take(MAX_PAYLOAD as int));
            }
            assert(slice_views(before) + chunked(left) == slice_views(pieces@) + chunked(
                data@.skip(end as int),
            ));
        }
        at = end;
    }
    pieces
}

} // verus!
