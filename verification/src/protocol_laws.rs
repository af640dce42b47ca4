//! What holds of the messages between a session and its terminals.

use vstd::prelude::*;

use crate::protocol::{Content, HEADER, MAX_PAYLOAD};

verus! {

/// The bytes of a number read back give the number.
proof fn be16_reads_back(n: u16)
    ensures
        crate::protocol::of_be16(crate::protocol::be16(n)) == n,
{
}

proof fn be32_reads_back(n: nat)
    requires
        n < 0x1_0000_0000,
    ensures
        crate::protocol::of_be32(crate::protocol::be32(n)) == n,
{
    let b3 = n / 0x100_0000;
    let b2 = (n / 0x1_0000) % 256;
    let b1 = (n / 0x100) % 256;
    let b0 = n % 256;
    assert(b3 % 256 == b3);
    assert(n / 0x1_0000 == b3 * 0x100 + b2);
    assert(n / 0x100 == b3 * 0x1_0000 + b2 * 0x100 + b1);
    assert(n == b3 * 0x100_0000 + b2 * 0x1_0000 + b1 * 0x100 + b0);
}

/// A message is read back from its kind and payload.
pub proof fn payload_reads_back(message: Content)
    ensures
        Content::decode(message.kind(), message.payload()) == Some(message),
{
    let payload = message.payload();
    match message {
        Content::Attach { version, rows, cols } => {
            be16_reads_back(rows);
            be16_reads_back(cols);
            assert(payload.subrange(1, 3) == crate::protocol::be16(rows));
            assert(payload.subrange(3, 5) == crate::protocol::be16(cols));
        },
        Content::Resize { rows, cols } => {
            be16_reads_back(rows);
            be16_reads_back(cols);
            assert(payload.subrange(0, 2) == crate::protocol::be16(rows));
            assert(payload.subrange(2, 4) == crate::protocol::be16(cols));
        },
        Content::Exit(code) => be32_reads_back(crate::protocol::bits_of(code)),
        Content::Error(text) => {
            vstd::utf8::encode_utf8_valid_utf8(text);
            vstd::utf8::encode_utf8_decode_utf8(text);
        },
        _ => {},
    }
}

/// A frame is its header and its payload.
pub proof fn frame_length(message: Content)
    ensures
        message.frame().len() == HEADER + message.payload().len(),
{
}

/// What is sent is what is read: the frame of a message whose payload may be sent,
/// followed by anything, gives that message and leaves what follows.
pub proof fn frame_reads_back(message: Content, rest: Seq<u8>)
    requires
        message.payload().len() <= MAX_PAYLOAD,
    ensures
        crate::protocol::take_message(message.frame() + rest) == (
            Ok::<Option<Content>, Seq<char>>(Some(message)),
            rest,
        ),
{
    let buffer = message.frame() + rest;
    let length = message.payload().len();
    be32_reads_back(length);
    assert(buffer.subrange(1, 5) == crate::protocol::be32(length));
    assert(buffer.subrange(5, HEADER + length) == message.payload());
    assert(buffer.skip(HEADER + length) == rest);
    payload_reads_back(message);
}

/// The frames of messages, one behind the other.
pub open spec fn frames(messages: Seq<Content>) -> Seq<u8>
    decreases messages.len(),
{
    if messages.len() == 0 {
        Seq::empty()
    } else {
        messages[0].frame() + frames(messages.drop_first())
    }
}

/// What a buffer holds: the messages up to the end of the last complete frame or to
/// the first frame that is refused, why that one is refused, and what is left.
#[verifier::ext_equal]
pub struct Contents {
    pub messages: Seq<Content>,
    pub refusal: Option<Seq<char>>,
    pub rest: Seq<u8>,
}

/// All the messages that can be taken out of a buffer.
pub open spec fn contents(buffer: Seq<u8>) -> Contents
    decreases buffer.len(),
{
    let (taken, rest) = crate::protocol::take_message(buffer);
    match taken {
        Err(reason) => Contents { messages: Seq::empty(), refusal: Some(reason), rest },
        Ok(None) => Contents { messages: Seq::empty(), refusal: None, rest },
        Ok(Some(message)) => {
            let more = contents(rest);
            Contents { messages: seq![message] + more.messages, ..more }
        },
    }
}

/// Messages sent one behind the other are all read, in order, and nothing is left.
pub proof fn frames_read_back(messages: Seq<Content>)
    requires
        forall|i: int|
            0 <= i < messages.len() ==> (#[trigger] messages[i]).payload().len() <= MAX_PAYLOAD,
    ensures
        contents(frames(messages)) == (Contents {
            messages,
            refusal: None,
            rest: Seq::empty(),
        }),
    decreases messages.len(),
{
    if messages.len() > 0 {
        let later = messages.drop_first();
        frame_reads_back(messages[0], frames(later));
        frames_read_back(later);
        assert(seq![messages[0]] + later == messages);
    }
}

/// Bytes that arrive later do not change what has been read: once a buffer gives a
/// message or is refused, it does so whatever follows, and what follows is left.
pub proof fn later_bytes_change_nothing(buffer: Seq<u8>, more: Seq<u8>)
    ensures
        ({
            let (taken, rest) = crate::protocol::take_message(buffer);
            if taken == Ok::<Option<Content>, Seq<char>>(None) {
                rest == buffer
            } else {
                crate::protocol::take_message(buffer + more) == (taken, rest + more)
            }
        }),
{
    if buffer.len() >= HEADER {
        let whole = buffer + more;
        assert(whole.subrange(1, 5) == buffer.subrange(1, 5));
        let end = HEADER + crate::protocol::of_be32(buffer.subrange(1, 5));
        if buffer.len() >= end {
            assert(whole.subrange(5, end) == buffer.subrange(5, end));
            assert(whole.skip(end) == buffer.skip(end) + more);
        }
    }
}

/// A connection may deliver its bytes in pieces of any size: taking out what there is
/// before the next piece arrives gives the same messages as waiting for it.
pub proof fn pieces_read_as_one(first: Seq<u8>, second: Seq<u8>)
    ensures
        ({
            let early = contents(first);
            let all = contents(first + second);
            if early.refusal is Some {
                all == (Contents { rest: early.rest + second, ..early })
            } else {
                let late = contents(early.rest + second);
                all == (Contents { messages: early.messages + late.messages, ..late })
            }
        }),
    decreases first.len(),
{
    later_bytes_change_nothing(first, second);
    let (taken, rest) = crate::protocol::take_message(first);
    if let Ok(Some(message)) = taken {
        pieces_read_as_one(rest, second);
        let early = contents(first);
        let late = contents(early.rest + second);
        assert(seq![message] + (contents(rest).messages + late.messages) == early.messages
            + late.messages);
    }
}

/// The pieces put together again.
pub open spec fn joined(pieces: Seq<Seq<u8>>) -> Seq<u8>
    decreases pieces.len(),
{
    if pieces.len() == 0 {
        Seq::empty()
    } else {
        pieces[0] + joined(pieces.drop_first())
    }
}

/// Cutting data into payloads loses nothing, gives no empty payload and none that is
/// too long, and fills all but the last.
pub proof fn chunks_keep_data(data: Seq<u8>)
    ensures
        ({
            let pieces = crate::protocol::chunked(data);
            &&& joined(pieces) == data
            &&& forall|i: int|
                0 <= i < pieces.len() ==> 0 < (#[trigger] pieces[i]).len() <= MAX_PAYLOAD
            &&& forall|i: int|
                0 <= i < pieces.len() - 1 ==> (#[trigger] pieces[i]).len() == MAX_PAYLOAD
        }),
    decreases data.len(),
{
    let pieces = crate::protocol::chunked(data);
    if data.len() == 0 {
    } else if data.len() <= MAX_PAYLOAD {
        assert(pieces.drop_first() == Seq::<Seq<u8>>::empty());
        assert(joined(pieces.drop_first()) == Seq::<u8>::empty());
        assert(data + Seq::<u8>::empty() == data);
    } else {
        let later = data.skip(MAX_PAYLOAD as int);
        chunks_keep_data(later);
        assert(pieces.drop_first() == crate::protocol::chunked(later));
        assert(data.take(MAX_PAYLOAD as int) + later == data);
        assert forall|i: int| 0 < i < pieces.len() implies #[trigger] pieces[i]
            == crate::protocol::chunked(later)[i - 1] by {}
    }
}

/// Pieces behind pieces are put together one behind the other.
pub proof fn joined_in_parts(first: Seq<Seq<u8>>, second: Seq<Seq<u8>>)
    ensures
        joined(first + second) == joined(first) + joined(second),
    decreases first.len(),
{
    if first.len() == 0 {
        assert(first + second == second);
        assert(joined(first) + joined(second) == joined(second));
    } else {
        let later = first.drop_first();
        joined_in_parts(later, second);
        assert((first + second).drop_first() == later + second);
        assert(first[0] + (joined(later) + joined(second)) == joined(first) + joined(second));
    }
}

/// Frames behind frames are one behind the other.
pub proof fn frames_in_parts(first: Seq<Content>, second: Seq<Content>)
    ensures
        frames(first + second) == frames(first) + frames(second),
    decreases first.len(),
{
    if first.len() == 0 {
        assert(first + second == second);
        assert(frames(first) + frames(second) == frames(second));
    } else {
        let later = first.drop_first();
        frames_in_parts(later, second);
        assert((first + second).drop_first() == later + second);
        assert(first[0].frame() + (frames(later) + frames(second)) == frames(first)
            + frames(second));
    }
}

/// What is left of a buffer that is not refused holds no complete message.
pub proof fn nothing_complete_is_left(buffer: Seq<u8>)
    requires
        contents(buffer).refusal is None,
    ensures
        contents(contents(buffer).rest) == (Contents {
            messages: Seq::empty(),
            refusal: None,
            rest: contents(buffer).rest,
        }),
    decreases buffer.len(),
{
    let (taken, rest) = crate::protocol::take_message(buffer);
    if let Ok(Some(_)) = taken {
        nothing_complete_is_left(rest);
    }
}

/// The number that two bytes stand for, the most significant first.
pub open spec fn pair(bytes: Seq<u8>, at: int) -> int {
    bytes[at] * 256 + bytes[at + 1]
}

/// The number that four bytes stand for, the most significant first.
pub open spec fn quad(bytes: Seq<u8>, at: int) -> int {
    ((bytes[at] * 256 + bytes[at + 1]) * 256 + bytes[at + 2]) * 256 + bytes[at + 3]
}

proof fn quad_of_length(n: nat)
    requires
        n < 0x1_0000_0000,
    ensures
        quad(crate::protocol::be32(n), 0) == n,
{
    be32_reads_back(n);
}

/// The layout of every frame: a byte for the kind, four for the length of the payload, and
/// the payload, with numbers most significant first and an exit status as 32 bits in two's
/// complement.
pub proof fn frames_are_laid_out(message: Content)
    requires
        message.payload().len() < 0x1_0000_0000,
    ensures
        ({
            let frame = message.frame();
            &&& frame.len() >= 5
            &&& quad(frame, 1) == frame.len() - 5
            &&& match message {
                Content::Attach { version, rows, cols } => frame[0] == 1 && frame.len() == 10
                    && frame[5] == version && pair(frame, 6) == rows && pair(frame, 8) == cols,
                Content::Input(data) => frame[0] == 2 && frame.skip(5) == data,
                Content::Resize { rows, cols } => frame[0] == 3 && frame.len() == 9 && pair(frame, 5)
                    == rows && pair(frame, 7) == cols,
                Content::Disconnect { version } => frame[0] == 4 && frame.len() == 6 && frame[5]
                    == version,
                Content::Output(data) => frame[0] == 10 && frame.skip(5) == data,
                Content::Exit(code) => frame[0] == 11 && frame.len() == 9 && quad(frame, 5)
                    == if code < 0 {
                    code + 0x1_0000_0000
                } else {
                    code as int
                },
                Content::Detached => frame[0] == 12 && frame.len() == 5,
                Content::Error(text) => frame[0] == 13 && frame.skip(5)
                    == vstd::utf8::encode_utf8(text),
            }
        }),
{
    let frame = message.frame();
    let length = message.payload().len();
    quad_of_length(length);
    assert(quad(frame, 1) == quad(crate::protocol::be32(length), 0));
    assert(frame.skip(5) == message.payload());
    match message {
        Content::Attach { version, rows, cols } => {
            be16_reads_back(rows);
            be16_reads_back(cols);
            assert(frame.subrange(6, 8) == crate::protocol::be16(rows));
            assert(frame.subrange(8, 10) == crate::protocol::be16(cols));
        },
        Content::Resize { rows, cols } => {
            be16_reads_back(rows);
            be16_reads_back(cols);
            assert(frame.subrange(5, 7) == crate::protocol::be16(rows));
            assert(frame.subrange(7, 9) == crate::protocol::be16(cols));
        },
        Content::Exit(code) => {
            quad_of_length(crate::protocol::bits_of(code));
            assert(frame.subrange(5, 9) == crate::protocol::be32(crate::protocol::bits_of(code)));
        },
        _ => {},
    }
}

/// Nothing is taken out of a buffer before the frame at its front is complete, and a frame
/// whose length is over the limit is refused as soon as its header is there; neither takes
/// anything away.
pub proof fn incomplete_and_oversize_frames(buffer: Seq<u8>)
    ensures
        buffer.len() < 5 ==> crate::protocol::take_message(buffer) == (
            Ok::<Option<Content>, Seq<char>>(None),
            buffer,
        ),
        buffer.len() >= 5 && quad(buffer, 1) > 65536 ==> crate::protocol::take_message(buffer) == (
            Err::<Option<Content>, Seq<char>>(
                "message of "@ + crate::text::decimal(quad(buffer, 1) as nat)
                    + " bytes exceeds limit"@,
            ),
            buffer,
        ),
        buffer.len() >= 5 && quad(buffer, 1) <= 65536 && buffer.len() < 5 + quad(buffer, 1)
            ==> crate::protocol::take_message(buffer) == (
            Ok::<Option<Content>, Seq<char>>(None),
            buffer,
        ),
{
    if buffer.len() >= 5 {
        let header = buffer.subrange(1, 5);
        assert(crate::protocol::of_be32(header) == quad(buffer, 1));
    }
}

/// A complete frame is taken away, whatever it holds. It is a message exactly if its kind is
/// known and its payload has the length for it, and the message is what the payload says;
/// any other frame is refused by its kind.
pub proof fn complete_frames(buffer: Seq<u8>)
    requires
        buffer.len() >= 5,
        quad(buffer, 1) <= 65536,
        buffer.len() >= 5 + quad(buffer, 1),
    ensures
        ({
            let (taken, rest) = crate::protocol::take_message(buffer);
            let kind = buffer[0];
            let payload = buffer.subrange(5, 5 + quad(buffer, 1));
            let length = payload.len();
            &&& rest == buffer.skip(5 + quad(buffer, 1))
            &&& match taken {
                Ok(Some(Content::Attach { version, rows, cols })) => kind == 1 && length == 5
                    && version == payload[0] && rows == pair(payload, 1) && cols == pair(
                    payload,
                    3,
                ),
                Ok(Some(Content::Input(data))) => kind == 2 && data == payload,
                Ok(Some(Content::Resize { rows, cols })) => kind == 3 && length == 4 && rows == pair(
                    payload,
                    0,
                ) && cols == pair(payload, 2),
                Ok(Some(Content::Disconnect { version })) => kind == 4 && length == 1 && version
                    == payload[0],
                Ok(Some(Content::Output(data))) => kind == 10 && data == payload,
                Ok(Some(Content::Exit(code))) => kind == 11 && length == 4 && quad(payload, 0)
                    == if code < 0 {
                    code + 0x1_0000_0000
                } else {
                    code as int
                },
                Ok(Some(Content::Detached)) => kind == 12 && length == 0,
                Ok(Some(Content::Error(text))) => kind == 13 && (vstd::utf8::valid_utf8(payload)
                    ==> text == vstd::utf8::decode_utf8(payload)),
                Ok(None) => false,
                Err(text) => {
                    &&& text == "malformed message of type "@ + crate::text::decimal(kind as nat)
                    &&& kind == 1 ==> length != 5
                    &&& kind == 3 ==> length != 4
                    &&& kind == 4 ==> length != 1
                    &&& kind == 11 ==> length != 4
                    &&& kind == 12 ==> length != 0
                    &&& kind != 2 && kind != 10 && kind != 13
                },
            }
        }),
{
    let header = buffer.subrange(1, 5);
    assert(crate::protocol::of_be32(header) == quad(buffer, 1));
    let payload = buffer.subrange(5, 5 + quad(buffer, 1));
    if buffer[0] == 11 && payload.len() == 4 {
        assert(crate::protocol::of_be32(payload) == quad(payload, 0));
    }
}

} // verus!
