use boop::protocol::{
    chunks, Decoder, Message, ATTACH, DETACHED, DISCONNECT, ERROR, EXIT, MAX_PAYLOAD, OUTPUT,
    RESIZE, VERSION,
};

fn all_kinds() -> Vec<Message> {
    vec![
        Message::Attach { version: VERSION, rows: 24, cols: 80 },
        Message::Input(b"ls\r".to_vec()),
        Message::Input(Vec::new()),
        Message::Resize { rows: 65535, cols: 1 },
        Message::Disconnect { version: 7 },
        Message::Output(vec![0, 0x1b, 0xff]),
        Message::Exit(-3),
        Message::Exit(130),
        Message::Detached,
        Message::Error("no such session".into()),
    ]
}

fn decode_all(decoder: &mut Decoder) -> Vec<Message> {
    std::iter::from_fn(|| decoder.next_message().unwrap()).collect()
}

#[test]
fn round_trip() {
    for message in all_kinds() {
        let mut decoder = Decoder::default();
        decoder.push(&message.encode());
        assert_eq!(decoder.next_message(), Ok(Some(message)));
        assert_eq!(decoder.next_message(), Ok(None));
    }
}

#[test]
fn concatenated_frames() {
    let stream: Vec<u8> = all_kinds().iter().flat_map(Message::encode).collect();
    let mut decoder = Decoder::default();
    decoder.push(&stream);
    assert_eq!(decode_all(&mut decoder), all_kinds());
}

#[test]
fn byte_at_a_time() {
    let stream: Vec<u8> = all_kinds().iter().flat_map(Message::encode).collect();
    let mut decoder = Decoder::default();
    let mut decoded = Vec::new();
    for byte in stream {
        decoder.push(&[byte]);
        decoded.extend(decode_all(&mut decoder));
    }
    assert_eq!(decoded, all_kinds());
}

#[test]
fn maximum_payload_accepted() {
    let message = Message::Output(vec![b'x'; MAX_PAYLOAD]);
    let mut decoder = Decoder::default();
    decoder.push(&message.encode());
    assert_eq!(decoder.next_message(), Ok(Some(message)));
}

#[test]
fn oversize_rejected_from_header() {
    let mut decoder = Decoder::default();
    let mut header = vec![OUTPUT];
    header.extend_from_slice(&((MAX_PAYLOAD + 1) as u32).to_be_bytes());
    decoder.push(&header);
    assert!(decoder.next_message().is_err());
}

#[test]
fn malformed_rejected() {
    for frame in [
        vec![ATTACH, 0, 0, 0, 0],
        vec![ATTACH, 0, 0, 0, 2, 1, 0],
        vec![RESIZE, 0, 0, 0, 1, 0],
        vec![DISCONNECT, 0, 0, 0, 0],
        vec![EXIT, 0, 0, 0, 1, 0],
        vec![DETACHED, 0, 0, 0, 1, 0],
        vec![99, 0, 0, 0, 0],
    ] {
        let mut decoder = Decoder::default();
        decoder.push(&frame);
        assert!(decoder.next_message().is_err(), "{frame:?}");
    }
}

#[test]
fn chunking_respects_limit() {
    let data = vec![0u8; MAX_PAYLOAD * 2 + 1];
    let sizes: Vec<usize> = chunks(&data).iter().map(|chunk| chunk.len()).collect();
    assert_eq!(sizes, [MAX_PAYLOAD, MAX_PAYLOAD, 1]);
}

#[test]
fn frames_are_laid_out() {
    let attach = Message::Attach { version: 1, rows: 0x0102, cols: 0x0304 };
    assert_eq!(attach.encode(), [1, 0, 0, 0, 5, 1, 1, 2, 3, 4]);
    assert_eq!(Message::Input(b"ab".to_vec()).encode(), [2, 0, 0, 0, 2, b'a', b'b']);
    assert_eq!(Message::Resize { rows: 1, cols: 256 }.encode(), [3, 0, 0, 0, 4, 0, 1, 1, 0]);
    assert_eq!(Message::Disconnect { version: 9 }.encode(), [4, 0, 0, 0, 1, 9]);
    assert_eq!(Message::Output(vec![7; 258]).encode()[..6], [10, 0, 0, 1, 2, 7]);
    assert_eq!(Message::Exit(-2).encode(), [11, 0, 0, 0, 4, 255, 255, 255, 254]);
    assert_eq!(Message::Detached.encode(), [12, 0, 0, 0, 0]);
    assert_eq!(Message::Error("\u{e9}".into()).encode(), [13, 0, 0, 0, 2, 0xc3, 0xa9]);
}

#[test]
fn refused_frames_say_why() {
    let mut decoder = Decoder::default();
    decoder.push(&[99, 0, 0, 0, 1, 5, 12, 0, 0, 0, 0]);
    assert_eq!(decoder.next_message(), Err("malformed message of type 99".into()));
    assert_eq!(decoder.next_message(), Ok(Some(Message::Detached)));
    decoder.push(&[2, 0, 1, 0, 1]);
    assert_eq!(decoder.next_message(), Err("message of 65537 bytes exceeds limit".into()));
    assert_eq!(decoder.next_message(), Err("message of 65537 bytes exceeds limit".into()));
}

#[test]
fn errors_that_are_no_text_are_put_right() {
    let mut decoder = Decoder::default();
    decoder.push(&[ERROR, 0, 0, 0, 3, b'a', 0xff, b'b']);
    assert_eq!(decoder.next_message(), Ok(Some(Message::Error("a\u{fffd}b".into()))));
}

#[test]
fn chunks_keep_everything() {
    assert!(chunks(&[]).is_empty());
    let data: Vec<u8> = (0..MAX_PAYLOAD + 3).map(|i| i as u8).collect();
    let pieces = chunks(&data);
    assert_eq!(pieces.len(), 2);
    assert_eq!(pieces.concat(), data);
}
