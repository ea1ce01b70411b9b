use vsock_transport::client::{backoff_delay, file_frames, Action, VsockClient, BLOCK_SIZE};
use vsock_transport::protocol::{
    decode_payload, encode_frame, read_message, MessageType, ProtocolError, ProtocolHeader,
};

fn take_write(client: &mut VsockClient) -> Vec<u8> {
    match client.poll() {
        Action::Write(frame) => frame,
        Action::Connect => panic!("expected a write, got connect"),
        Action::WaitForFrame => panic!("expected a write, got wait"),
    }
}

fn payload_of(frame: &[u8]) -> (MessageType, Vec<u8>) {
    read_message(frame).unwrap().unwrap()
}

#[test]
fn header_to_vec_is_big_endian() {
    let h = ProtocolHeader::new(MessageType::FileTransfer, 0x0102_0304);
    assert_eq!(h.to_vec(), vec![2, 1, 2, 3, 4]);
    let h = ProtocolHeader::new(MessageType::Log, 11);
    assert_eq!(h.to_vec(), vec![1, 0, 0, 0, 11]);
}

#[test]
fn header_from_bytes() {
    let h = ProtocolHeader::from_bytes(&[2, 0, 0, 1, 7]).unwrap().unwrap();
    assert_eq!(h.msg_type, 2);
    assert_eq!(h.payload_size, 263);
    assert_eq!(h.message_type(), Ok(MessageType::FileTransfer));
    assert!(matches!(ProtocolHeader::from_bytes(&[]), Ok(None)));
    assert!(matches!(
        ProtocolHeader::from_bytes(&[1, 0, 0, 0]),
        Err(ProtocolError::IncompleteHeader)
    ));
}

#[test]
fn decode_hello_world() {
    let mut stream = vec![0x01, 0x00, 0x00, 0x00, 0x0B];
    stream.extend_from_slice(b"hello world");
    let (t, payload) = read_message(&stream).unwrap().unwrap();
    assert_eq!(t, MessageType::Log);
    assert_eq!(payload, b"hello world".to_vec());
}

#[test]
fn decode_unknown_type() {
    let stream = vec![0x03, 0x00, 0x00, 0x00, 0x00];
    assert!(matches!(
        read_message(&stream),
        Err(ProtocolError::UnknownMessageType)
    ));
}

#[test]
fn decode_end_of_stream() {
    assert!(matches!(read_message(&[]), Ok(None)));
}

#[test]
fn decode_incomplete_header() {
    for n in 1..5 {
        let stream = vec![1u8; n];
        assert!(matches!(
            read_message(&stream),
            Err(ProtocolError::IncompleteHeader)
        ));
    }
}

#[test]
fn decode_short_payload() {
    let stream = vec![1, 0, 0, 0, 5, b'a', b'b'];
    let (t, payload) = read_message(&stream).unwrap().unwrap();
    assert_eq!(t, MessageType::Log);
    assert_eq!(payload, b"ab".to_vec());
}

#[test]
fn decode_reads_one_frame_only() {
    let mut stream = encode_frame(MessageType::Log, b"one");
    stream.extend_from_slice(&encode_frame(MessageType::FileTransfer, b"two"));
    assert_eq!(payload_of(&stream), (MessageType::Log, b"one".to_vec()));
}

#[test]
fn encode_then_decode_round_trip() {
    let big: Vec<u8> = (0..70000u32).map(|i| (i % 251) as u8).collect();
    let cases: Vec<(MessageType, Vec<u8>)> = vec![
        (MessageType::Log, Vec::new()),
        (MessageType::Log, b"hello world".to_vec()),
        (MessageType::FileTransfer, vec![0, 255, 1, 254]),
        (MessageType::FileTransfer, big),
    ];
    for (t, payload) in cases {
        let frame = encode_frame(t, &payload);
        assert_eq!(frame.len(), 5 + payload.len());
        assert_eq!(payload_of(&frame), (t, payload));
    }
}

#[test]
fn message_type_codes() {
    assert_eq!(MessageType::Log.code(), 1);
    assert_eq!(MessageType::FileTransfer.code(), 2);
    assert_eq!(MessageType::from_code(1), Some(MessageType::Log));
    assert_eq!(MessageType::from_code(2), Some(MessageType::FileTransfer));
    assert_eq!(MessageType::from_code(0), None);
    assert_eq!(MessageType::from_code(3), None);
}

#[test]
fn backoff_is_linear_then_capped() {
    let mut last = 0;
    for n in 1..=70u64 {
        let d = backoff_delay(n);
        assert_eq!(d, n.min(60));
        assert!(d >= last);
        last = d;
    }
    assert_eq!(backoff_delay(u64::MAX), 60);
}

#[test]
fn failed_connects_count_up_and_reset() {
    let mut client = VsockClient::new();
    for n in 1..=70u64 {
        assert!(matches!(client.poll(), Action::Connect));
        assert_eq!(client.connect_result(false), Some(n.min(60)));
        assert_eq!(client.retry_count(), n);
        assert!(!client.is_connected());
    }
    assert_eq!(client.connect_result(true), None);
    assert_eq!(client.retry_count(), 0);
    assert!(client.is_connected());
    assert!(matches!(client.poll(), Action::WaitForFrame));
}

#[test]
fn frames_keep_their_order() {
    let mut client = VsockClient::new();
    client.log("t0", "first");
    client.send_file("other", b"xyz");
    client.log("t1", "second");
    assert_eq!(client.pending(), 4);
    assert!(matches!(client.poll(), Action::Connect));
    client.connect_result(true);
    let expected: Vec<(MessageType, Vec<u8>)> = vec![
        (MessageType::Log, b"[t0] first\n".to_vec()),
        (MessageType::FileTransfer, b"other".to_vec()),
        (MessageType::FileTransfer, b"xyz".to_vec()),
        (MessageType::Log, b"[t1] second\n".to_vec()),
    ];
    for e in expected {
        let frame = take_write(&mut client);
        client.write_result(true);
        assert_eq!(payload_of(&frame), e);
    }
    assert!(matches!(client.poll(), Action::WaitForFrame));
}

#[test]
fn failed_write_loses_frame() {
    let mut client = VsockClient::new();
    client.connect_result(true);
    client.log("t", "f1");
    let frame = take_write(&mut client);
    assert_eq!(payload_of(&frame).1, b"[t] f1\n".to_vec());
    client.write_result(false);
    assert!(!client.is_connected());
    client.log("t", "f2");
    assert!(matches!(client.poll(), Action::Connect));
    assert_eq!(client.connect_result(true), None);
    let frame = take_write(&mut client);
    assert_eq!(payload_of(&frame).1, b"[t] f2\n".to_vec());
    client.write_result(true);
    assert!(matches!(client.poll(), Action::WaitForFrame));
}

#[test]
fn file_of_20000_bytes_makes_three_blocks() {
    let contents: Vec<u8> = (0..20000u32).map(|i| (i % 256) as u8).collect();
    let frames = file_frames("data.bin", &contents);
    assert_eq!(frames.len(), 4);
    assert_eq!(
        payload_of(&frames[0]),
        (MessageType::FileTransfer, b"data.bin".to_vec())
    );
    let sizes: Vec<usize> = frames[1..].iter().map(|f| payload_of(f).1.len()).collect();
    assert_eq!(sizes, vec![8192, 8192, 3616]);
    let mut joined = Vec::new();
    for f in &frames[1..] {
        let (t, p) = payload_of(f);
        assert_eq!(t, MessageType::FileTransfer);
        joined.extend_from_slice(&p);
    }
    assert_eq!(joined, contents);
}

#[test]
fn file_edge_sizes() {
    assert_eq!(file_frames("empty", &[]).len(), 1);
    assert_eq!(file_frames("one", &vec![7u8; BLOCK_SIZE]).len(), 2);
    assert_eq!(file_frames("two", &vec![7u8; BLOCK_SIZE + 1]).len(), 3);
}

#[test]
fn send_file_enqueues_all_frames() {
    let mut client = VsockClient::new();
    let contents = vec![9u8; 20000];
    client.send_file("f", &contents);
    assert_eq!(client.pending(), 4);
    client.connect_result(true);
    let expected = file_frames("f", &contents);
    for e in expected {
        assert_eq!(take_write(&mut client), e);
        client.write_result(true);
    }
}

#[test]
fn log_stamps_the_message() {
    let mut client = VsockClient::new();
    client.log("2024-05-06 07:08:09.123", "hello");
    assert_eq!(client.pending(), 1);
    client.connect_result(true);
    let frame = take_write(&mut client);
    let mut expected = vec![1, 0, 0, 0, 32];
    expected.extend_from_slice(b"[2024-05-06 07:08:09.123] hello\n");
    assert_eq!(frame, expected);
}

#[test]
fn decode_payload_after_header() {
    let h = ProtocolHeader::from_bytes(&[1, 0, 0, 0, 11]).unwrap().unwrap();
    assert_eq!(
        decode_payload(&h, b"hello world"),
        Ok((MessageType::Log, b"hello world".to_vec()))
    );
    assert_eq!(
        decode_payload(&h, b"hello"),
        Ok((MessageType::Log, b"hello".to_vec()))
    );
    let h = ProtocolHeader::from_bytes(&[3, 0, 0, 0, 0]).unwrap().unwrap();
    assert_eq!(decode_payload(&h, &[]), Err(ProtocolError::UnknownMessageType));
}

#[test]
fn file_sent_block_by_block() {
    let contents: Vec<u8> = (0..20000u32).map(|i| (i % 7) as u8).collect();
    let mut client = VsockClient::new();
    client.start_file("data.bin");
    for block in contents.chunks(BLOCK_SIZE) {
        assert!(client.send_file_block(block));
    }
    assert!(!client.send_file_block(&[]));
    assert_eq!(client.pending(), 4);
    client.connect_result(true);
    for e in file_frames("data.bin", &contents) {
        assert_eq!(take_write(&mut client), e);
        client.write_result(true);
    }
    assert!(matches!(client.poll(), Action::WaitForFrame));
}

#[test]
fn empty_block_enqueues_nothing() {
    let mut client = VsockClient::new();
    assert!(!client.send_file_block(&[]));
    assert_eq!(client.pending(), 0);
    assert!(client.send_file_block(&[1, 2, 3]));
    client.connect_result(true);
    let frame = take_write(&mut client);
    assert_eq!(frame, vec![2, 0, 0, 0, 3, 1, 2, 3]);
}
