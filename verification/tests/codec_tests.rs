use codelldb::channel::Channel;
use codelldb::codec::{encode_frame, end_of_stream_outcome, FrameDecoder, FrameStep};
use codelldb::error::AdapterError;
use codelldb::pump::{pump_inbound, pump_outbound};

fn wire(payload: &[u8]) -> Vec<u8> {
    encode_frame(&payload.to_vec())
}

fn drain(dec: &mut FrameDecoder) -> Vec<Vec<u8>> {
    let mut out = Vec::new();
    loop {
        match dec.next_frame() {
            FrameStep::Frame(p) => out.push(p),
            FrameStep::NeedMore => return out,
            FrameStep::Malformed => panic!("unexpected protocol error"),
        }
    }
}

#[test]
fn encode_known_frame() {
    let out = wire(b"hello");
    assert_eq!(out, b"Content-Length: 5\r\n\r\nhello".to_vec());
}

#[test]
fn encode_empty_payload() {
    let out = wire(b"");
    assert_eq!(out, b"Content-Length: 0\r\n\r\n".to_vec());
}

#[test]
fn encode_multi_digit_length() {
    let payload = vec![42u8; 120];
    let mut expected = b"Content-Length: 120\r\n\r\n".to_vec();
    expected.extend_from_slice(&payload);
    assert_eq!(wire(&payload), expected);
}

#[test]
fn round_trip_single_frame() {
    let payload = b"{\"seq\":1,\"type\":\"request\"}".to_vec();
    let mut dec = FrameDecoder::new();
    dec.feed(&wire(&payload));
    match dec.next_frame() {
        FrameStep::Frame(p) => assert_eq!(p, payload),
        other => panic!("expected a frame, got {:?}", other),
    }
    assert_eq!(dec.pending_len(), 0);
    assert!(matches!(dec.next_frame(), FrameStep::NeedMore));
}

#[test]
fn back_to_back_frames_in_one_read() {
    let msgs: Vec<Vec<u8>> = vec![b"one".to_vec(), b"two!".to_vec(), b"three".to_vec()];
    let mut bytes = Vec::new();
    for m in &msgs {
        bytes.extend_from_slice(&wire(m));
    }
    let mut dec = FrameDecoder::new();
    dec.feed(&bytes);
    assert_eq!(drain(&mut dec), msgs);
    assert_eq!(dec.pending_len(), 0);
}

#[test]
fn frames_split_byte_by_byte() {
    let msgs: Vec<Vec<u8>> = vec![b"alpha".to_vec(), b"".to_vec(), b"gamma ray".to_vec()];
    let mut bytes = Vec::new();
    for m in &msgs {
        bytes.extend_from_slice(&wire(m));
    }
    let mut dec = FrameDecoder::new();
    let mut got: Vec<Vec<u8>> = Vec::new();
    for b in bytes {
        dec.feed(&[b]);
        got.extend(drain(&mut dec));
    }
    assert_eq!(got, msgs);
    assert_eq!(dec.pending_len(), 0);
}

#[test]
fn frames_split_at_arbitrary_boundaries() {
    let msgs: Vec<Vec<u8>> = vec![
        b"first message".to_vec(),
        b"second".to_vec(),
        b"third with \r\n\r\n inside".to_vec(),
        b"fourth".to_vec(),
    ];
    let mut bytes = Vec::new();
    for m in &msgs {
        bytes.extend_from_slice(&wire(m));
    }
    let mut dec = FrameDecoder::new();
    let mut got: Vec<Vec<u8>> = Vec::new();
    let mut rest: &[u8] = &bytes;
    let cuts = [1usize, 7, 3, 19, 2, 30, 11];
    let mut ci = 0;
    while !rest.is_empty() {
        let n = cuts[ci % cuts.len()].min(rest.len());
        ci += 1;
        let (chunk, tail) = rest.split_at(n);
        dec.feed(chunk);
        got.extend(drain(&mut dec));
        rest = tail;
    }
    assert_eq!(got, msgs);
    assert_eq!(dec.pending_len(), 0);
}

#[test]
fn need_more_until_payload_complete() {
    let payload = b"0123456789".to_vec();
    let full = wire(&payload);
    let mut dec = FrameDecoder::new();
    dec.feed(&full[..full.len() - 3]);
    assert!(matches!(dec.next_frame(), FrameStep::NeedMore));
    dec.feed(&full[full.len() - 3..]);
    match dec.next_frame() {
        FrameStep::Frame(p) => assert_eq!(p, payload),
        other => panic!("expected a frame, got {:?}", other),
    }
}

#[test]
fn malformed_header_name() {
    let mut dec = FrameDecoder::new();
    dec.feed(b"Content-Size: 5\r\n\r\nhello");
    assert!(matches!(dec.next_frame(), FrameStep::Malformed));
}

#[test]
fn malformed_non_digit_length() {
    let mut dec = FrameDecoder::new();
    dec.feed(b"Content-Length: 5a\r\n\r\n");
    assert!(matches!(dec.next_frame(), FrameStep::Malformed));
}

#[test]
fn malformed_empty_length() {
    let mut dec = FrameDecoder::new();
    dec.feed(b"Content-Length: \r\n\r\n");
    assert!(matches!(dec.next_frame(), FrameStep::Malformed));
}

#[test]
fn malformed_leading_zero_length() {
    let mut dec = FrameDecoder::new();
    dec.feed(b"Content-Length: 007\r\n\r\nabcdefg");
    assert!(matches!(dec.next_frame(), FrameStep::Malformed));
}

#[test]
fn malformed_oversized_length() {
    let mut dec = FrameDecoder::new();
    dec.feed(b"Content-Length: 99999999999999999999\r\n\r\n");
    assert!(matches!(dec.next_frame(), FrameStep::Malformed));
}

#[test]
fn zero_length_header_is_valid() {
    let mut dec = FrameDecoder::new();
    dec.feed(b"Content-Length: 0\r\n\r\n");
    match dec.next_frame() {
        FrameStep::Frame(p) => assert_eq!(p, Vec::<u8>::new()),
        other => panic!("expected a frame, got {:?}", other),
    }
}

#[test]
fn stream_end_between_frames_is_clean() {
    let mut dec = FrameDecoder::new();
    dec.feed(&wire(b"bye"));
    drain(&mut dec);
    assert_eq!(end_of_stream_outcome(&dec), None);
}

#[test]
fn stream_end_mid_frame_is_connection_closed() {
    let mut dec = FrameDecoder::new();
    dec.feed(b"Content-Length: 10\r\n\r\nhal");
    drain(&mut dec);
    assert_eq!(end_of_stream_outcome(&dec), Some(AdapterError::ConnectionClosed));
}

#[test]
fn pump_moves_decoded_frames_into_the_channel() {
    let msgs: Vec<Vec<u8>> = vec![b"req 1".to_vec(), b"req 2".to_vec()];
    let mut bytes = Vec::new();
    for m in &msgs {
        bytes.extend_from_slice(&wire(m));
    }
    let mut dec = FrameDecoder::new();
    let mut ch = Channel::new();
    dec.feed(&bytes);
    assert_eq!(pump_inbound(&mut dec, &mut ch), None);
    assert_eq!(ch.recv(), Some(b"req 1".to_vec()));
    assert_eq!(ch.recv(), Some(b"req 2".to_vec()));
    assert_eq!(ch.recv(), None);

    ch.send(b"resp 1".to_vec());
    ch.send(b"resp 2".to_vec());
    let mut out = Vec::new();
    pump_outbound(&mut ch, &mut out);
    let mut expected = wire(b"resp 1");
    expected.extend_from_slice(&wire(b"resp 2"));
    assert_eq!(out, expected);
}

#[test]
fn pump_reports_protocol_error_on_malformed_input() {
    let mut dec = FrameDecoder::new();
    let mut ch = Channel::new();
    dec.feed(b"Content-Length: zz\r\n\r\n");
    assert_eq!(pump_inbound(&mut dec, &mut ch), Some(AdapterError::Protocol));
}

#[test]
fn extra_header_lines_are_skipped() {
    let mut dec = FrameDecoder::new();
    dec.feed(b"Content-Length: 5\r\nX-Other: yes\r\n\r\nhello");
    match dec.next_frame() {
        FrameStep::Frame(p) => assert_eq!(p, b"hello".to_vec()),
        other => panic!("expected a frame, got {:?}", other),
    }
    assert_eq!(dec.pending_len(), 0);
}

#[test]
fn length_line_must_lead_the_block() {
    let mut dec = FrameDecoder::new();
    dec.feed(b"X-Other: yes\r\nContent-Length: 5\r\n\r\nhello");
    assert!(matches!(dec.next_frame(), FrameStep::Malformed));
}
