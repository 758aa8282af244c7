//! The length-prefixed framing layer: round trips, back-to-back frames,
//! the oversize cap, and incomplete buffers.

use oxretro::framing::encode_message_stream;
use oxretro::framing::read_frame;
use oxretro::framing::write_frame;
use oxretro::framing::FrameError;
use oxretro::framing::MAX_BODY_LEN;
use oxretro::messages::ProtocolMessage;
use oxretro::messages::ProtocolMessageType;

#[test]
fn frame_layout_is_length_then_body() {
    let body = vec![0xAAu8, 0xBB, 0xCC];
    let frame = write_frame(&body);
    assert_eq!(frame, vec![3, 0, 0, 0, 0, 0, 0, 0, 0xAA, 0xBB, 0xCC]);
}

#[test]
fn two_frames_read_back_in_order() {
    let a = vec![1u8, 2, 3];
    let b = vec![9u8];
    let mut stream = write_frame(&a);
    stream.extend_from_slice(&write_frame(&b));
    let (first, next) = read_frame(&stream, 0).expect("first frame");
    assert_eq!(first, a);
    let (second, end) = read_frame(&stream, next).expect("second frame");
    assert_eq!(second, b);
    assert_eq!(end, stream.len());
}

#[test]
fn empty_body_frames() {
    let empty: Vec<u8> = Vec::new();
    let frame = write_frame(&empty);
    assert_eq!(frame.len(), 8);
    let (body, end) = read_frame(&frame, 0).expect("empty frame");
    assert!(body.is_empty());
    assert_eq!(end, 8);
}

#[test]
fn oversize_length_is_a_distinct_error() {
    // A length of 2^40 announces a body far over the 64 MiB cap.
    let mut stream = vec![0u8; 8];
    stream[5] = 1;
    assert_eq!(read_frame(&stream, 0), Err(FrameError::Oversize));
    // One byte over the cap is oversize even before any body arrives; at
    // the cap the frame is merely incomplete until its body shows up.
    let over = (MAX_BODY_LEN + 1).to_le_bytes().to_vec();
    assert_eq!(read_frame(&over, 0), Err(FrameError::Oversize));
    let at_cap = MAX_BODY_LEN.to_le_bytes().to_vec();
    assert_eq!(read_frame(&at_cap, 0), Err(FrameError::Incomplete));
}

#[test]
fn incomplete_frames_are_reported_as_incomplete() {
    let body = vec![1u8, 2, 3, 4];
    let frame = write_frame(&body);
    for cut in 0..frame.len() {
        let partial: Vec<u8> = frame[..cut].to_vec();
        assert_eq!(read_frame(&partial, 0), Err(FrameError::Incomplete));
    }
}

#[test]
fn message_stream_is_concatenation_of_frames() {
    let messages = vec![
        ProtocolMessage { id: 0, data: ProtocolMessageType::SystemInfo },
        ProtocolMessage { id: 1, data: ProtocolMessageType::Run },
        ProtocolMessage { id: 2, data: ProtocolMessageType::Load("rom.gba".to_string()) },
    ];
    let stream = encode_message_stream(&messages);
    let mut by_hand: Vec<u8> = Vec::new();
    for message in &messages {
        by_hand.extend_from_slice(&oxretro::framing::frame_message(message));
    }
    assert_eq!(stream, by_hand);
    // And the frames read back in order.
    let (first, p1) = read_frame(&stream, 0).unwrap();
    let (second, p2) = read_frame(&stream, p1).unwrap();
    let (third, p3) = read_frame(&stream, p2).unwrap();
    assert_eq!(p3, stream.len());
    assert_eq!(oxretro::codec::deserialize_message(&first).unwrap(), messages[0]);
    assert_eq!(oxretro::codec::deserialize_message(&second).unwrap(), messages[1]);
    assert_eq!(oxretro::codec::deserialize_message(&third).unwrap(), messages[2]);
}
