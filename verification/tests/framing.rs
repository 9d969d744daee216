//! The length-prefixed frame layer: delivery, incremental feeding, and
//! recovery after an oversized frame.
use bridge_priv_rs::framing::{encode_frame, FrameReader, FrameStep};
use bridge_priv_rs::MAX_FRAME_LEN;

#[test]
fn test_encode_frame_prefix() {
    let framed = encode_frame(&vec![1, 2, 3]).expect("small payload should frame");
    assert_eq!(framed, vec![3, 0, 0, 0, 1, 2, 3]);
}

#[test]
fn test_frame_delivery() {
    let framed = encode_frame(&vec![5, 6, 7, 8]).unwrap();
    let mut reader = FrameReader::new();
    reader.push(&framed);
    assert_eq!(reader.next_frame(), FrameStep::Frame(vec![5, 6, 7, 8]));
    assert_eq!(reader.next_frame(), FrameStep::NeedMore);
}

#[test]
fn test_frame_incremental_feed() {
    let framed = encode_frame(&vec![9, 9, 9]).unwrap();
    let mut reader = FrameReader::new();
    reader.push(&framed[..2]);
    assert_eq!(reader.next_frame(), FrameStep::NeedMore);
    reader.push(&framed[2..5]);
    assert_eq!(reader.next_frame(), FrameStep::NeedMore);
    reader.push(&framed[5..]);
    assert_eq!(reader.next_frame(), FrameStep::Frame(vec![9, 9, 9]));
}

#[test]
fn test_two_frames_in_one_read() {
    let mut bytes = encode_frame(&vec![1]).unwrap();
    bytes.extend_from_slice(&encode_frame(&vec![2, 2]).unwrap());
    let mut reader = FrameReader::new();
    reader.push(&bytes);
    assert_eq!(reader.next_frame(), FrameStep::Frame(vec![1]));
    assert_eq!(reader.next_frame(), FrameStep::Frame(vec![2, 2]));
    assert_eq!(reader.next_frame(), FrameStep::NeedMore);
}

#[test]
fn test_oversized_frame_is_refused_then_skipped() {
    let too_big = (MAX_FRAME_LEN + 1) as u32;
    let mut reader = FrameReader::new();
    reader.push(&too_big.to_le_bytes());
    assert_eq!(reader.next_frame(), FrameStep::TooBig);
    // The declared bytes arrive and are discarded; a well-formed frame
    // after them still comes through.
    reader.push(&vec![0u8; MAX_FRAME_LEN + 1]);
    reader.push(&encode_frame(&vec![4, 2]).unwrap());
    assert_eq!(reader.next_frame(), FrameStep::Frame(vec![4, 2]));
}

#[test]
fn test_encode_frame_refuses_oversized_payload() {
    assert!(encode_frame(&vec![0u8; MAX_FRAME_LEN + 1]).is_none());
}
