use bytes::BytesMut;
use rmc_core::errors::WireError;
use rmc_core::frame::{be32_read, be32_write, encode_frame, extract_frames, try_extract_frame, FRAME_MAX_LEN};

fn frame_of(payload: &[u8]) -> Vec<u8> {
    encode_frame(payload).expect("payload length in range")
}

#[test]
fn be32_round_trips() {
    for n in [0u32, 1, 255, 256, 0xdead_beef, u32::MAX] {
        let b = be32_write(n);
        assert_eq!(b.len(), 4);
        assert_eq!(be32_read(b[0], b[1], b[2], b[3]), n);
    }
    assert_eq!(be32_write(1), vec![0, 0, 0, 1]);
    assert_eq!(be32_write(0x0102_0304), vec![1, 2, 3, 4]);
}

#[test]
fn frame_round_trip() {
    let payload = b"hello world";
    let encoded = frame_of(payload);
    assert_eq!(encoded.len(), payload.len() + 4);
    let mut buf = BytesMut::new();
    buf.extend_from_slice(&encoded);
    let got = try_extract_frame(&mut buf).unwrap().unwrap();
    assert_eq!(got, payload.to_vec());
    assert_eq!(buf.len(), 0);
    assert!(try_extract_frame(&mut buf).unwrap().is_none());
}

#[test]
fn frame_round_trip_largest() {
    let payload = vec![0xabu8; FRAME_MAX_LEN - 1];
    let encoded = frame_of(&payload);
    let mut buf = BytesMut::new();
    buf.extend_from_slice(&encoded);
    let got = try_extract_frame(&mut buf).unwrap().unwrap();
    assert_eq!(got.len(), FRAME_MAX_LEN - 1);
    assert_eq!(got, payload);
    assert_eq!(buf.len(), 0);
}

#[test]
fn partial_read_reassembly_every_boundary() {
    let payload = b"abc";
    let encoded = frame_of(payload);
    for cut in 0..encoded.len() {
        let mut buf = BytesMut::new();
        buf.extend_from_slice(&encoded[..cut]);
        // an incomplete frame consumes nothing
        assert!(try_extract_frame(&mut buf).unwrap().is_none());
        assert_eq!(buf.len(), cut);
        buf.extend_from_slice(&encoded[cut..]);
        let got = try_extract_frame(&mut buf).unwrap().unwrap();
        assert_eq!(got, payload.to_vec());
        assert_eq!(buf.len(), 0);
    }
}

#[test]
fn oversize_prefix_rejected() {
    for bad in [2 * 1024 * 1024u32, 2 * 1024 * 1024 + 7, u32::MAX] {
        let mut buf = BytesMut::new();
        buf.extend_from_slice(&be32_write(bad));
        assert_eq!(try_extract_frame(&mut buf), Err(WireError::FrameTooLarge));
    }
}

#[test]
fn zero_prefix_rejected() {
    let mut buf = BytesMut::new();
    buf.extend_from_slice(&[0, 0, 0, 0]);
    buf.extend_from_slice(b"junk that must not be skipped");
    assert_eq!(try_extract_frame(&mut buf), Err(WireError::FrameTooLarge));
}

#[test]
fn encode_frame_rejects_out_of_range_payloads() {
    assert_eq!(encode_frame(&[]), Err(WireError::FrameTooLarge));
    let huge = vec![0u8; FRAME_MAX_LEN];
    assert_eq!(encode_frame(&huge), Err(WireError::FrameTooLarge));
}

#[test]
fn coalesced_frames_in_order() {
    let a = b"first";
    let b = b"second frame";
    let mut buf = BytesMut::new();
    buf.extend_from_slice(&frame_of(a));
    buf.extend_from_slice(&frame_of(b));
    assert_eq!(try_extract_frame(&mut buf).unwrap().unwrap(), a.to_vec());
    assert_eq!(try_extract_frame(&mut buf).unwrap().unwrap(), b.to_vec());
    assert!(try_extract_frame(&mut buf).unwrap().is_none());
    assert_eq!(buf.len(), 0);
}

#[test]
fn extract_frames_drains_everything() {
    let a = b"one";
    let b = b"two";
    let mut buf = BytesMut::new();
    buf.extend_from_slice(&frame_of(a));
    buf.extend_from_slice(&frame_of(b));
    buf.extend_from_slice(&[0, 0]);  // a trailing partial prefix stays buffered
    let (frames, err) = extract_frames(&mut buf);
    assert_eq!(frames, vec![a.to_vec(), b.to_vec()]);
    assert_eq!(err, None);
    assert_eq!(buf.len(), 2);
}

#[test]
fn extract_frames_keeps_frames_before_an_error() {
    let a = b"good";
    let mut buf = BytesMut::new();
    buf.extend_from_slice(&frame_of(a));
    buf.extend_from_slice(&[0, 0, 0, 0]);
    let (frames, err) = extract_frames(&mut buf);
    assert_eq!(frames, vec![a.to_vec()]);
    assert_eq!(err, Some(WireError::FrameTooLarge));
}

#[test]
fn error_texts() {
    assert_eq!(WireError::FrameTooLarge.text(), "Message too long");
    assert_eq!(WireError::BadUtf8.text(), "invalid utf-8 data");
    assert_eq!(WireError::BadMessage.text(), "malformed message");
}
