use framelink::error::FrameError;
use framelink::frame::Frame;

// helper — creates a Frame and encodes it, panics if either step fails
fn encode_payload<const N: usize>(payload: &[u8], out: &mut [u8]) -> usize {
    Frame::<N>::new(payload)
        .expect("Frame::new failed")
        .encode(out)
        .expect("encode failed")
}

#[test]
fn encoded_output_ends_with_zero() {
    let mut out = [0u8; 32];
    let n = encode_payload::<16>(&[0x11, 0x22, 0x33], &mut out);
    assert_eq!(out[n - 1], 0x00, "last byte must be the COBS terminator");
}

#[test]
fn encoded_output_has_no_zero_before_terminator() {
    let mut out = [0u8; 32];
    let n = encode_payload::<3>(&[0x11, 0x00, 0x22], &mut out);
    // every byte except the last must be non-zero
    for (i, &b) in out[..n - 1].iter().enumerate() {
        assert_ne!(b, 0x00, "unexpected 0x00 at position {i} before terminator");
    }
}

#[test]
fn empty_payload_encodes() {
    // empty payload + 2 CRC bytes, all non-zero after COBS
    let mut out = [0u8; 16];
    let n = encode_payload::<16>(&[], &mut out);
    assert!(n > 0);
    assert_eq!(out[n - 1], 0x00);
}

#[test]
fn encoded_length_no_zeros_in_payload() {
    // payload with no zeros: COBS overhead = 1 byte, CRC = 2 bytes, terminator = 1 byte
    // total = payload.len() + 4
    let payload = [0x11u8; 8];
    let mut out = [0u8; 32];
    let n = encode_payload::<16>(&payload, &mut out);
    assert_eq!(n, payload.len() + 4);
}

#[test]
fn encode_returns_err_when_out_too_small() {
    let frame = Frame::<16>::new(&[0x11, 0x22, 0x33]).unwrap();
    let mut tiny = [0u8; 2]; // nowhere near large enough
    assert!(matches!(
        frame.encode(&mut tiny),
        Err(FrameError::BufferTooSmall)
    ));
}

#[test]
fn roundtrip_no_zeros() {
    let payload = &[0x11u8, 0x22, 0x33];
    let mut out = [0u8; 32];
    let n = encode_payload::<16>(payload, &mut out);
    let frame = Frame::<16>::decode(&out[..n]).expect("decode failed");
    assert_eq!(frame.payload(), payload);
}

#[test]
fn roundtrip_payload_containing_zeros() {
    let payload = &[0x11u8, 0x00, 0x22, 0x00, 0x33];
    let mut out = [0u8; 32];
    let n = encode_payload::<16>(payload, &mut out);
    let frame = Frame::<16>::decode(&out[..n]).expect("decode failed");
    assert_eq!(frame.payload(), payload);
}
