use framelink::error::FrameError;
use framelink::frame::Frame;

// deterministic byte stream (xorshift) standing in for arbitrary payloads
fn pseudo_random_bytes(seed: u32, len: usize, zero_every: usize) -> Vec<u8> {
    let mut x = seed | 1;
    let mut out = Vec::with_capacity(len);
    for i in 0..len {
        x ^= x << 13;
        x ^= x >> 17;
        x ^= x << 5;
        let b = (x & 0xFF) as u8;
        out.push(if zero_every != 0 && i % zero_every == 0 { 0 } else { b });
    }
    out
}

fn encode_vec<const N: usize>(payload: &[u8]) -> Vec<u8> {
    let frame = Frame::<N>::new(payload).unwrap();
    let mut out = [0u8; 256];
    let n = frame.encode(&mut out).unwrap();
    out[..n].to_vec()
}

#[test]
fn roundtrip_many_payloads() {
    for len in 0..64usize {
        for (seed, zero_every) in [(7u32, 0usize), (99, 3), (1234, 1), (5, 7)] {
            let payload = pseudo_random_bytes(seed + len as u32, len, zero_every);
            let encoded = encode_vec::<64>(&payload);
            let decoded = Frame::<64>::decode(&encoded).unwrap();
            assert_eq!(decoded.payload(), payload.as_slice());
        }
    }
}

#[test]
fn roundtrip_all_zero_payloads() {
    for len in 0..64usize {
        let payload = vec![0u8; len];
        let encoded = encode_vec::<64>(&payload);
        let decoded = Frame::<64>::decode(&encoded).unwrap();
        assert_eq!(decoded.payload(), payload.as_slice());
    }
}

#[test]
fn encoded_frame_is_payload_plus_four_with_single_zero_at_end() {
    for len in 0..64usize {
        let payload = pseudo_random_bytes(31 + len as u32, len, 5);
        let encoded = encode_vec::<64>(&payload);
        assert_eq!(encoded.len(), payload.len() + 4);
        assert_eq!(*encoded.last().unwrap(), 0);
        assert!(encoded[..encoded.len() - 1].iter().all(|&b| b != 0));
    }
}

#[test]
fn encode_writes_exact_cobs_bytes() {
    let payload = [0x11u8, 0x00, 0x22];
    let crc = Frame::<8>::crc16(&payload);
    let (hi, lo) = ((crc >> 8) as u8, (crc & 0xFF) as u8);
    assert_ne!(hi, 0);
    assert_ne!(lo, 0);
    let encoded = encode_vec::<8>(&payload);
    assert_eq!(encoded, vec![0x02, 0x11, 0x04, 0x22, hi, lo, 0x00]);
}

#[test]
fn encode_leaves_open_code_byte_when_buffer_runs_out() {
    let frame = Frame::<8>::new(&[0x11, 0x22, 0x33]).unwrap();
    let mut out = [0xEEu8; 3];
    assert!(matches!(frame.encode(&mut out), Err(FrameError::BufferTooSmall)));
    // the code byte of the unfinished block is not written; data bytes that fit are
    assert_eq!(out, [0xEE, 0x11, 0x22]);
}

#[test]
fn encode_leaves_bytes_past_the_frame_untouched() {
    let frame = Frame::<8>::new(&[0x01]).unwrap();
    let mut out = [0xEEu8; 8];
    let n = frame.encode(&mut out).unwrap();
    assert_eq!(n, 5);
    assert_eq!(&out[5..], &[0xEE, 0xEE, 0xEE]);
}

#[test]
fn encode_needs_exactly_payload_plus_four_bytes() {
    let frame = Frame::<8>::new(&[0x01, 0x02]).unwrap();
    let mut exact = [0u8; 6];
    assert_eq!(frame.encode(&mut exact).unwrap(), 6);
    let mut short = [0u8; 5];
    assert!(matches!(frame.encode(&mut short), Err(FrameError::BufferTooSmall)));
}

#[test]
fn new_rejects_payload_above_capacity() {
    assert!(matches!(Frame::<2>::new(&[1, 2, 3]), Err(FrameError::PayloadTooLarge)));
    assert_eq!(Frame::<3>::new(&[1, 2, 3]).unwrap().payload(), &[1, 2, 3]);
}

#[test]
fn decode_empty_input_is_invalid_length() {
    assert!(matches!(Frame::<8>::decode(&[]), Err(FrameError::InvalidLength)));
}

#[test]
fn decode_zero_code_byte_is_invalid_length() {
    assert!(matches!(Frame::<8>::decode(&[0x00, 0x01]), Err(FrameError::InvalidLength)));
}

#[test]
fn decode_without_terminator_is_invalid_length() {
    let encoded = encode_vec::<8>(&[1, 2, 3]);
    assert!(matches!(
        Frame::<8>::decode(&encoded[..encoded.len() - 1]),
        Err(FrameError::InvalidLength)
    ));
}

#[test]
fn decode_flipped_data_byte_is_crc_mismatch() {
    let mut encoded = encode_vec::<8>(&[0x10, 0x20, 0x30, 0x40]);
    encoded[2] ^= 0xFF;
    assert!(matches!(Frame::<8>::decode(&encoded), Err(FrameError::CrcMismatch)));
}

#[test]
fn decode_short_frame_is_crc_mismatch() {
    // one data byte and the terminator: too short to hold a CRC
    assert!(matches!(Frame::<8>::decode(&[0x02, 0x55, 0x00]), Err(FrameError::CrcMismatch)));
    assert!(matches!(Frame::<8>::decode(&[0x01, 0x00]), Err(FrameError::CrcMismatch)));
}

#[test]
fn decode_payload_above_capacity_is_buffer_too_small() {
    let encoded = encode_vec::<16>(&[1, 2, 3, 4, 5, 6]);
    assert!(matches!(Frame::<4>::decode(&encoded), Err(FrameError::BufferTooSmall)));
    assert_eq!(Frame::<6>::decode(&encoded).unwrap().payload(), &[1, 2, 3, 4, 5, 6]);
}

#[test]
fn decode_ignores_bytes_after_terminator() {
    let mut encoded = encode_vec::<8>(&[9, 8, 7]);
    encoded.extend_from_slice(&[0x42, 0x00, 0x13]);
    assert_eq!(Frame::<8>::decode(&encoded).unwrap().payload(), &[9, 8, 7]);
}

#[test]
fn crc16_of_empty_input_is_initial_register() {
    assert_eq!(Frame::<1>::crc16(&[]), 0xFFFF);
}

fn encode_big<const N: usize>(payload: &[u8]) -> Vec<u8> {
    let frame = Frame::<N>::new(payload).unwrap();
    let mut out = vec![0u8; payload.len() + 16];
    let n = frame.encode(&mut out).unwrap();
    out.truncate(n);
    out
}

#[test]
fn long_runs_are_split_into_full_blocks() {
    // 300 non-zero bytes: full blocks of 254 bytes open with 0xFF
    let payload = vec![0x11u8; 300];
    let encoded = encode_big::<300>(&payload);
    assert_eq!(encoded[0], 0xFF);
    assert!(encoded.len() <= payload.len() + 3 + (payload.len() + 2 + 253) / 254);
    assert!(encoded.len() > payload.len() + 4);
    assert_eq!(*encoded.last().unwrap(), 0);
    assert!(encoded[..encoded.len() - 1].iter().all(|&b| b != 0));
    assert_eq!(Frame::<300>::decode(&encoded).unwrap().payload(), payload.as_slice());
}

#[test]
fn runs_around_a_full_block_roundtrip() {
    for run in [252usize, 253, 254, 255, 256, 507, 508, 509] {
        for zero_after in [false, true] {
            let mut payload = vec![0x5Au8; run];
            if zero_after {
                payload.push(0);
                payload.push(0x07);
            }
            let encoded = encode_big::<600>(&payload);
            assert!(encoded[..encoded.len() - 1].iter().all(|&b| b != 0));
            assert_eq!(Frame::<600>::decode(&encoded).unwrap().payload(), payload.as_slice());
        }
    }
}

#[test]
fn full_block_carries_no_zero() {
    // a 0xFF block followed by another block stands for its bytes alone
    let mut raw = vec![0xFFu8];
    raw.extend_from_slice(&[0x22u8; 254]);
    raw.extend_from_slice(&[0x03, 0x44, 0x55, 0x00]);
    // the decoder unstuffs 254 + 2 bytes, too many for a frame of 200
    assert!(matches!(Frame::<200>::decode(&raw), Err(FrameError::BufferTooSmall)));
    // with room for them, the CRC is checked over the 254 bytes
    assert!(matches!(Frame::<300>::decode(&raw), Err(FrameError::CrcMismatch)));
}

#[test]
fn frame_length_meets_the_cobs_bound_at_block_multiples() {
    // payload + CRC of exactly two full blocks: no extra code byte at the end
    let payload = vec![0x11u8; 506];
    let crc = Frame::<600>::crc16(&payload);
    assert!(crc >> 8 != 0 && crc & 0xFF != 0);
    let encoded = encode_big::<600>(&payload);
    assert_eq!(encoded.len(), 506 + 2 + 2 + 1);
    assert_eq!(Frame::<600>::decode(&encoded).unwrap().payload(), payload.as_slice());
}

#[test]
fn data_byte_changed_to_zero_is_crc_mismatch() {
    // the decoder copies a block's bytes as they come, so the zero does not
    // end the frame early; the CRC catches the change
    let mut encoded = encode_vec::<8>(&[0x10, 0x20, 0x30, 0x40]);
    encoded[3] = 0x00;
    assert!(matches!(Frame::<8>::decode(&encoded), Err(FrameError::CrcMismatch)));
}
