use std::cell::{Cell, RefCell};
use std::collections::VecDeque;
use std::rc::Rc;

use framelink::emulator::UartEmulator;
use framelink::error::FrameError;
use framelink::frame::Frame;
use framelink::protocol::{ControlByte, Protocol, ProtocolError};
use framelink::transport::{Transport, TransportError};

// a transport whose bytes the test hands in and reads back
#[derive(Clone, Default)]
struct Wire {
    incoming: Rc<RefCell<VecDeque<u8>>>,
    written: Rc<RefCell<Vec<u8>>>,
    fail_writes: Rc<Cell<bool>>,
}

impl Wire {
    fn feed(&self, bytes: &[u8]) {
        self.incoming.borrow_mut().extend(bytes.iter().copied());
    }

    fn take_written(&self) -> Vec<u8> {
        std::mem::take(&mut *self.written.borrow_mut())
    }
}

impl Transport for Wire {
    // the records of written and taken bytes exist for verification only
    fn written(&self) -> vstd::seq::Seq<u8> {
        vstd::seq::Seq::empty()
    }

    fn taken(&self) -> vstd::seq::Seq<u8> {
        vstd::seq::Seq::empty()
    }

    fn write_bytes(&mut self, data: &[u8]) -> Result<(), TransportError> {
        if self.fail_writes.get() {
            return Err(TransportError::FailedWrite);
        }
        self.written.borrow_mut().extend_from_slice(data);
        Ok(())
    }

    fn read_byte(&mut self) -> Result<u8, TransportError> {
        self.incoming.borrow_mut().pop_front().ok_or(TransportError::FailedRead)
    }

    fn flush(&mut self) -> Result<(), TransportError> {
        Ok(())
    }
}

fn poll<T: Transport, const N: usize, const R: u8>(
    p: &mut Protocol<T, N, R>,
) -> Result<Option<Vec<u8>>, ProtocolError> {
    loop {
        if let Some(r) = p.poll_once() {
            return r;
        }
    }
}

fn encoded<const N: usize>(payload: &[u8]) -> Vec<u8> {
    let mut out = [0u8; 256];
    let n = Frame::<N>::new(payload).unwrap().encode(&mut out).unwrap();
    out[..n].to_vec()
}

#[test]
fn send_writes_the_encoded_frame() {
    let wire = Wire::default();
    let mut p: Protocol<Wire, 16, 3> = Protocol::new(wire.clone());
    p.send(&[1, 0, 2]).unwrap();
    assert_eq!(wire.take_written(), encoded::<16>(&[1, 0, 2]));
}

#[test]
fn nak_resends_until_retries_run_out() {
    let wire = Wire::default();
    let mut p: Protocol<Wire, 16, 3> = Protocol::new(wire.clone());
    p.send(&[5, 6, 7]).unwrap();
    let frame = wire.take_written();
    for _ in 0..3 {
        wire.feed(&[0xFF, 0x00]);
        assert!(matches!(poll(&mut p), Ok(None)));
        assert_eq!(wire.take_written(), frame);
    }
    wire.feed(&[0xFF, 0x00]);
    assert!(matches!(poll(&mut p), Err(ProtocolError::MaxRetriesExceeded)));
    assert!(wire.take_written().is_empty());
}

#[test]
fn ack_ends_the_wait_for_a_frame() {
    let wire = Wire::default();
    let mut p: Protocol<Wire, 16, 3> = Protocol::new(wire.clone());
    p.send(&[5]).unwrap();
    wire.take_written();
    wire.feed(&[0xAA, 0x00]);
    assert!(matches!(poll(&mut p), Ok(None)));
    // nothing is waiting for an ACK any more, so a NAK has nothing to resend
    wire.feed(&[0xFF, 0x00]);
    assert!(matches!(poll(&mut p), Err(ProtocolError::MaxRetriesExceeded)));
    assert!(wire.take_written().is_empty());
}

#[test]
fn received_frame_is_delivered_and_acknowledged() {
    let wire = Wire::default();
    let mut p: Protocol<Wire, 16, 3> = Protocol::new(wire.clone());
    wire.feed(&encoded::<16>(&[0x10, 0x00, 0x20]));
    assert_eq!(poll(&mut p).unwrap(), Some(vec![0x10, 0x00, 0x20]));
    assert_eq!(wire.take_written(), vec![0xAA, 0x00]);
}

#[test]
fn corrupted_frame_is_answered_with_nak() {
    let wire = Wire::default();
    let mut p: Protocol<Wire, 16, 3> = Protocol::new(wire.clone());
    let mut bytes = encoded::<16>(&[0x10, 0x20, 0x30]);
    bytes[2] ^= 0xFF;
    wire.feed(&bytes);
    assert!(matches!(poll(&mut p), Ok(None)));
    assert_eq!(wire.take_written(), vec![0xFF, 0x00]);
}

#[test]
fn malformed_frame_is_a_frame_error() {
    let wire = Wire::default();
    let mut p: Protocol<Wire, 16, 3> = Protocol::new(wire.clone());
    wire.feed(&[0x05, 0x01, 0x00]);
    assert!(matches!(
        poll(&mut p),
        Err(ProtocolError::FrameError(FrameError::InvalidLength))
    ));
    assert!(wire.take_written().is_empty());
}

#[test]
fn overlong_frame_overflows_receive_buffer() {
    let wire = Wire::default();
    let mut p: Protocol<Wire, 16, 3> = Protocol::new(wire.clone());
    wire.feed(&[0x01; 257]);
    assert!(matches!(
        poll(&mut p),
        Err(ProtocolError::FrameError(FrameError::BufferTooSmall))
    ));
}

#[test]
fn send_rejects_payload_above_capacity() {
    let wire = Wire::default();
    let mut p: Protocol<Wire, 4, 3> = Protocol::new(wire.clone());
    assert!(matches!(
        p.send(&[1, 2, 3, 4, 5]),
        Err(ProtocolError::FrameError(FrameError::PayloadTooLarge))
    ));
    assert!(wire.take_written().is_empty());
}

#[test]
fn send_rejects_frame_longer_than_its_buffer() {
    let wire = Wire::default();
    let mut p: Protocol<Wire, 300, 3> = Protocol::new(wire.clone());
    let payload = vec![0u8; 253];
    assert!(matches!(
        p.send(&payload),
        Err(ProtocolError::FrameError(FrameError::BufferTooSmall))
    ));
    assert!(wire.take_written().is_empty());
}

#[test]
fn failed_write_is_a_transport_error() {
    let wire = Wire::default();
    let mut p: Protocol<Wire, 16, 3> = Protocol::new(wire.clone());
    wire.fail_writes.set(true);
    assert!(matches!(p.send(&[1]), Err(ProtocolError::Transport)));
}

#[test]
fn two_ends_over_the_emulator_exchange_a_frame() {
    let mut emulator = UartEmulator::default();
    let (a, b) = emulator.split();
    let mut sender: Protocol<_, 32, 3> = Protocol::new(a);
    let mut receiver: Protocol<_, 32, 3> = Protocol::new(b);
    sender.send(&[0xDE, 0xAD, 0x00, 0xBE, 0xEF]).unwrap();
    assert_eq!(poll(&mut receiver).unwrap(), Some(vec![0xDE, 0xAD, 0x00, 0xBE, 0xEF]));
    // the sender reads the ACK and has nothing more to read
    assert!(matches!(poll(&mut sender), Ok(None)));
}

#[test]
fn control_bytes_and_frame_error_conversion() {
    assert_eq!(ControlByte::Ack.value(), 0xAA);
    assert_eq!(ControlByte::Nak.value(), 0xFF);
    assert_eq!(
        ProtocolError::from(FrameError::CrcMismatch),
        ProtocolError::FrameError(FrameError::CrcMismatch)
    );
}

#[test]
fn two_frames_in_a_row_are_both_delivered() {
    let wire = Wire::default();
    let mut p: Protocol<Wire, 16, 3> = Protocol::new(wire.clone());
    wire.feed(&encoded::<16>(&[1, 2]));
    wire.feed(&encoded::<16>(&[0, 3, 0]));
    assert_eq!(poll(&mut p).unwrap(), Some(vec![1, 2]));
    assert_eq!(poll(&mut p).unwrap(), Some(vec![0, 3, 0]));
    assert!(matches!(poll(&mut p), Ok(None)));
    assert_eq!(wire.take_written(), vec![0xAA, 0x00, 0xAA, 0x00]);
}

#[test]
fn largest_payload_that_fits_the_send_buffer_is_sent() {
    let wire = Wire::default();
    let mut p: Protocol<Wire, 300, 3> = Protocol::new(wire.clone());
    let mut payload = vec![0x01u8; 252];
    payload[100] = 0;
    p.send(&payload).unwrap();
    let written = wire.take_written();
    assert_eq!(written.len(), 256);
    assert_eq!(Frame::<300>::decode(&written).unwrap().payload(), payload.as_slice());
}

#[test]
fn full_block_payload_fills_the_send_buffer_exactly() {
    // 252 non-zero bytes and a non-zero CRC make one full block of 254 bytes
    let wire = Wire::default();
    let mut p: Protocol<Wire, 300, 3> = Protocol::new(wire.clone());
    let payload = vec![0x01u8; 252];
    let crc = Frame::<300>::crc16(&payload);
    assert!(crc >> 8 != 0 && crc & 0xFF != 0);
    p.send(&payload).unwrap();
    let written = wire.take_written();
    assert_eq!(written.len(), 256);
    assert_eq!(written[0], 0xFF);
    assert_eq!(Frame::<300>::decode(&written).unwrap().payload(), payload.as_slice());
}
