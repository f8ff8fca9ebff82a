use framelink::emulator::UartEmulator;
use framelink::transport::Transport;

#[test]
fn side_a_sends_side_b_receives() {
    let mut emulator = UartEmulator::default();
    let (mut a, mut b) = emulator.split();
    a.write_bytes(&[0x01, 0x02, 0x03]).unwrap();
    assert_eq!(b.read_byte().unwrap(), 0x01);
    assert_eq!(b.read_byte().unwrap(), 0x02);
    assert_eq!(b.read_byte().unwrap(), 0x03);
}

#[test]
fn corruption_flips_byte() {
    let mut emulator = UartEmulator::default();
    let (mut a, mut b) = emulator.split();
    a.corrupt_byte_at(1);
    a.write_bytes(&[0x01, 0x02, 0x03]).unwrap();
    assert_eq!(b.read_byte().unwrap(), 0x01);
    assert_eq!(b.read_byte().unwrap(), 0x02 ^ 0xFF); // corrupted
    assert_eq!(b.read_byte().unwrap(), 0x03);
}

#[test]
fn last_corruption_offset_set_wins() {
    let mut emulator = UartEmulator::default();
    let (mut a, mut b) = emulator.split();
    a.corrupt_byte_at(0);
    a.corrupt_byte_at(2);
    a.write_bytes(&[0x01, 0x02, 0x03]).unwrap();
    assert_eq!(b.read_byte().unwrap(), 0x01);
    assert_eq!(b.read_byte().unwrap(), 0x02);
    assert_eq!(b.read_byte().unwrap(), 0x03 ^ 0xFF);
}

#[test]
fn corruption_past_a_write_waits_for_a_longer_one() {
    let mut emulator = UartEmulator::default();
    let (mut a, mut b) = emulator.split();
    a.corrupt_byte_at(3);
    a.write_bytes(&[0x01, 0x02]).unwrap();
    a.write_bytes(&[0x10, 0x20, 0x30, 0x40]).unwrap();
    a.write_bytes(&[0x55; 4]).unwrap();
    let got: Vec<u8> = (0..10).map(|_| b.read_byte().unwrap()).collect();
    assert_eq!(got, vec![0x01, 0x02, 0x10, 0x20, 0x30, 0x40 ^ 0xFF, 0x55, 0x55, 0x55, 0x55]);
}

#[test]
fn flush_sends_nothing_and_empty_write_succeeds() {
    let mut emulator = UartEmulator::default();
    let (mut a, mut b) = emulator.split();
    a.flush().unwrap();
    a.write_bytes(&[]).unwrap();
    assert!(b.read_byte().is_err());
}

#[test]
fn full_queue_refuses_a_write() {
    let mut emulator = UartEmulator::default();
    let (mut a, _b) = emulator.split();
    // a queue of 256 slots holds 255 bytes
    assert!(a.write_bytes(&[0x01; 255]).is_ok());
    assert!(a.write_bytes(&[0x02]).is_err());
}
