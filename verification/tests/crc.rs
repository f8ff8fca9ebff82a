use framelink::crc::CRC16_TABLE;
use framelink::frame::Frame;

#[test]
fn crc16_table_is_correct() {
    // generate the table from scratch using bit-by-bit method
    // and verify it matches our lookup table
    for (i, &entry) in CRC16_TABLE.iter().enumerate() {
        let mut crc = (i as u16) << 8;
        for _ in 0..8 {
            if crc & 0x8000 != 0 {
                crc = (crc << 1) ^ 0x1021; // CCITT polynomial
            } else {
                crc <<= 1;
            }
        }
        assert_eq!(entry, crc, "table entry {i} is wrong -> {:#X?}", crc);
    }
}

#[test]
fn crc16_known_vector() {
    // "123456789" in ASCII = 9 bytes
    // standard check value for CRC-16/CCITT-FALSE
    let input = b"123456789";
    assert_eq!(Frame::<9>::crc16(input), 0x29B1);
}
