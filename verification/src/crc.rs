use vstd::prelude::*;

verus! {

/// Lookup table for CRC-16/CCITT-FALSE (polynomial 0x1021): entry `i` is the
/// register obtained by shifting `i << 8` through the polynomial eight times.
/// <https://www.sput.nl/internet/crc.html>
pub const CRC16_TABLE: [u16; 256] = [
    0x0000, 0x1021, 0x2042, 0x3063, 0x4084, 0x50A5, 0x60C6, 0x70E7, 0x8108, 0x9129, 0xA14A, 0xB16B,
    0xC18C, 0xD1AD, 0xE1CE, 0xF1EF, 0x1231, 0x0210, 0x3273, 0x2252, 0x52B5, 0x4294, 0x72F7, 0x62D6,
    0x9339, 0x8318, 0xB37B, 0xA35A, 0xD3BD, 0xC39C, 0xF3FF, 0xE3DE, 0x2462, 0x3443, 0x0420, 0x1401,
    0x64E6, 0x74C7, 0x44A4, 0x5485, 0xA56A, 0xB54B, 0x8528, 0x9509, 0xE5EE, 0xF5CF, 0xC5AC, 0xD58D,
    0x3653, 0x2672, 0x1611, 0x0630, 0x76D7, 0x66F6, 0x5695, 0x46B4, 0xB75B, 0xA77A, 0x9719, 0x8738,
    0xF7DF, 0xE7FE, 0xD79D, 0xC7BC, 0x48C4, 0x58E5, 0x6886, 0x78A7, 0x0840, 0x1861, 0x2802, 0x3823,
    0xC9CC, 0xD9ED, 0xE98E, 0xF9AF, 0x8948, 0x9969, 0xA90A, 0xB92B, 0x5AF5, 0x4AD4, 0x7AB7, 0x6A96,
    0x1A71, 0x0A50, 0x3A33, 0x2A12, 0xDBFD, 0xCBDC, 0xFBBF, 0xEB9E, 0x9B79, 0x8B58, 0xBB3B, 0xAB1A,
    0x6CA6, 0x7C87, 0x4CE4, 0x5CC5, 0x2C22, 0x3C03, 0x0C60, 0x1C41, 0xEDAE, 0xFD8F, 0xCDEC, 0xDDCD,
    0xAD2A, 0xBD0B, 0x8D68, 0x9D49, 0x7E97, 0x6EB6, 0x5ED5, 0x4EF4, 0x3E13, 0x2E32, 0x1E51, 0x0E70,
    0xFF9F, 0xEFBE, 0xDFDD, 0xCFFC, 0xBF1B, 0xAF3A, 0x9F59, 0x8F78, 0x9188, 0x81A9, 0xB1CA, 0xA1EB,
    0xD10C, 0xC12D, 0xF14E, 0xE16F, 0x1080, 0x00A1, 0x30C2, 0x20E3, 0x5004, 0x4025, 0x7046, 0x6067,
    0x83B9, 0x9398, 0xA3FB, 0xB3DA, 0xC33D, 0xD31C, 0xE37F, 0xF35E, 0x02B1, 0x1290, 0x22F3, 0x32D2,
    0x4235, 0x5214, 0x6277, 0x7256, 0xB5EA, 0xA5CB, 0x95A8, 0x8589, 0xF56E, 0xE54F, 0xD52C, 0xC50D,
    0x34E2, 0x24C3, 0x14A0, 0x0481, 0x7466, 0x6447, 0x5424, 0x4405, 0xA7DB, 0xB7FA, 0x8799, 0x97B8,
    0xE75F, 0xF77E, 0xC71D, 0xD73C, 0x26D3, 0x36F2, 0x0691, 0x16B0, 0x6657, 0x7676, 0x4615, 0x5634,
    0xD94C, 0xC96D, 0xF90E, 0xE92F, 0x99C8, 0x89E9, 0xB98A, 0xA9AB, 0x5844, 0x4865, 0x7806, 0x6827,
    0x18C0, 0x08E1, 0x3882, 0x28A3, 0xCB7D, 0xDB5C, 0xEB3F, 0xFB1E, 0x8BF9, 0x9BD8, 0xABBB, 0xBB9A,
    0x4A75, 0x5A54, 0x6A37, 0x7A16, 0x0AF1, 0x1AD0, 0x2AB3, 0x3A92, 0xFD2E, 0xED0F, 0xDD6C, 0xCD4D,
    0xBDAA, 0xAD8B, 0x9DE8, 0x8DC9, 0x7C26, 0x6C07, 0x5C64, 0x4C45, 0x3CA2, 0x2C83, 0x1CE0, 0x0CC1,
    0xEF1F, 0xFF3E, 0xCF5D, 0xDF7C, 0xAF9B, 0xBFBA, 0x8FD9, 0x9FF8, 0x6E17, 0x7E36, 0x4E55, 0x5E74,
    0x2E93, 0x3EB2, 0x0ED1, 0x1EF0,
];

/// One bit of the CCITT register update: shift left, and fold in the
/// polynomial 0x1021 when the bit shifted out was set.
pub open spec fn crc_shift1(c: u16) -> u16 {
    if c & 0x8000u16 != 0 {
        ((c << 1u16) ^ 0x1021u16) as u16
    } else {
        (c << 1u16) as u16
    }
}

/// Eight bits of the register update.
pub open spec fn crc_shift8(c: u16) -> u16 {
    crc_shift1(crc_shift1(crc_shift1(crc_shift1(crc_shift1(crc_shift1(crc_shift1(crc_shift1(c))))))))
}

/// The register after absorbing byte `b`, most significant bit first.
pub open spec fn crc_update(crc: u16, b: u8) -> u16 {
    crc_shift8(crc ^ ((b as u16) << 8u16))
}

/// CRC-16/CCITT-FALSE of `data`: initial register 0xFFFF, polynomial 0x1021,
/// no reflection and no final xor.
pub open spec fn spec_crc16(data: Seq<u8>) -> u16
    decreases data.len(),
{
    if data.len() == 0 {
        0xFFFFu16
    } else {
        crc_update(spec_crc16(data.drop_last()), data.last())
    }
}

/// The bytes that carry a CRC on the wire: high byte first.
pub open spec fn crc_bytes(crc: u16) -> Seq<u8> {
    seq![(crc >> 8u16) as u8, (crc & 0xFFu16) as u8]
}

/// Entries 0 to 31 of the table agree with the bitwise update.
proof fn lemma_crc16_table_0()
    ensures
        forall|i: int| 0 <= i < 32 ==> #[trigger] CRC16_TABLE@[i] == crc_shift8((i * 256) as u16),
{
    assert(
        crc_shift8(0x0000u16) == 0x0000u16 &&
        crc_shift8(0x0100u16) == 0x1021u16 &&
        crc_shift8(0x0200u16) == 0x2042u16 &&
        crc_shift8(0x0300u16) == 0x3063u16 &&
        crc_shift8(0x0400u16) == 0x4084u16 &&
        crc_shift8(0x0500u16) == 0x50A5u16 &&
        crc_shift8(0x0600u16) == 0x60C6u16 &&
        crc_shift8(0x0700u16) == 0x70E7u16 &&
        crc_shift8(0x0800u16) == 0x8108u16 &&
        crc_shift8(0x0900u16) == 0x9129u16 &&
        crc_shift8(0x0A00u16) == 0xA14Au16 &&
        crc_shift8(0x0B00u16) == 0xB16Bu16 &&
        crc_shift8(0x0C00u16) == 0xC18Cu16 &&
        crc_shift8(0x0D00u16) == 0xD1ADu16 &&
        crc_shift8(0x0E00u16) == 0xE1CEu16 &&
        crc_shift8(0x0F00u16) == 0xF1EFu16 &&
        crc_shift8(0x1000u16) == 0x1231u16 &&
        crc_shift8(0x1100u16) == 0x0210u16 &&
        crc_shift8(0x1200u16) == 0x3273u16 &&
        crc_shift8(0x1300u16) == 0x2252u16 &&
        crc_shift8(0x1400u16) == 0x52B5u16 &&
        crc_shift8(0x1500u16) == 0x4294u16 &&
        crc_shift8(0x1600u16) == 0x72F7u16 &&
        crc_shift8(0x1700u16) == 0x62D6u16 &&
        crc_shift8(0x1800u16) == 0x9339u16 &&
        crc_shift8(0x1900u16) == 0x8318u16 &&
        crc_shift8(0x1A00u16) == 0xB37Bu16 &&
        crc_shift8(0x1B00u16) == 0xA35Au16 &&
        crc_shift8(0x1C00u16) == 0xD3BDu16 &&
        crc_shift8(0x1D00u16) == 0xC39Cu16 &&
        crc_shift8(0x1E00u16) == 0xF3FFu16 &&
        crc_shift8(0x1F00u16) == 0xE3DEu16
    ) by (bit_vector);
    assert forall|i: int| 0 <= i < 32 implies #[trigger] CRC16_TABLE@[i] == crc_shift8((i * 256) as u16) by {
        let k = i as u8;
        assert(k as int == i);
        match k {
            0u8 => {},
            1u8 => {},
            2u8 => {},
            3u8 => {},
            4u8 => {},
            5u8 => {},
            6u8 => {},
            7u8 => {},
            8u8 => {},
            9u8 => {},
            10u8 => {},
            11u8 => {},
            12u8 => {},
            13u8 => {},
            14u8 => {},
            15u8 => {},
            16u8 => {},
            17u8 => {},
            18u8 => {},
            19u8 => {},
            20u8 => {},
            21u8 => {},
            22u8 => {},
            23u8 => {},
            24u8 => {},
            25u8 => {},
            26u8 => {},
            27u8 => {},
            28u8 => {},
            29u8 => {},
            30u8 => {},
            31u8 => {},
            _ => {},
        }
    }
}

/// Entries 32 to 63 of the table agree with the bitwise update.
proof fn lemma_crc16_table_1()
    ensures
        forall|i: int| 32 <= i < 64 ==> #[trigger] CRC16_TABLE@[i] == crc_shift8((i * 256) as u16),
{
    assert(
        crc_shift8(0x2000u16) == 0x2462u16 &&
        crc_shift8(0x2100u16) == 0x3443u16 &&
        crc_shift8(0x2200u16) == 0x0420u16 &&
        crc_shift8(0x2300u16) == 0x1401u16 &&
        crc_shift8(0x2400u16) == 0x64E6u16 &&
        crc_shift8(0x2500u16) == 0x74C7u16 &&
        crc_shift8(0x2600u16) == 0x44A4u16 &&
        crc_shift8(0x2700u16) == 0x5485u16 &&
        crc_shift8(0x2800u16) == 0xA56Au16 &&
        crc_shift8(0x2900u16) == 0xB54Bu16 &&
        crc_shift8(0x2A00u16) == 0x8528u16 &&
        crc_shift8(0x2B00u16) == 0x9509u16 &&
        crc_shift8(0x2C00u16) == 0xE5EEu16 &&
        crc_shift8(0x2D00u16) == 0xF5CFu16 &&
        crc_shift8(0x2E00u16) == 0xC5ACu16 &&
        crc_shift8(0x2F00u16) == 0xD58Du16 &&
        crc_shift8(0x3000u16) == 0x3653u16 &&
        crc_shift8(0x3100u16) == 0x2672u16 &&
        crc_shift8(0x3200u16) == 0x1611u16 &&
        crc_shift8(0x3300u16) == 0x0630u16 &&
        crc_shift8(0x3400u16) == 0x76D7u16 &&
        crc_shift8(0x3500u16) == 0x66F6u16 &&
        crc_shift8(0x3600u16) == 0x5695u16 &&
        crc_shift8(0x3700u16) == 0x46B4u16 &&
        crc_shift8(0x3800u16) == 0xB75Bu16 &&
        crc_shift8(0x3900u16) == 0xA77Au16 &&
        crc_shift8(0x3A00u16) == 0x9719u16 &&
        crc_shift8(0x3B00u16) == 0x8738u16 &&
        crc_shift8(0x3C00u16) == 0xF7DFu16 &&
        crc_shift8(0x3D00u16) == 0xE7FEu16 &&
        crc_shift8(0x3E00u16) == 0xD79Du16 &&
        crc_shift8(0x3F00u16) == 0xC7BCu16
    ) by (bit_vector);
    assert forall|i: int| 32 <= i < 64 implies #[trigger] CRC16_TABLE@[i] == crc_shift8((i * 256) as u16) by {
        let k = i as u8;
        assert(k as int == i);
        match k {
            32u8 => {},
            33u8 => {},
            34u8 => {},
            35u8 => {},
            36u8 => {},
            37u8 => {},
            38u8 => {},
            39u8 => {},
            40u8 => {},
            41u8 => {},
            42u8 => {},
            43u8 => {},
            44u8 => {},
            45u8 => {},
            46u8 => {},
            47u8 => {},
            48u8 => {},
            49u8 => {},
            50u8 => {},
            51u8 => {},
            52u8 => {},
            53u8 => {},
            54u8 => {},
            55u8 => {},
            56u8 => {},
            57u8 => {},
            58u8 => {},
            59u8 => {},
            60u8 => {},
            61u8 => {},
            62u8 => {},
            63u8 => {},
            _ => {},
        }
    }
}

/// Entries 64 to 95 of the table agree with the bitwise update.
proof fn lemma_crc16_table_2()
    ensures
        forall|i: int| 64 <= i < 96 ==> #[trigger] CRC16_TABLE@[i] == crc_shift8((i * 256) as u16),
{
    assert(
        crc_shift8(0x4000u16) == 0x48C4u16 &&
        crc_shift8(0x4100u16) == 0x58E5u16 &&
        crc_shift8(0x4200u16) == 0x6886u16 &&
        crc_shift8(0x4300u16) == 0x78A7u16 &&
        crc_shift8(0x4400u16) == 0x0840u16 &&
        crc_shift8(0x4500u16) == 0x1861u16 &&
        crc_shift8(0x4600u16) == 0x2802u16 &&
        crc_shift8(0x4700u16) == 0x3823u16 &&
        crc_shift8(0x4800u16) == 0xC9CCu16 &&
        crc_shift8(0x4900u16) == 0xD9EDu16 &&
        crc_shift8(0x4A00u16) == 0xE98Eu16 &&
        crc_shift8(0x4B00u16) == 0xF9AFu16 &&
        crc_shift8(0x4C00u16) == 0x8948u16 &&
        crc_shift8(0x4D00u16) == 0x9969u16 &&
        crc_shift8(0x4E00u16) == 0xA90Au16 &&
        crc_shift8(0x4F00u16) == 0xB92Bu16 &&
        crc_shift8(0x5000u16) == 0x5AF5u16 &&
        crc_shift8(0x5100u16) == 0x4AD4u16 &&
        crc_shift8(0x5200u16) == 0x7AB7u16 &&
        crc_shift8(0x5300u16) == 0x6A96u16 &&
        crc_shift8(0x5400u16) == 0x1A71u16 &&
        crc_shift8(0x5500u16) == 0x0A50u16 &&
        crc_shift8(0x5600u16) == 0x3A33u16 &&
        crc_shift8(0x5700u16) == 0x2A12u16 &&
        crc_shift8(0x5800u16) == 0xDBFDu16 &&
        crc_shift8(0x5900u16) == 0xCBDCu16 &&
        crc_shift8(0x5A00u16) == 0xFBBFu16 &&
        crc_shift8(0x5B00u16) == 0xEB9Eu16 &&
        crc_shift8(0x5C00u16) == 0x9B79u16 &&
        crc_shift8(0x5D00u16) == 0x8B58u16 &&
        crc_shift8(0x5E00u16) == 0xBB3Bu16 &&
        crc_shift8(0x5F00u16) == 0xAB1Au16
    ) by (bit_vector);
    assert forall|i: int| 64 <= i < 96 implies #[trigger] CRC16_TABLE@[i] == crc_shift8((i * 256) as u16) by {
        let k = i as u8;
        assert(k as int == i);
        match k {
            64u8 => {},
            65u8 => {},
            66u8 => {},
            67u8 => {},
            68u8 => {},
            69u8 => {},
            70u8 => {},
            71u8 => {},
            72u8 => {},
            73u8 => {},
            74u8 => {},
            75u8 => {},
            76u8 => {},
            77u8 => {},
            78u8 => {},
            79u8 => {},
            80u8 => {},
            81u8 => {},
            82u8 => {},
            83u8 => {},
            84u8 => {},
            85u8 => {},
            86u8 => {},
            87u8 => {},
            88u8 => {},
            89u8 => {},
            90u8 => {},
            91u8 => {},
            92u8 => {},
            93u8 => {},
            94u8 => {},
            95u8 => {},
            _ => {},
        }
    }
}

/// Entries 96 to 127 of the table agree with the bitwise update.
proof fn lemma_crc16_table_3()
    ensures
        forall|i: int| 96 <= i < 128 ==> #[trigger] CRC16_TABLE@[i] == crc_shift8((i * 256) as u16),
{
    assert(
        crc_shift8(0x6000u16) == 0x6CA6u16 &&
        crc_shift8(0x6100u16) == 0x7C87u16 &&
        crc_shift8(0x6200u16) == 0x4CE4u16 &&
        crc_shift8(0x6300u16) == 0x5CC5u16 &&
        crc_shift8(0x6400u16) == 0x2C22u16 &&
        crc_shift8(0x6500u16) == 0x3C03u16 &&
        crc_shift8(0x6600u16) == 0x0C60u16 &&
        crc_shift8(0x6700u16) == 0x1C41u16 &&
        crc_shift8(0x6800u16) == 0xEDAEu16 &&
        crc_shift8(0x6900u16) == 0xFD8Fu16 &&
        crc_shift8(0x6A00u16) == 0xCDECu16 &&
        crc_shift8(0x6B00u16) == 0xDDCDu16 &&
        crc_shift8(0x6C00u16) == 0xAD2Au16 &&
        crc_shift8(0x6D00u16) == 0xBD0Bu16 &&
        crc_shift8(0x6E00u16) == 0x8D68u16 &&
        crc_shift8(0x6F00u16) == 0x9D49u16 &&
        crc_shift8(0x7000u16) == 0x7E97u16 &&
        crc_shift8(0x7100u16) == 0x6EB6u16 &&
        crc_shift8(0x7200u16) == 0x5ED5u16 &&
        crc_shift8(0x7300u16) == 0x4EF4u16 &&
        crc_shift8(0x7400u16) == 0x3E13u16 &&
        crc_shift8(0x7500u16) == 0x2E32u16 &&
        crc_shift8(0x7600u16) == 0x1E51u16 &&
        crc_shift8(0x7700u16) == 0x0E70u16 &&
        crc_shift8(0x7800u16) == 0xFF9Fu16 &&
        crc_shift8(0x7900u16) == 0xEFBEu16 &&
        crc_shift8(0x7A00u16) == 0xDFDDu16 &&
        crc_shift8(0x7B00u16) == 0xCFFCu16 &&
        crc_shift8(0x7C00u16) == 0xBF1Bu16 &&
        crc_shift8(0x7D00u16) == 0xAF3Au16 &&
        crc_shift8(0x7E00u16) == 0x9F59u16 &&
        crc_shift8(0x7F00u16) == 0x8F78u16
    ) by (bit_vector);
    assert forall|i: int| 96 <= i < 128 implies #[trigger] CRC16_TABLE@[i] == crc_shift8((i * 256) as u16) by {
        let k = i as u8;
        assert(k as int == i);
        match k {
            96u8 => {},
            97u8 => {},
            98u8 => {},
            99u8 => {},
            100u8 => {},
            101u8 => {},
            102u8 => {},
            103u8 => {},
            104u8 => {},
            105u8 => {},
            106u8 => {},
            107u8 => {},
            108u8 => {},
            109u8 => {},
            110u8 => {},
            111u8 => {},
            112u8 => {},
            113u8 => {},
            114u8 => {},
            115u8 => {},
            116u8 => {},
            117u8 => {},
            118u8 => {},
            119u8 => {},
            120u8 => {},
            121u8 => {},
            122u8 => {},
            123u8 => {},
            124u8 => {},
            125u8 => {},
            126u8 => {},
            127u8 => {},
            _ => {},
        }
    }
}

/// Entries 128 to 159 of the table agree with the bitwise update.
proof fn lemma_crc16_table_4()
    ensures
        forall|i: int| 128 <= i < 160 ==> #[trigger] CRC16_TABLE@[i] == crc_shift8((i * 256) as u16),
{
    assert(
        crc_shift8(0x8000u16) == 0x9188u16 &&
        crc_shift8(0x8100u16) == 0x81A9u16 &&
        crc_shift8(0x8200u16) == 0xB1CAu16 &&
        crc_shift8(0x8300u16) == 0xA1EBu16 &&
        crc_shift8(0x8400u16) == 0xD10Cu16 &&
        crc_shift8(0x8500u16) == 0xC12Du16 &&
        crc_shift8(0x8600u16) == 0xF14Eu16 &&
        crc_shift8(0x8700u16) == 0xE16Fu16 &&
        crc_shift8(0x8800u16) == 0x1080u16 &&
        crc_shift8(0x8900u16) == 0x00A1u16 &&
        crc_shift8(0x8A00u16) == 0x30C2u16 &&
        crc_shift8(0x8B00u16) == 0x20E3u16 &&
        crc_shift8(0x8C00u16) == 0x5004u16 &&
        crc_shift8(0x8D00u16) == 0x4025u16 &&
        crc_shift8(0x8E00u16) == 0x7046u16 &&
        crc_shift8(0x8F00u16) == 0x6067u16 &&
        crc_shift8(0x9000u16) == 0x83B9u16 &&
        crc_shift8(0x9100u16) == 0x9398u16 &&
        crc_shift8(0x9200u16) == 0xA3FBu16 &&
        crc_shift8(0x9300u16) == 0xB3DAu16 &&
        crc_shift8(0x9400u16) == 0xC33Du16 &&
        crc_shift8(0x9500u16) == 0xD31Cu16 &&
        crc_shift8(0x9600u16) == 0xE37Fu16 &&
        crc_shift8(0x9700u16) == 0xF35Eu16 &&
        crc_shift8(0x9800u16) == 0x02B1u16 &&
        crc_shift8(0x9900u16) == 0x1290u16 &&
        crc_shift8(0x9A00u16) == 0x22F3u16 &&
        crc_shift8(0x9B00u16) == 0x32D2u16 &&
        crc_shift8(0x9C00u16) == 0x4235u16 &&
        crc_shift8(0x9D00u16) == 0x5214u16 &&
        crc_shift8(0x9E00u16) == 0x6277u16 &&
        crc_shift8(0x9F00u16) == 0x7256u16
    ) by (bit_vector);
    assert forall|i: int| 128 <= i < 160 implies #[trigger] CRC16_TABLE@[i] == crc_shift8((i * 256) as u16) by {
        let k = i as u8;
        assert(k as int == i);
        match k {
            128u8 => {},
            129u8 => {},
            130u8 => {},
            131u8 => {},
            132u8 => {},
            133u8 => {},
            134u8 => {},
            135u8 => {},
            136u8 => {},
            137u8 => {},
            138u8 => {},
            139u8 => {},
            140u8 => {},
            141u8 => {},
            142u8 => {},
            143u8 => {},
            144u8 => {},
            145u8 => {},
            146u8 => {},
            147u8 => {},
            148u8 => {},
            149u8 => {},
            150u8 => {},
            151u8 => {},
            152u8 => {},
            153u8 => {},
            154u8 => {},
            155u8 => {},
            156u8 => {},
            157u8 => {},
            158u8 => {},
            159u8 => {},
            _ => {},
        }
    }
}

/// Entries 160 to 191 of the table agree with the bitwise update.
proof fn lemma_crc16_table_5()
    ensures
        forall|i: int| 160 <= i < 192 ==> #[trigger] CRC16_TABLE@[i] == crc_shift8((i * 256) as u16),
{
    assert(
        crc_shift8(0xA000u16) == 0xB5EAu16 &&
        crc_shift8(0xA100u16) == 0xA5CBu16 &&
        crc_shift8(0xA200u16) == 0x95A8u16 &&
        crc_shift8(0xA300u16) == 0x8589u16 &&
        crc_shift8(0xA400u16) == 0xF56Eu16 &&
        crc_shift8(0xA500u16) == 0xE54Fu16 &&
        crc_shift8(0xA600u16) == 0xD52Cu16 &&
        crc_shift8(0xA700u16) == 0xC50Du16 &&
        crc_shift8(0xA800u16) == 0x34E2u16 &&
        crc_shift8(0xA900u16) == 0x24C3u16 &&
        crc_shift8(0xAA00u16) == 0x14A0u16 &&
        crc_shift8(0xAB00u16) == 0x0481u16 &&
        crc_shift8(0xAC00u16) == 0x7466u16 &&
        crc_shift8(0xAD00u16) == 0x6447u16 &&
        crc_shift8(0xAE00u16) == 0x5424u16 &&
        crc_shift8(0xAF00u16) == 0x4405u16 &&
        crc_shift8(0xB000u16) == 0xA7DBu16 &&
        crc_shift8(0xB100u16) == 0xB7FAu16 &&
        crc_shift8(0xB200u16) == 0x8799u16 &&
        crc_shift8(0xB300u16) == 0x97B8u16 &&
        crc_shift8(0xB400u16) == 0xE75Fu16 &&
        crc_shift8(0xB500u16) == 0xF77Eu16 &&
        crc_shift8(0xB600u16) == 0xC71Du16 &&
        crc_shift8(0xB700u16) == 0xD73Cu16 &&
        crc_shift8(0xB800u16) == 0x26D3u16 &&
        crc_shift8(0xB900u16) == 0x36F2u16 &&
        crc_shift8(0xBA00u16) == 0x0691u16 &&
        crc_shift8(0xBB00u16) == 0x16B0u16 &&
        crc_shift8(0xBC00u16) == 0x6657u16 &&
        crc_shift8(0xBD00u16) == 0x7676u16 &&
        crc_shift8(0xBE00u16) == 0x4615u16 &&
        crc_shift8(0xBF00u16) == 0x5634u16
    ) by (bit_vector);
    assert forall|i: int| 160 <= i < 192 implies #[trigger] CRC16_TABLE@[i] == crc_shift8((i * 256) as u16) by {
        let k = i as u8;
        assert(k as int == i);
        match k {
            160u8 => {},
            161u8 => {},
            162u8 => {},
            163u8 => {},
            164u8 => {},
            165u8 => {},
            166u8 => {},
            167u8 => {},
            168u8 => {},
            169u8 => {},
            170u8 => {},
            171u8 => {},
            172u8 => {},
            173u8 => {},
            174u8 => {},
            175u8 => {},
            176u8 => {},
            177u8 => {},
            178u8 => {},
            179u8 => {},
            180u8 => {},
            181u8 => {},
            182u8 => {},
            183u8 => {},
            184u8 => {},
            185u8 => {},
            186u8 => {},
            187u8 => {},
            188u8 => {},
            189u8 => {},
            190u8 => {},
            191u8 => {},
            _ => {},
        }
    }
}

/// Entries 192 to 223 of the table agree with the bitwise update.
proof fn lemma_crc16_table_6()
    ensures
        forall|i: int| 192 <= i < 224 ==> #[trigger] CRC16_TABLE@[i] == crc_shift8((i * 256) as u16),
{
    assert(
        crc_shift8(0xC000u16) == 0xD94Cu16 &&
        crc_shift8(0xC100u16) == 0xC96Du16 &&
        crc_shift8(0xC200u16) == 0xF90Eu16 &&
        crc_shift8(0xC300u16) == 0xE92Fu16 &&
        crc_shift8(0xC400u16) == 0x99C8u16 &&
        crc_shift8(0xC500u16) == 0x89E9u16 &&
        crc_shift8(0xC600u16) == 0xB98Au16 &&
        crc_shift8(0xC700u16) == 0xA9ABu16 &&
        crc_shift8(0xC800u16) == 0x5844u16 &&
        crc_shift8(0xC900u16) == 0x4865u16 &&
        crc_shift8(0xCA00u16) == 0x7806u16 &&
        crc_shift8(0xCB00u16) == 0x6827u16 &&
        crc_shift8(0xCC00u16) == 0x18C0u16 &&
        crc_shift8(0xCD00u16) == 0x08E1u16 &&
        crc_shift8(0xCE00u16) == 0x3882u16 &&
        crc_shift8(0xCF00u16) == 0x28A3u16 &&
        crc_shift8(0xD000u16) == 0xCB7Du16 &&
        crc_shift8(0xD100u16) == 0xDB5Cu16 &&
        crc_shift8(0xD200u16) == 0xEB3Fu16 &&
        crc_shift8(0xD300u16) == 0xFB1Eu16 &&
        crc_shift8(0xD400u16) == 0x8BF9u16 &&
        crc_shift8(0xD500u16) == 0x9BD8u16 &&
        crc_shift8(0xD600u16) == 0xABBBu16 &&
        crc_shift8(0xD700u16) == 0xBB9Au16 &&
        crc_shift8(0xD800u16) == 0x4A75u16 &&
        crc_shift8(0xD900u16) == 0x5A54u16 &&
        crc_shift8(0xDA00u16) == 0x6A37u16 &&
        crc_shift8(0xDB00u16) == 0x7A16u16 &&
        crc_shift8(0xDC00u16) == 0x0AF1u16 &&
        crc_shift8(0xDD00u16) == 0x1AD0u16 &&
        crc_shift8(0xDE00u16) == 0x2AB3u16 &&
        crc_shift8(0xDF00u16) == 0x3A92u16
    ) by (bit_vector);
    assert forall|i: int| 192 <= i < 224 implies #[trigger] CRC16_TABLE@[i] == crc_shift8((i * 256) as u16) by {
        let k = i as u8;
        assert(k as int == i);
        match k {
            192u8 => {},
            193u8 => {},
            194u8 => {},
            195u8 => {},
            196u8 => {},
            197u8 => {},
            198u8 => {},
            199u8 => {},
            200u8 => {},
            201u8 => {},
            202u8 => {},
            203u8 => {},
            204u8 => {},
            205u8 => {},
            206u8 => {},
            207u8 => {},
            208u8 => {},
            209u8 => {},
            210u8 => {},
            211u8 => {},
            212u8 => {},
            213u8 => {},
            214u8 => {},
            215u8 => {},
            216u8 => {},
            217u8 => {},
            218u8 => {},
            219u8 => {},
            220u8 => {},
            221u8 => {},
            222u8 => {},
            223u8 => {},
            _ => {},
        }
    }
}

/// Entries 224 to 255 of the table agree with the bitwise update.
proof fn lemma_crc16_table_7()
    ensures
        forall|i: int| 224 <= i < 256 ==> #[trigger] CRC16_TABLE@[i] == crc_shift8((i * 256) as u16),
{
    assert(
        crc_shift8(0xE000u16) == 0xFD2Eu16 &&
        crc_shift8(0xE100u16) == 0xED0Fu16 &&
        crc_shift8(0xE200u16) == 0xDD6Cu16 &&
        crc_shift8(0xE300u16) == 0xCD4Du16 &&
        crc_shift8(0xE400u16) == 0xBDAAu16 &&
        crc_shift8(0xE500u16) == 0xAD8Bu16 &&
        crc_shift8(0xE600u16) == 0x9DE8u16 &&
        crc_shift8(0xE700u16) == 0x8DC9u16 &&
        crc_shift8(0xE800u16) == 0x7C26u16 &&
        crc_shift8(0xE900u16) == 0x6C07u16 &&
        crc_shift8(0xEA00u16) == 0x5C64u16 &&
        crc_shift8(0xEB00u16) == 0x4C45u16 &&
        crc_shift8(0xEC00u16) == 0x3CA2u16 &&
        crc_shift8(0xED00u16) == 0x2C83u16 &&
        crc_shift8(0xEE00u16) == 0x1CE0u16 &&
        crc_shift8(0xEF00u16) == 0x0CC1u16 &&
        crc_shift8(0xF000u16) == 0xEF1Fu16 &&
        crc_shift8(0xF100u16) == 0xFF3Eu16 &&
        crc_shift8(0xF200u16) == 0xCF5Du16 &&
        crc_shift8(0xF300u16) == 0xDF7Cu16 &&
        crc_shift8(0xF400u16) == 0xAF9Bu16 &&
        crc_shift8(0xF500u16) == 0xBFBAu16 &&
        crc_shift8(0xF600u16) == 0x8FD9u16 &&
        crc_shift8(0xF700u16) == 0x9FF8u16 &&
        crc_shift8(0xF800u16) == 0x6E17u16 &&
        crc_shift8(0xF900u16) == 0x7E36u16 &&
        crc_shift8(0xFA00u16) == 0x4E55u16 &&
        crc_shift8(0xFB00u16) == 0x5E74u16 &&
        crc_shift8(0xFC00u16) == 0x2E93u16 &&
        crc_shift8(0xFD00u16) == 0x3EB2u16 &&
        crc_shift8(0xFE00u16) == 0x0ED1u16 &&
        crc_shift8(0xFF00u16) == 0x1EF0u16
    ) by (bit_vector);
    assert forall|i: int| 224 <= i < 256 implies #[trigger] CRC16_TABLE@[i] == crc_shift8((i * 256) as u16) by {
        let k = i as u8;
        assert(k as int == i);
        match k {
            224u8 => {},
            225u8 => {},
            226u8 => {},
            227u8 => {},
            228u8 => {},
            229u8 => {},
            230u8 => {},
            231u8 => {},
            232u8 => {},
            233u8 => {},
            234u8 => {},
            235u8 => {},
            236u8 => {},
            237u8 => {},
            238u8 => {},
            239u8 => {},
            240u8 => {},
            241u8 => {},
            242u8 => {},
            243u8 => {},
            244u8 => {},
            245u8 => {},
            246u8 => {},
            247u8 => {},
            248u8 => {},
            249u8 => {},
            250u8 => {},
            251u8 => {},
            252u8 => {},
            253u8 => {},
            254u8 => {},
            255u8 => {},
            _ => {},
        }
    }
}

/// The table holds, for every index, the register that the bitwise update
/// gives for that index placed in the high byte. (Proved in eight ranges of
/// 32 entries, each with one bit-vector query: one proof of all 256 entries
/// takes the solver minutes.)
pub proof fn lemma_crc16_table()
    ensures
        forall|i: int| 0 <= i < 256 ==> #[trigger] CRC16_TABLE@[i] == crc_shift8((i * 256) as u16),
{
    lemma_crc16_table_0();
    lemma_crc16_table_1();
    lemma_crc16_table_2();
    lemma_crc16_table_3();
    lemma_crc16_table_4();
    lemma_crc16_table_5();
    lemma_crc16_table_6();
    lemma_crc16_table_7();
}

/// The table-driven update of one byte equals the bitwise update.
pub proof fn lemma_crc_table_step(crc: u16, b: u8)
    by (bit_vector)
    ensures
        crc_update(crc, b) == ((crc << 8u16) ^ crc_shift8(((((crc >> 8u16) as u8) ^ b) as u16 * 256u16) as u16)) as u16,
{
}

/// Eight steps of the register update lose nothing: distinct registers stay
/// distinct.
pub proof fn lemma_crc_shift8_injective(x: u16, y: u16)
    by (bit_vector)
    requires
        x != y,
    ensures
        crc_shift8(x) != crc_shift8(y),
{
}

/// Absorbing the same byte into distinct registers, or distinct bytes into
/// the same register, gives distinct registers.
pub proof fn lemma_crc_update_distinct(s1: u16, a: u8, s2: u16, b: u8)
    requires
        (s1 == s2 && a != b) || (s1 != s2 && a == b),
    ensures
        crc_update(s1, a) != crc_update(s2, b),
{
    assert((s1 == s2 && a != b) || (s1 != s2 && a == b) ==> (s1 ^ ((a as u16) << 8u16)) != (s2 ^ ((b as u16) << 8u16))) by (bit_vector);
    lemma_crc_shift8_injective(s1 ^ ((a as u16) << 8u16), s2 ^ ((b as u16) << 8u16));
}

/// CRC-16 detects every change of a single byte.
pub proof fn lemma_crc16_detects_byte_change(data: Seq<u8>, i: int, b: u8)
    requires
        0 <= i < data.len(),
        b != data[i],
    ensures
        spec_crc16(data.update(i, b)) != spec_crc16(data),
    decreases data.len(),
{
    let changed = data.update(i, b);
    if i == data.len() - 1 {
        assert(changed.drop_last() =~= data.drop_last());
        lemma_crc_update_distinct(spec_crc16(data.drop_last()), b, spec_crc16(data.drop_last()), data.last());
    } else {
        assert(changed.drop_last() =~= data.drop_last().update(i, b));
        lemma_crc16_detects_byte_change(data.drop_last(), i, b);
        lemma_crc_update_distinct(spec_crc16(changed.drop_last()), data.last(), spec_crc16(data.drop_last()), data.last());
    }
}

} // verus!
