use vstd::prelude::*;

use crate::cobs::{
    block_code, block_len, cobs_stuff, is_last_block, lemma_block, lemma_next_zero_bounds,
    lemma_next_zero_skip, data_pos, lemma_data_pos, lemma_unstuff_changed, lemma_stuff_len_short_data,
    lemma_stuff_nonzero, lemma_unstuff_ignores_tail, lemma_unstuff_stuffed, next_block, next_zero, open_code, stuff_from,
    unstuff, unstuff_from,
};
use crate::crc::{
    crc_bytes, lemma_crc16_detects_byte_change, lemma_crc16_table, lemma_crc_table_step,
    spec_crc16, CRC16_TABLE,
};
use crate::error::FrameError;

verus! {

/// A frame's payload of at most `N` bytes.
pub struct Frame<const N: usize> {
    payload: Vec<u8>,
}

/// The bytes that a frame stuffs: the payload followed by its CRC, high
/// byte first.
pub open spec fn frame_data(payload: Seq<u8>) -> Seq<u8> {
    payload + crc_bytes(spec_crc16(payload))
}

/// A complete frame on the wire: the stuffed payload and CRC, then the zero
/// that ends the frame.
pub open spec fn frame_encoding(payload: Seq<u8>) -> Seq<u8> {
    cobs_stuff(frame_data(payload)).push(0)
}

/// The output buffer after stuffing `data` into a buffer that held `before`:
/// the stuffed bytes and the terminating zero, as far as they fit, except
/// the code byte of the block that the end of the buffer cut (a code byte is
/// written once its block is complete); bytes past the frame are left as
/// they were. When the whole frame fits, its bytes are exactly the stuffed
/// bytes and the zero.
pub open spec fn encode_output(data: Seq<u8>, before: Seq<u8>) -> Seq<u8> {
    let e = cobs_stuff(data).push(0u8);
    let h = open_code(data, 0, 0, before.len() as int);
    Seq::new(before.len(), |p: int| if p == h || p >= e.len() { before[p] } else { e[p] })
}

/// The CRC that a two-byte trailer carries, high byte first.
pub open spec fn crc_value(hi: u8, lo: u8) -> u16 {
    (hi as int * 256 + lo as int) as u16
}

/// The payload of an unstuffed frame: all but its last two bytes.
pub open spec fn frame_body(bytes: Seq<u8>) -> Seq<u8> {
    if bytes.len() >= 2 {
        bytes.take(bytes.len() - 2)
    } else {
        Seq::empty()
    }
}

/// The CRC read from the end of an unstuffed frame; a frame shorter than two
/// bytes is read as if padded with zeros.
pub open spec fn frame_trailer_crc(bytes: Seq<u8>) -> u16 {
    if bytes.len() >= 2 {
        crc_value(bytes[bytes.len() - 2], bytes[bytes.len() - 1])
    } else if bytes.len() == 1 {
        crc_value(bytes[0], 0)
    } else {
        0
    }
}

/// What decoding `raw` gives for a frame of capacity `cap`: the unstuffed
/// bytes are the payload and a trailing CRC; more than `cap + 2` of them
/// overflow the payload, a frame without its terminating zero (or with a zero
/// code byte) is malformed, and a CRC that does not match the payload is
/// refused.
pub open spec fn decode_spec(raw: Seq<u8>, cap: int) -> Result<Seq<u8>, FrameError> {
    let u = unstuff(raw);
    if u.0.len() > cap + 2 {
        Err(FrameError::BufferTooSmall)
    } else if !u.1 {
        Err(FrameError::InvalidLength)
    } else if frame_trailer_crc(u.0) != spec_crc16(frame_body(u.0)) {
        Err(FrameError::CrcMismatch)
    } else {
        Ok(frame_body(u.0))
    }
}

/// The decoder's state after it has produced `produced`: the payload so far
/// holds all but the last two bytes, and the two-byte window holds those (as
/// many of them as there are, padded with zeros).
pub open spec fn window_holds(payload: Seq<u8>, window: Seq<u8>, window_len: usize, produced: Seq<u8>) -> bool {
    &&& window.len() == 2
    &&& payload == frame_body(produced)
    &&& window_len == (if produced.len() >= 2 { 2 } else { produced.len() })
    &&& crc_value(window[0], window[1]) == frame_trailer_crc(produced)
    &&& window_len == 2 ==> window[0] == produced[produced.len() - 2] && window[1] == produced[produced.len() - 1]
    &&& window_len == 1 ==> window[0] == produced[0] && window[1] == 0
}

/// Reading the trailer's two bytes, high byte first, gives their CRC value.
proof fn lemma_crc_value(hi: u8, lo: u8)
    ensures
        (((hi as u16) << 8u16) | (lo as u16)) as u16 == crc_value(hi, lo),
{
    assert((((hi as u16) << 8u16) | (lo as u16)) as u16 == (hi as u16) * 256 + (lo as u16)) by (bit_vector);
}

/// Appends a decoded byte: the oldest byte of a full window moves to the
/// payload, which fails once the payload holds `cap` bytes.
fn push_decoded(
    payload: &mut Vec<u8>,
    window: &mut [u8; 2],
    window_len: &mut usize,
    byte: u8,
    cap: usize,
    Ghost(produced): Ghost<Seq<u8>>,
) -> (r: Result<(), FrameError>)
    requires
        window_holds(old(payload)@, old(window)@, *old(window_len), produced),
        produced.len() <= cap + 2,
    ensures
        r is Ok <==> produced.len() < cap + 2,
        r is Ok ==> window_holds(final(payload)@, final(window)@, *final(window_len), produced.push(byte)),
        r matches Err(e) ==> e == FrameError::BufferTooSmall,
{
    if *window_len == 2 {
        if payload.len() >= cap {
            return Err(FrameError::BufferTooSmall);
        }
        let oldest = window[0];
        payload.push(oldest);
        window[0] = window[1];
        window[1] = byte;
        proof {
            assert(payload@ =~= frame_body(produced.push(byte)));
        }
    } else if *window_len == 1 {
        window[1] = byte;
        *window_len = 2;
        proof {
            assert(payload@ =~= frame_body(produced.push(byte)));
        }
    } else {
        window[0] = byte;
        *window_len = 1;
        proof {
            assert(payload@ =~= frame_body(produced.push(byte)));
        }
    }
    Ok(())
}

/// The two CRC bytes on the wire read back as the CRC they were written
/// from.
pub proof fn lemma_crc_bytes_roundtrip(crc: u16)
    ensures
        crc_value(crc_bytes(crc)[0], crc_bytes(crc)[1]) == crc,
{
    let hi = (crc >> 8u16) as u8;
    let lo = (crc & 0xFFu16) as u8;
    assert((hi as u16) * 256 + (lo as u16) == crc) by (bit_vector)
        requires
            hi == (crc >> 8u16) as u8,
            lo == (crc & 0xFFu16) as u8,
    ;
}

/// Shape of an encoded frame: at least four bytes longer than its payload,
/// exactly four when payload and CRC take at most 254 bytes, and at most
/// payload + 2 CRC bytes + one code byte per started 254 bytes of them + 1
/// terminator; ended by its only zero byte.
pub proof fn lemma_frame_encoding_shape(payload: Seq<u8>)
    ensures
        frame_encoding(payload).len() >= payload.len() + 4,
        frame_encoding(payload).len() <= payload.len() + 3 + (payload.len() + 2 + 253) / 254,
        payload.len() <= 252 ==> frame_encoding(payload).len() == payload.len() + 4,
        frame_encoding(payload).last() == 0,
        forall|i: int| 0 <= i < frame_encoding(payload).len() - 1 ==> #[trigger] frame_encoding(payload)[i] != 0,
{
    lemma_stuff_nonzero(frame_data(payload), 0);
    if payload.len() <= 252 {
        lemma_stuff_len_short_data(frame_data(payload), 0);
    }
}

/// Decoding an encoded frame gives back its payload, whatever follows the
/// zero that ends the frame, when the payload fits the decoder's capacity.
pub proof fn lemma_decode_encode_roundtrip(payload: Seq<u8>, rest: Seq<u8>, cap: int)
    requires
        payload.len() <= cap,
    ensures
        decode_spec(frame_encoding(payload) + rest, cap) == Ok::<Seq<u8>, FrameError>(payload),
{
    let data = frame_data(payload);
    let tail = seq![0u8] + rest;
    lemma_unstuff_stuffed(data, tail);
    assert(frame_encoding(payload) + rest =~= cobs_stuff(data) + tail);
    lemma_crc_bytes_roundtrip(spec_crc16(payload));
    assert(frame_body(data) =~= payload);
}

/// A frame in which the byte that carries a non-zero payload or CRC byte
/// (the `j`-th of payload and CRC, at position `q` of the frame) was
/// replaced by any other byte, zero included, decodes as a CRC mismatch: the
/// framing is intact, since the decoder copies a block's bytes without
/// looking at them, and CRC-16 catches every single-byte change.
pub proof fn lemma_changed_data_byte_detected(payload: Seq<u8>, j: int, v: u8, cap: int) -> (q: int)
    requires
        payload.len() <= cap,
        0 <= j < frame_data(payload).len(),
        frame_data(payload)[j] != 0,
        v != frame_data(payload)[j],
    ensures
        0 < q < frame_encoding(payload).len() - 1,
        frame_encoding(payload)[q] == frame_data(payload)[j],
        decode_spec(frame_encoding(payload).update(q, v), cap) == Err::<Seq<u8>, FrameError>(
            FrameError::CrcMismatch,
        ),
{
    let data = frame_data(payload);
    let len = payload.len() as int;
    let crc = spec_crc16(payload);
    let changed = data.update(j, v);
    let q = data_pos(data, 0, j);
    lemma_data_pos(data, 0, j);
    assert(frame_encoding(payload).update(q, v) =~= cobs_stuff(data).update(q, v) + seq![0u8]);
    lemma_unstuff_changed(data, seq![0u8], j, v);
    lemma_crc_bytes_roundtrip(crc);
    if j < len {
        assert(frame_body(changed) =~= payload.update(j, v));
        assert(changed[len] == data[len] && changed[len + 1] == data[len + 1]);
        lemma_crc16_detects_byte_change(payload, j, v);
    } else {
        assert(frame_body(changed) =~= payload);
    }
    q
}

/// Decoding stops at the zero that ends a frame: once the frame is complete,
/// whatever follows it changes nothing, for any input.
pub proof fn lemma_decode_ignores_tail(raw: Seq<u8>, rest: Seq<u8>, cap: int)
    requires
        unstuff(raw).1,
    ensures
        decode_spec(raw + rest, cap) == decode_spec(raw, cap),
{
    lemma_unstuff_ignores_tail(raw, rest, 0);
}

impl<const N: usize> View for Frame<N> {
    type V = Seq<u8>;

    closed spec fn view(&self) -> Seq<u8> {
        self.payload@
    }
}

impl<const N: usize> Frame<N> {
    #[verifier::type_invariant]
    closed spec fn inv(self) -> bool {
        self.payload@.len() <= N
    }

    /// Builds a frame that carries `payload`.
    ///
    /// # Errors
    /// Returns [`FrameError::PayloadTooLarge`] if `payload.len() > N`.
    pub fn new(payload: &[u8]) -> (r: Result<Self, FrameError>)
        ensures
            r is Ok <==> payload@.len() <= N,
            r matches Ok(f) ==> f@ == payload@,
            r matches Err(e) ==> e == FrameError::PayloadTooLarge,
    {
        if payload.len() > N {
            Err(FrameError::PayloadTooLarge)
        } else {
            let v = vstd::slice::slice_to_vec(payload);
            Ok(Self { payload: v })
        }
    }

    /// The payload that the frame carries.
    pub fn payload(&self) -> (r: &[u8])
        ensures
            r@ == self@,
            r@.len() <= N,
    {
        proof {
            use_type_invariant(self);
        }
        self.payload.as_slice()
    }

    /// CRC-16/CCITT-FALSE of `data`, computed a byte at a time from the table.
    #[must_use]
    #[verifier::spinoff_prover]
    pub fn crc16(data: &[u8]) -> (crc: u16)
        ensures
            crc == spec_crc16(data@),
    {
        let mut crc: u16 = 0xFFFF;
        let mut i: usize = 0;
        while i < data.len()
            invariant
                i <= data@.len(),
                crc == spec_crc16(data@.take(i as int)),
            decreases data@.len() - i,
        {
            let b = data[i];
            let pos = (((crc >> 8) as u8) ^ b) as usize;
            proof {
                lemma_crc16_table();
                lemma_crc_table_step(crc, b);
                assert(data@.take(i + 1).drop_last() =~= data@.take(i as int));
                assert(pos * 256 == ((((crc >> 8u16) as u8) ^ b) as u16 * 256u16) as u16);
            }
            crc = (crc << 8) ^ CRC16_TABLE[pos];
            i += 1;
        }
        assert(data@.take(i as int) =~= data@);
        crc
    }

    /// Writes the frame, COBS-stuffed with its CRC and ended by a zero, into
    /// `out`, and returns how many bytes it wrote.
    ///
    /// # Errors
    /// Returns [`FrameError::BufferTooSmall`] if the `out` buffer is too small
    #[verifier::rlimit(80)]
    pub fn encode(&self, out: &mut [u8]) -> (r: Result<usize, FrameError>)
        requires
            frame_encoding(self@).len() <= usize::MAX,
        ensures
            final(out)@ == encode_output(frame_data(self@), old(out)@),
            r is Ok <==> old(out)@.len() >= frame_encoding(self@).len(),
            r matches Ok(n) ==> n == frame_encoding(self@).len() && final(out)@.take(n as int)
                == frame_encoding(self@),
            r matches Err(e) ==> e == FrameError::BufferTooSmall,
    {
        let crc = Self::crc16(self.payload.as_slice());
        let hi: u8 = (crc >> 8) as u8;
        let lo: u8 = (crc & 0xFF) as u8;
        let len = self.payload.len();
        let ghost data = frame_data(self@);
        let ghost e = cobs_stuff(data);
        let ghost before = out@;
        let ghost lim = out@.len() as int;
        proof {
            lemma_stuff_nonzero(data, 0);
        }
        let total = len + 2;
        assert(data[len as int] == hi && data[len + 1] == lo);
        assert(forall|j: int| 0 <= j < len ==> data[j] == self@[j]);
        let mut write_pos: usize = 1;
        let mut header_pos: usize = 0;
        let mut distance: u8 = 1;
        let mut k: usize = 0;
        let ghost mut s: int = 0;
        assert(e.subrange(0, e.len() as int) =~= stuff_from(data, 0));
        while k < total
            invariant
                data == frame_data(self@),
                e == cobs_stuff(data),
                e.len() + 1 <= usize::MAX,
                e.len() >= total + 1,
                data.len() == total,
                total == len + 2,
                len == self@.len(),
                data[len as int] == hi,
                data[len + 1] == lo,
                forall|j: int| 0 <= j < len ==> data[j] == self@[j],
                lim == before.len(),
                before == old(out)@,
                out@.len() == lim,
                0 <= s <= k <= total,
                header_pos <= lim,
                header_pos < e.len(),
                e.subrange(header_pos as int, e.len() as int) == stuff_from(data, s),
                write_pos == header_pos + 1 + (k - s),
                distance == k - s + 1,
                k - s <= 254,
                k < total ==> k - s <= 253,
                forall|j: int| s <= j < k ==> #[trigger] data[j] != 0,
                k > s ==> header_pos + (k - s) < lim,
                open_code(data, 0, 0, lim) == open_code(data, s, header_pos as int, lim),
                forall|p: int|
                    0 <= p < lim ==> #[trigger] out@[p] == (if p < header_pos {
                        e[p]
                    } else if p == header_pos {
                        before[p]
                    } else if p < write_pos {
                        e[p]
                    } else {
                        before[p]
                    }),
            decreases total - k,
        {
            let b: u8 = if k < len {
                self.payload[k]
            } else if k == len {
                hi
            } else {
                lo
            };
            assert(b == data[k as int]);
            proof {
                lemma_block(data, s);
                lemma_next_zero_bounds(data, s);
                lemma_next_zero_skip(data, s, k as int);
                assert(stuff_from(data, s).len() == e.len() - header_pos);
                assert(stuff_from(data, s).len() >= 1 + block_len(data, s));
                assert(e.subrange(header_pos as int, e.len() as int)[0] == e[header_pos as int]);
                assert(e[header_pos as int] == stuff_from(data, s)[0]);
            }
            if b == 0 {
                if header_pos >= out.len() {
                    proof {
                        assert(out@ =~= encode_output(data, before));
                    }
                    return Err(FrameError::BufferTooSmall);
                }
                proof {
                    assert(next_zero(data, s) == k);
                    assert(block_len(data, s) == k - s);
                    let n = next_block(data, s);
                    assert(n == k + 1);
                    let blk = seq![block_code(data, s)] + data.subrange(s, s + block_len(data, s));
                    let sf = stuff_from(data, s);
                    assert(!is_last_block(data, s));
                    assert(sf == blk + stuff_from(data, n));
                    assert(blk.len() == write_pos - header_pos);
                    assert(sf.len() == e.len() - header_pos);
                    assert(write_pos <= e.len());
                    let tl = e.subrange(write_pos as int, e.len() as int);
                    assert forall|x: int| 0 <= x < tl.len() implies #[trigger] tl[x] == stuff_from(data, n)[x] by {
                        assert(tl[x] == e[write_pos + x]);
                        assert(e.subrange(header_pos as int, e.len() as int)[write_pos - header_pos + x] == e[write_pos + x]);
                        assert(sf[blk.len() + x] == stuff_from(data, n)[x]);
                    }
                    assert(tl =~= stuff_from(data, n));
                }
                out[header_pos] = distance;
                header_pos = write_pos;
                distance = 1;
                proof {
                    s = k + 1;
                }
            } else {
                if write_pos >= out.len() {
                    proof {
                        assert(next_zero(data, s) > k);
                        assert(block_len(data, s) >= k - s + 1);
                        assert(open_code(data, s, header_pos as int, lim) == header_pos);
                        assert(out@ =~= encode_output(data, before));
                    }
                    return Err(FrameError::BufferTooSmall);
                }
                proof {
                    assert(next_zero(data, s) > k);
                    assert(block_len(data, s) >= k - s + 1);
                    assert(write_pos < e.len());
                    assert(stuff_from(data, s)[1 + (k - s)] == data[k as int]);
                    assert(e.subrange(header_pos as int, e.len() as int)[1 + (k - s)] == e[write_pos as int]);
                }
                out[write_pos] = b;
                distance = distance + 1;
                if distance == 255 && k + 1 < total {
                    proof {
                        assert(block_len(data, s) == 254);
                        let n = next_block(data, s);
                        let blk = seq![block_code(data, s)] + data.subrange(s, s + block_len(data, s));
                        let sf = stuff_from(data, s);
                        assert(sf == blk + stuff_from(data, n));
                        assert(blk.len() == write_pos + 1 - header_pos);
                        assert(write_pos + 1 <= e.len());
                        let tl = e.subrange(write_pos + 1, e.len() as int);
                        assert forall|x: int| 0 <= x < tl.len() implies #[trigger] tl[x] == stuff_from(data, n)[x] by {
                            assert(tl[x] == e[write_pos + 1 + x]);
                            assert(e.subrange(header_pos as int, e.len() as int)[write_pos + 1 - header_pos + x] == e[write_pos + 1 + x]);
                            assert(sf[blk.len() + x] == stuff_from(data, n)[x]);
                        }
                        assert(tl =~= stuff_from(data, n));
                        lemma_block(data, n);
                    }
                    out[header_pos] = 0xFF;
                    header_pos = write_pos + 1;
                    write_pos = write_pos + 1;
                    distance = 1;
                    proof {
                        s = k + 1;
                    }
                }
            }
            write_pos = write_pos + 1;
            k = k + 1;
        }
        proof {
            lemma_block(data, s);
            lemma_next_zero_bounds(data, s);
            lemma_next_zero_skip(data, s, total as int);
            assert(is_last_block(data, s));
            assert(e.len() == header_pos + 1 + block_len(data, s));
        }
        if header_pos >= out.len() {
            proof {
                assert(open_code(data, s, header_pos as int, lim) == header_pos);
                assert(out@ =~= encode_output(data, before));
            }
            return Err(FrameError::BufferTooSmall);
        }
        proof {
            assert(e.subrange(header_pos as int, e.len() as int)[0] == e[header_pos as int]);
        }
        out[header_pos] = distance;
        if write_pos >= out.len() {
            proof {
                assert(open_code(data, s, header_pos as int, lim) == lim);
                assert(out@ =~= encode_output(data, before));
            }
            return Err(FrameError::BufferTooSmall);
        }
        out[write_pos] = 0;
        write_pos = write_pos + 1;
        proof {
            assert(open_code(data, s, header_pos as int, lim) == lim);
            assert(out@ =~= encode_output(data, before));
            assert(out@.take(write_pos as int) =~= frame_encoding(self@));
        }
        Ok(write_pos)
    }

    /// Reads a frame back from its COBS-stuffed bytes, up to the first zero
    /// that ends it, and checks its CRC.
    ///
    /// # Errors
    ///
    /// Will return `FrameError` if the `raw` buffer is inherently incorrect.
    /// For example being much smaller than the inital payload
    pub fn decode(raw: &[u8]) -> (r: Result<Self, FrameError>)
        ensures
            r matches Ok(f) ==> decode_spec(raw@, N as int) == Ok::<Seq<u8>, FrameError>(f@),
            r matches Err(e) ==> decode_spec(raw@, N as int) == Err::<Seq<u8>, FrameError>(e),
    {
        let mut payload: Vec<u8> = Vec::new();
        let mut window: [u8; 2] = [0u8; 2];
        let mut window_len: usize = 0;
        let mut i: usize = 0;
        let ghost mut produced: Seq<u8> = Seq::empty();
        let ghost total = unstuff(raw@);
        proof {
            assert(payload@ =~= frame_body(produced));
            assert(crc_value(0, 0) == 0);
        }
        loop
            invariant_except_break
                total.0 == produced + unstuff_from(raw@, i as int).0,
                total.1 == unstuff_from(raw@, i as int).1,
            invariant
                i <= raw@.len(),
                window_holds(payload@, window@, window_len, produced),
                produced.len() <= N + 2,
                total == unstuff(raw@),
            ensures
                window_holds(payload@, window@, window_len, produced),
                produced.len() <= N + 2,
                total == unstuff(raw@),
                total == (produced, true),
            decreases raw@.len() - i,
        {
            if i >= raw.len() {
                proof {
                    assert(total.0 =~= produced);
                }
                return Err(FrameError::InvalidLength);
            }
            let code = raw[i];
            let ghost start = i as int;
            let ghost block_start = produced;
            i = i + 1;
            if code == 0 {
                proof {
                    assert(total.0 =~= produced);
                }
                return Err(FrameError::InvalidLength);
            }
            let mut j: u8 = 0;
            while j < code - 1
                invariant
                    0 <= start < raw@.len(),
                    raw@[start] == code,
                    code != 0,
                    j <= code - 1,
                    i == start + 1 + j,
                    i <= raw@.len(),
                    produced == block_start + raw@.subrange(start + 1, i as int),
                    total == unstuff(raw@),
                    total.0 == block_start + unstuff_from(raw@, start).0,
                    total.1 == unstuff_from(raw@, start).1,
                    window_holds(payload@, window@, window_len, produced),
                    produced.len() <= N + 2,
                decreases code - 1 - j,
            {
                if i >= raw.len() {
                    proof {
                        assert(total.0 =~= produced);
                    }
                    return Err(FrameError::InvalidLength);
                }
                let b = raw[i];
                proof {
                    let u = unstuff_from(raw@, start).0;
                    assert(u.len() >= i + 1 - (start + 1));
                    assert(u[i - (start + 1)] == b);
                    assert(total.0[produced.len() as int] == b);
                }
                match push_decoded(&mut payload, &mut window, &mut window_len, b, N, Ghost(produced)) {
                    Ok(()) => {},
                    Err(e) => {
                        return Err(e);
                    },
                }
                proof {
                    produced = produced.push(b);
                    assert(produced =~= block_start + raw@.subrange(start + 1, i + 1));
                }
                i = i + 1;
                j = j + 1;
            }
            if i >= raw.len() {
                proof {
                    assert(total.0 =~= produced);
                }
                return Err(FrameError::InvalidLength);
            }
            if raw[i] == 0 {
                proof {
                    assert(total.0 =~= produced);
                }
                break;
            }
            if code == 0xFF {
                proof {
                    assert(total.0 =~= produced + unstuff_from(raw@, i as int).0);
                }
            } else {
                proof {
                    assert(total.0 =~= produced.push(0) + unstuff_from(raw@, i as int).0);
                    assert(total.0[produced.len() as int] == 0);
                }
                match push_decoded(&mut payload, &mut window, &mut window_len, 0, N, Ghost(produced)) {
                    Ok(()) => {},
                    Err(e) => {
                        return Err(e);
                    },
                }
                proof {
                    produced = produced.push(0);
                }
            }
        }
        let crc_hi = window[0];
        let crc_lo = window[1];
        let received_crc: u16 = ((crc_hi as u16) << 8) | (crc_lo as u16);
        proof {
            lemma_crc_value(crc_hi, crc_lo);
        }
        let computed_crc = Self::crc16(payload.as_slice());
        if received_crc != computed_crc {
            return Err(FrameError::CrcMismatch);
        }
        Ok(Self { payload })
    }
}

} // verus!
