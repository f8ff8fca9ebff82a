use vstd::prelude::*;

verus! {

/// Index of the first zero of `data` at or after `s`; `data.len()` when
/// there is none.
pub open spec fn next_zero(data: Seq<u8>, s: int) -> int
    decreases data.len() - s,
{
    if s < 0 || s >= data.len() {
        data.len() as int
    } else if data[s] == 0 {
        s
    } else {
        next_zero(data, s + 1)
    }
}

/// How many data bytes the COBS block that starts at index `s` carries: the
/// non-zero bytes up to the next zero, at most 254 of them.
pub open spec fn block_len(data: Seq<u8>, s: int) -> int {
    if next_zero(data, s) - s >= 254 {
        254
    } else {
        next_zero(data, s) - s
    }
}

/// The block starting at `s` is the last one: it runs to the end of the
/// data, with no zero, in at most 254 bytes. A full block that ends exactly
/// at the end of the data is the last one too.
pub open spec fn is_last_block(data: Seq<u8>, s: int) -> bool {
    next_zero(data, s) == data.len() && data.len() - s <= 254
}

/// Where the block after the one starting at `s` starts: past the zero that
/// closed it, or right after a full run of 254 bytes.
pub open spec fn next_block(data: Seq<u8>, s: int) -> int {
    if next_zero(data, s) - s >= 254 {
        s + 254
    } else {
        next_zero(data, s) + 1
    }
}

/// The code byte of the block starting at `s`: one more than the number of
/// bytes it carries (0xFF for a full block, which stands for no zero).
pub open spec fn block_code(data: Seq<u8>, s: int) -> u8 {
    (block_len(data, s) + 1) as u8
}

/// COBS stuffing of `data` from index `s` on: each block is its code byte
/// and the bytes it carries. A block ends at a zero, which it stands for, or
/// after 254 non-zero bytes.
pub open spec fn stuff_from(data: Seq<u8>, s: int) -> Seq<u8>
    decreases data.len() - s,
{
    if s < 0 || s > data.len() {
        Seq::empty()
    } else {
        let block = seq![block_code(data, s)] + data.subrange(s, s + block_len(data, s));
        if is_last_block(data, s) {
            block
        } else {
            proof {
                lemma_next_zero_bounds(data, s);
            }
            block + stuff_from(data, next_block(data, s))
        }
    }
}

/// COBS stuffing of `data`: a sequence without zeros, to be followed by the
/// zero that ends a frame.
pub open spec fn cobs_stuff(data: Seq<u8>) -> Seq<u8> {
    stuff_from(data, 0)
}

/// Where the code byte stands that stays unwritten when stuffing `data` from
/// index `s`, placed at output position `o`, runs out of a buffer of `lim`
/// bytes: the code byte of the block that covers position `lim`. A code byte
/// is written once its block is complete, so that code byte is the only one
/// before `lim` that is not. It is `lim` itself when no block covers `lim`.
pub open spec fn open_code(data: Seq<u8>, s: int, o: int, lim: int) -> int
    decreases data.len() - s,
{
    if s < 0 || s > data.len() {
        lim
    } else if lim < o + 1 + block_len(data, s) {
        if lim < o {
            lim
        } else {
            o
        }
    } else if is_last_block(data, s) {
        lim
    } else {
        proof {
            lemma_next_zero_bounds(data, s);
        }
        open_code(data, next_block(data, s), o + 1 + block_len(data, s), lim)
    }
}

/// Unstuffing of `raw` from the code byte at `i`: the bytes that the decoder
/// produces, and whether it reached the zero that ends the frame. A block
/// whose code byte is below 0xFF and is followed by another non-zero byte
/// stands for its data bytes followed by a zero; a full block (code 0xFF)
/// stands for its data bytes alone. The decoder stops without success at a
/// zero code byte or at the end of `raw`.
pub open spec fn unstuff_from(raw: Seq<u8>, i: int) -> (Seq<u8>, bool)
    decreases raw.len() - i,
{
    if i < 0 || i >= raw.len() {
        (Seq::empty(), false)
    } else {
        let code = raw[i] as int;
        if code == 0 {
            (Seq::empty(), false)
        } else if i + code >= raw.len() {
            (raw.subrange(i + 1, raw.len() as int), false)
        } else if raw[i + code] == 0 {
            (raw.subrange(i + 1, i + code), true)
        } else if code == 255 {
            let rest = unstuff_from(raw, i + code);
            (raw.subrange(i + 1, i + code) + rest.0, rest.1)
        } else {
            let rest = unstuff_from(raw, i + code);
            (raw.subrange(i + 1, i + code).push(0) + rest.0, rest.1)
        }
    }
}

/// Unstuffing of a whole received frame.
pub open spec fn unstuff(raw: Seq<u8>) -> (Seq<u8>, bool) {
    unstuff_from(raw, 0)
}

/// Skipping non-zero bytes does not change where the next zero is.
pub proof fn lemma_next_zero_skip(data: Seq<u8>, s: int, k: int)
    requires
        0 <= s <= k <= data.len(),
        forall|j: int| s <= j < k ==> #[trigger] data[j] != 0,
    ensures
        next_zero(data, s) == next_zero(data, k),
    decreases k - s,
{
    if s < k {
        lemma_next_zero_skip(data, s + 1, k);
    }
}

/// The next zero lies in `[s, data.len()]`, and the bytes before it are
/// non-zero.
pub proof fn lemma_next_zero_bounds(data: Seq<u8>, s: int)
    requires
        0 <= s <= data.len(),
    ensures
        s <= next_zero(data, s) <= data.len(),
        next_zero(data, s) < data.len() ==> data[next_zero(data, s)] == 0,
        forall|j: int| s <= j < next_zero(data, s) ==> #[trigger] data[j] != 0,
    decreases data.len() - s,
{
    if s < data.len() && data[s] != 0 {
        lemma_next_zero_bounds(data, s + 1);
    }
}

/// The first block of the stuffing from `s`: its code byte, then the bytes
/// it carries, all non-zero, then the blocks after it.
pub proof fn lemma_block(data: Seq<u8>, s: int)
    requires
        0 <= s <= data.len(),
    ensures
        0 <= block_len(data, s) <= 254,
        s + block_len(data, s) <= data.len(),
        forall|j: int| s <= j < s + block_len(data, s) ==> #[trigger] data[j] != 0,
        1 <= block_code(data, s) <= 255,
        block_code(data, s) == block_len(data, s) + 1,
        !is_last_block(data, s) ==> s < next_block(data, s) <= data.len(),
        !is_last_block(data, s) && block_len(data, s) < 254 ==> data[s + block_len(data, s)] == 0
            && next_block(data, s) == s + block_len(data, s) + 1,
        !is_last_block(data, s) && block_len(data, s) == 254 ==> next_block(data, s) == s + 254,
        is_last_block(data, s) ==> s + block_len(data, s) == data.len(),
        stuff_from(data, s) == (if is_last_block(data, s) {
            seq![block_code(data, s)] + data.subrange(s, s + block_len(data, s))
        } else {
            seq![block_code(data, s)] + data.subrange(s, s + block_len(data, s)) + stuff_from(
                data,
                next_block(data, s),
            )
        }),
{
    lemma_next_zero_bounds(data, s);
}

/// Stuffing from `s` holds no zero, and is at least one byte longer than the
/// data it stuffs.
pub proof fn lemma_stuff_nonzero(data: Seq<u8>, s: int)
    requires
        0 <= s <= data.len(),
    ensures
        stuff_from(data, s).len() >= data.len() - s + 1,
        data.len() - s >= 1 ==> stuff_from(data, s).len() <= data.len() - s + (data.len() - s + 253) / 254,
        data.len() - s == 0 ==> stuff_from(data, s).len() == 1,
        forall|p: int| 0 <= p < stuff_from(data, s).len() ==> #[trigger] stuff_from(data, s)[p] != 0,
    decreases data.len() - s,
{
    lemma_block(data, s);
    lemma_next_zero_bounds(data, s);
    let b = block_len(data, s);
    let block = seq![block_code(data, s)] + data.subrange(s, s + b);
    assert forall|p: int| 0 <= p < block.len() implies #[trigger] block[p] != 0 by {
        if p > 0 {
            assert(block[p] == data[s + p - 1]);
        }
    }
    if !is_last_block(data, s) {
        let n = next_block(data, s);
        lemma_stuff_nonzero(data, n);
        let rest = stuff_from(data, n);
        assert forall|p: int| 0 <= p < stuff_from(data, s).len() implies #[trigger] stuff_from(data, s)[p] != 0 by {
            if p >= block.len() {
                assert(stuff_from(data, s)[p] == rest[p - block.len()]);
            } else {
                assert(stuff_from(data, s)[p] == block[p]);
            }
        }
        let r = data.len() - s;
        let r2 = data.len() - n;
        if b == 254 {
            assert(r2 >= 1);
            assert((r + 253) / 254 == 1 + (r2 + 253) / 254);
        } else if r2 >= 1 {
            assert((r2 + 253) / 254 <= (r + 253) / 254);
            assert((r + 253) / 254 >= 1);
        } else {
            assert((r + 253) / 254 >= 1);
        }
    }
}

/// Data of at most 254 bytes is never split into blocks without a zero
/// between them, so stuffing it from `s` is exactly one byte longer than the
/// data it stuffs.
pub proof fn lemma_stuff_len_short_data(data: Seq<u8>, s: int)
    requires
        0 <= s <= data.len(),
        data.len() <= 254,
    ensures
        stuff_from(data, s).len() == data.len() - s + 1,
    decreases data.len() - s,
{
    lemma_block(data, s);
    lemma_next_zero_bounds(data, s);
    if !is_last_block(data, s) {
        lemma_stuff_len_short_data(data, next_block(data, s));
    }
}

/// Unstuffing the stuffing from `s`, placed after any `pre` and followed by
/// a zero and anything else, gives back the data from `s` on.
proof fn lemma_unstuff_stuffed_from(data: Seq<u8>, pre: Seq<u8>, tail: Seq<u8>, s: int)
    requires
        0 <= s <= data.len(),
        tail.len() >= 1,
        tail[0] == 0,
    ensures
        unstuff_from(pre + stuff_from(data, s) + tail, pre.len() as int) == (
            data.subrange(s, data.len() as int),
            true,
        ),
    decreases data.len() - s,
{
    let raw = pre + stuff_from(data, s) + tail;
    let i = pre.len() as int;
    let b = block_len(data, s);
    lemma_block(data, s);
    let code = block_code(data, s) as int;
    assert(raw[i] == block_code(data, s));
    assert(raw.subrange(i + 1, i + code) =~= data.subrange(s, s + b));
    if is_last_block(data, s) {
        assert(raw[i + code] == 0);
        assert(s + b == data.len());
    } else {
        let n = next_block(data, s);
        let pre2 = pre + seq![block_code(data, s)] + data.subrange(s, s + b);
        assert(raw =~= pre2 + stuff_from(data, n) + tail);
        assert(pre2.len() == i + code);
        lemma_stuff_nonzero(data, n);
        assert(raw[i + code] == stuff_from(data, n)[0]);
        lemma_unstuff_stuffed_from(data, pre2, tail, n);
        if b == 254 {
            assert(data.subrange(s, s + 254) + data.subrange(n, data.len() as int) =~= data.subrange(
                s,
                data.len() as int,
            ));
        } else {
            assert(data.subrange(s, s + b).push(0) + data.subrange(n, data.len() as int) =~= data.subrange(
                s,
                data.len() as int,
            ));
        }
    }
}

/// Unstuffing inverts stuffing: stuffed data, ended by a zero, decodes to
/// that data, whatever follows the zero.
pub proof fn lemma_unstuff_stuffed(data: Seq<u8>, tail: Seq<u8>)
    requires
        tail.len() >= 1,
        tail[0] == 0,
    ensures
        unstuff(cobs_stuff(data) + tail) == (data, true),
{
    lemma_unstuff_stuffed_from(data, Seq::empty(), tail, 0);
    assert(Seq::<u8>::empty() + cobs_stuff(data) + tail =~= cobs_stuff(data) + tail);
    assert(data.subrange(0, data.len() as int) =~= data);
}

/// Where non-zero byte `j` of the data stands in its stuffing from `s`: after
/// the code byte and the bytes before it in its block, past the blocks before
/// that one.
pub open spec fn data_pos(data: Seq<u8>, s: int, j: int) -> int
    decreases data.len() - s,
{
    if s < 0 || s > data.len() {
        0
    } else if j < s + block_len(data, s) {
        1 + (j - s)
    } else if is_last_block(data, s) {
        0
    } else {
        proof {
            lemma_next_zero_bounds(data, s);
        }
        1 + block_len(data, s) + data_pos(data, next_block(data, s), j)
    }
}

/// A non-zero data byte is carried, unchanged, at its position in the
/// stuffing, which is not a code byte's.
pub proof fn lemma_data_pos(data: Seq<u8>, s: int, j: int)
    requires
        0 <= s <= j < data.len(),
        data[j] != 0,
    ensures
        0 < data_pos(data, s, j) < stuff_from(data, s).len(),
        stuff_from(data, s)[data_pos(data, s, j)] == data[j],
    decreases data.len() - s,
{
    lemma_block(data, s);
    lemma_next_zero_bounds(data, s);
    let b = block_len(data, s);
    if j >= s + b {
        // a zero closes the block before `j`, or a full block does
        assert(!is_last_block(data, s));
        let n = next_block(data, s);
        lemma_data_pos(data, n, j);
        let block = seq![block_code(data, s)] + data.subrange(s, s + b);
        assert(stuff_from(data, s)[block.len() + data_pos(data, n, j)] == stuff_from(data, n)[data_pos(data, n, j)]);
    }
}

/// Unstuffing a stuffing from `s` in which the byte carrying non-zero data
/// byte `j` was replaced by any byte `v` (even a zero: the decoder copies the
/// bytes of a block without looking at them) gives back the data from `s` on
/// with byte `j` replaced by `v`.
proof fn lemma_unstuff_changed_from(data: Seq<u8>, pre: Seq<u8>, tail: Seq<u8>, s: int, j: int, v: u8)
    requires
        0 <= s <= j < data.len(),
        data[j] != 0,
        tail.len() >= 1,
        tail[0] == 0,
    ensures
        unstuff_from(pre + stuff_from(data, s).update(data_pos(data, s, j), v) + tail, pre.len() as int)
            == (data.update(j, v).subrange(s, data.len() as int), true),
    decreases data.len() - s,
{
    let sf = stuff_from(data, s);
    let q = data_pos(data, s, j);
    lemma_data_pos(data, s, j);
    let raw = pre + sf.update(q, v) + tail;
    let i = pre.len() as int;
    let b = block_len(data, s);
    lemma_block(data, s);
    lemma_next_zero_bounds(data, s);
    let code = block_code(data, s) as int;
    let changed = data.update(j, v);
    assert(raw[i] == block_code(data, s));
    if j < s + b {
        assert(raw.subrange(i + 1, i + code) =~= changed.subrange(s, s + b));
        if is_last_block(data, s) {
            assert(raw[i + code] == 0);
            assert(s + b == data.len());
        } else {
            let n = next_block(data, s);
            let pre2 = pre + seq![block_code(data, s)] + changed.subrange(s, s + b);
            assert(raw =~= pre2 + stuff_from(data, n) + tail);
            lemma_stuff_nonzero(data, n);
            assert(raw[i + code] == stuff_from(data, n)[0]);
            lemma_unstuff_stuffed_from(data, pre2, tail, n);
            assert(changed.subrange(n, data.len() as int) =~= data.subrange(n, data.len() as int));
            if b == 254 {
                assert(changed.subrange(s, s + 254) + changed.subrange(n, data.len() as int) =~= changed.subrange(
                    s,
                    data.len() as int,
                ));
            } else {
                assert(changed.subrange(s, s + b).push(0) + changed.subrange(n, data.len() as int) =~= changed.subrange(
                    s,
                    data.len() as int,
                ));
            }
        }
    } else {
        assert(!is_last_block(data, s));
        let n = next_block(data, s);
        let qn = data_pos(data, n, j);
        let pre2 = pre + seq![block_code(data, s)] + data.subrange(s, s + b);
        assert(q == 1 + b + qn);
        lemma_data_pos(data, n, j);
        assert(sf == seq![block_code(data, s)] + data.subrange(s, s + b) + stuff_from(data, n));
        assert(sf.update(q, v) =~= seq![block_code(data, s)] + data.subrange(s, s + b) + stuff_from(data, n).update(qn, v));
        assert(raw =~= pre2 + stuff_from(data, n).update(qn, v) + tail);
        assert(raw.subrange(i + 1, i + code) =~= changed.subrange(s, s + b));
        lemma_stuff_nonzero(data, n);
        assert(raw[i + code] == stuff_from(data, n).update(qn, v)[0]);
        lemma_unstuff_changed_from(data, pre2, tail, n, j, v);
        if b == 254 {
            assert(changed.subrange(s, s + 254) + changed.subrange(n, data.len() as int) =~= changed.subrange(
                s,
                data.len() as int,
            ));
        } else {
            assert(changed.subrange(s, s + b).push(0) + changed.subrange(n, data.len() as int) =~= changed.subrange(
                s,
                data.len() as int,
            ));
        }
    }
}

/// Unstuffing a stuffed frame in which the byte carrying non-zero data byte
/// `j` was replaced by any byte `v` gives the data with byte `j` replaced.
pub proof fn lemma_unstuff_changed(data: Seq<u8>, tail: Seq<u8>, j: int, v: u8)
    requires
        0 <= j < data.len(),
        data[j] != 0,
        tail.len() >= 1,
        tail[0] == 0,
    ensures
        unstuff(cobs_stuff(data).update(data_pos(data, 0, j), v) + tail) == (data.update(j, v), true),
{
    lemma_unstuff_changed_from(data, Seq::empty(), tail, 0, j, v);
    assert(Seq::<u8>::empty() + cobs_stuff(data).update(data_pos(data, 0, j), v) + tail =~= cobs_stuff(
        data,
    ).update(data_pos(data, 0, j), v) + tail);
    assert(data.update(j, v).subrange(0, data.len() as int) =~= data.update(j, v));
}

/// Once unstuffing from `i` reaches the zero that ends the frame, bytes
/// appended after `raw` change nothing.
pub proof fn lemma_unstuff_ignores_tail(raw: Seq<u8>, rest: Seq<u8>, i: int)
    requires
        unstuff_from(raw, i).1,
    ensures
        unstuff_from(raw + rest, i) == unstuff_from(raw, i),
    decreases raw.len() - i,
{
    let ext = raw + rest;
    let code = raw[i] as int;
    assert(ext[i] == raw[i]);
    assert(i + code < raw.len());
    assert(ext[i + code] == raw[i + code]);
    assert(ext.subrange(i + 1, i + code) =~= raw.subrange(i + 1, i + code));
    if raw[i + code] != 0 {
        lemma_unstuff_ignores_tail(raw, rest, i + code);
    }
}

} // verus!
