//! A host-side UART emulator: two in-process byte queues joined crosswise,
//! with one-shot corruption of a written byte for testing without hardware.
use vstd::prelude::*;

use heapless::spsc::{Consumer, Producer, Queue};

use crate::transport::Transport;

verus! {

/// `heapless::spsc::Queue`, a single-producer single-consumer ring buffer.
#[verifier::external_type_specification]
#[verifier::external_body]
#[verifier::reject_recursive_types(T)]
pub struct ExSpscQueue<T, const N: usize>(Queue<T, N>);

/// `heapless::spsc::Producer`, the end of a queue that enqueues.
#[verifier::external_type_specification]
#[verifier::external_body]
#[verifier::reject_recursive_types(T)]
pub struct ExSpscProducer<'a, T, const N: usize>(Producer<'a, T, N>);

/// `heapless::spsc::Consumer`, the end of a queue that dequeues.
#[verifier::external_type_specification]
#[verifier::external_body]
#[verifier::reject_recursive_types(T)]
pub struct ExSpscConsumer<'a, T, const N: usize>(Consumer<'a, T, N>);

/// `heapless::spsc::Queue::new`: an empty queue. Nothing is stated of it.
#[verifier::external_body]
fn queue_new() -> (q: Queue<u8, 256>) {
    Queue::new()
}

/// The bytes enqueued so far through a producer end, in order.
pub uninterp spec fn producer_log(p: Producer<'_, u8, 256>) -> Seq<u8>;

/// The bytes dequeued so far through a consumer end, in order.
pub uninterp spec fn consumer_log(c: Consumer<'_, u8, 256>) -> Seq<u8>;

/// `heapless::spsc::Queue::split`: the producer and consumer ends of `q`,
/// neither of which has moved a byte yet. That what one end enqueues the
/// other dequeues is not stated: no contract over a single end can say it.
#[verifier::external_body]
fn queue_split<'a>(q: &'a mut Queue<u8, 256>) -> (ends: (Producer<'a, u8, 256>, Consumer<'a, u8, 256>))
    ensures
        producer_log(ends.0) == Seq::<u8>::empty(),
        consumer_log(ends.1) == Seq::<u8>::empty(),
{
    q.split()
}

/// `heapless::spsc::Producer::enqueue`: adds `b` to the queue, or, when the
/// queue is full, hands it back and adds nothing; whether it is full depends
/// on the other end.
#[verifier::external_body]
fn producer_enqueue(p: &mut Producer<'_, u8, 256>, b: u8) -> (r: Result<(), u8>)
    ensures
        r is Ok ==> producer_log(*final(p)) == producer_log(*old(p)).push(b),
        r is Err ==> (r matches Err(x) && x == b) && producer_log(*final(p)) == producer_log(*old(p)),
{
    p.enqueue(b)
}

/// `heapless::spsc::Consumer::dequeue`: the oldest byte of the queue, taken
/// out of it, or `None`, taking nothing, when it is empty; what it holds
/// depends on the other end.
#[verifier::external_body]
fn consumer_dequeue(c: &mut Consumer<'_, u8, 256>) -> (r: Option<u8>)
    ensures
        r matches Some(b) ==> consumer_log(*final(c)) == consumer_log(*old(c)).push(b),
        r is None ==> consumer_log(*final(c)) == consumer_log(*old(c)),
{
    c.dequeue()
}

/// Two byte queues, one for each direction of the emulated line.
pub struct UartEmulator {
    a_to_b: Queue<u8, 256>,
    b_to_a: Queue<u8, 256>,
}

impl Default for UartEmulator {
    fn default() -> (r: Self) {
        UartEmulator { a_to_b: queue_new(), b_to_a: queue_new() }
    }
}

/// One end of the emulated line: it writes into one queue and reads from
/// the other, and may corrupt one byte of what it writes.
pub struct UartSide<'a> {
    tx: Producer<'a, u8, 256>,
    rx: Consumer<'a, u8, 256>,
    corrupt_at: Option<usize>,
    handed: Ghost<Seq<u8>>,
    log: Ghost<Seq<(Seq<u8>, bool)>>,
}

/// Why the emulated line could not move a byte.
#[derive(Debug, Clone, Copy, PartialEq, Eq, Structural)]
pub enum TransportError {
    FailedRead,
    FailedWrite,
}

impl UartEmulator {
    /// The two ends of the line: what the first writes the second reads, and
    /// the other way round; neither corrupts anything yet.
    pub fn split(&mut self) -> (r: (UartSide<'_>, UartSide<'_>))
        ensures
            r.0.pending_corruption() is None,
            r.1.pending_corruption() is None,
            r.0.written() == Seq::<u8>::empty(),
            r.1.written() == Seq::<u8>::empty(),
            r.0.write_log() == Seq::<(Seq<u8>, bool)>::empty(),
            r.1.write_log() == Seq::<(Seq<u8>, bool)>::empty(),
            r.0.sent() == Seq::<u8>::empty(),
            r.1.sent() == Seq::<u8>::empty(),
            r.0.taken() == Seq::<u8>::empty(),
            r.1.taken() == Seq::<u8>::empty(),
    {
        let (a_tx, b_rx) = queue_split(&mut self.a_to_b);
        let (b_tx, a_rx) = queue_split(&mut self.b_to_a);
        (
            UartSide { tx: a_tx, rx: a_rx, corrupt_at: None, handed: Ghost(Seq::empty()), log: Ghost(Seq::empty()) },
            UartSide { tx: b_tx, rx: b_rx, corrupt_at: None, handed: Ghost(Seq::empty()), log: Ghost(Seq::empty()) },
        )
    }
}

/// The byte that the emulator sends for byte `i` of a write: all bits
/// flipped at the offset it was told to corrupt, unchanged elsewhere.
pub open spec fn emitted_byte(b: u8, i: int, corrupt_at: Option<usize>) -> u8 {
    if corrupt_at == Some(i as usize) && 0 <= i <= usize::MAX {
        b ^ 0xFFu8
    } else {
        b
    }
}

/// The bytes that the emulator sends for a write of `data`: `data` with the
/// byte at the pending offset, if the write reaches it, flipped.
pub open spec fn emitted_bytes(data: Seq<u8>, corrupt_at: Option<usize>) -> Seq<u8> {
    Seq::new(data.len(), |i: int| emitted_byte(data[i], i, corrupt_at))
}

/// What a write of `data` sends with a corruption pending at offset `p`:
/// when the write reaches `p`, the data with the byte at `p` (whatever its
/// value, a zero included, so a zero turns into 0xFF) replaced by its
/// complement, and every other byte as it is; otherwise the data unchanged.
/// With no corruption pending, the data goes out unchanged.
pub proof fn lemma_emitted_corrupts_one_byte(data: Seq<u8>, p: usize)
    ensures
        emitted_bytes(data, None) == data,
        p >= data.len() ==> emitted_bytes(data, Some(p)) == data,
        p < data.len() ==> emitted_bytes(data, Some(p)) == data.update(p as int, data[p as int] ^ 0xFFu8),
        p < data.len() ==> emitted_bytes(data, Some(p))[p as int] != data[p as int],
        p < data.len() && data[p as int] == 0 ==> emitted_bytes(data, Some(p))[p as int] == 0xFFu8,
{
    assert forall|b: u8| (b ^ 0xFFu8) != b && (b == 0 ==> (b ^ 0xFFu8) == 0xFFu8) by {
        assert((b ^ 0xFFu8) != b && (b == 0 ==> (b ^ 0xFFu8) == 0xFFu8)) by (bit_vector);
    }
    assert(emitted_bytes(data, None) =~= data);
    if p >= data.len() {
        assert forall|i: int| 0 <= i < data.len() implies emitted_bytes(data, Some(p))[i] == data[i] by {
            assert(i as usize != p);
        }
        assert(emitted_bytes(data, Some(p)) =~= data);
    } else {
        assert forall|i: int| 0 <= i < data.len() implies emitted_bytes(data, Some(p))[i] == data.update(
            p as int,
            data[p as int] ^ 0xFFu8,
        )[i] by {
            if i != p as int && i <= usize::MAX {
                assert(i as usize != p);
            }
        }
        assert(emitted_bytes(data, Some(p)) =~= data.update(p as int, data[p as int] ^ 0xFFu8));
    }
}

impl<'a> UartSide<'a> {
    /// The bytes this end has enqueued for the other, corruption included.
    pub closed spec fn sent(&self) -> Seq<u8> {
        producer_log(self.tx)
    }

    /// The offset, within the next write, of the byte to corrupt.
    pub closed spec fn pending_corruption(&self) -> Option<usize> {
        self.corrupt_at
    }

    /// Corrupts the byte at `offset` of the next write that reaches it.
    pub fn corrupt_byte_at(&mut self, offset: usize)
        ensures
            final(self).pending_corruption() == Some(offset),
            final(self).written() == old(self).written(),
            final(self).write_log() == old(self).write_log(),
            final(self).sent() == old(self).sent(),
            final(self).taken() == old(self).taken(),
    {
        self.corrupt_at = Some(offset);
    }

    /// The byte to enqueue for byte `i` of a write; a corruption is used up
    /// by the byte it flips.
    fn emit(&mut self, b: u8, i: usize) -> (r: u8)
        ensures
            r == emitted_byte(b, i as int, old(self).pending_corruption()),
            final(self).pending_corruption() == (if old(self).pending_corruption() == Some(i) {
                None
            } else {
                old(self).pending_corruption()
            }),
            final(self).written() == old(self).written(),
            final(self).write_log() == old(self).write_log(),
            final(self).sent() == old(self).sent(),
            final(self).taken() == old(self).taken(),
    {
        if self.corrupt_at == Some(i) {
            self.corrupt_at = None;
            b ^ 0xFF
        } else {
            b
        }
    }
}

impl<'a> Transport for UartSide<'a> {
    /// The bytes that successful writes handed to this end, as handed.
    closed spec fn written(&self) -> Seq<u8> {
        self.handed@
    }

    /// The bytes this end has dequeued from the other.
    closed spec fn taken(&self) -> Seq<u8> {
        consumer_log(self.rx)
    }

    /// Each write handed to this end, and whether the queue took all of it.
    closed spec fn write_log(&self) -> Seq<(Seq<u8>, bool)> {
        self.log@
    }

    /// Enqueues each byte of `data`, corrupting the one at the pending offset
    /// if the write reaches it. A write of nothing succeeds; a failed write
    /// has enqueued the bytes before the one the full queue refused.
    fn write_bytes(&mut self, data: &[u8]) -> (r: Result<(), crate::transport::TransportError>)
        ensures
            data@.len() == 0 ==> r is Ok,
            r is Ok ==> final(self).sent() == old(self).sent() + match old(self).pending_corruption() {
                Some(p) => if p < data@.len() {
                    data@.update(p as int, data@[p as int] ^ 0xFFu8)
                } else {
                    data@
                },
                None => data@,
            },
            r is Ok ==> final(self).sent() == old(self).sent() + emitted_bytes(
                data@,
                old(self).pending_corruption(),
            ),
            r is Err ==> final(self).written() == old(self).written(),
            r is Ok ==> final(self).pending_corruption() == (match old(self).pending_corruption() {
                Some(p) => if p < data@.len() {
                    None
                } else {
                    Some(p)
                },
                None => None,
            }),
            r is Err ==> r == Err::<(), crate::transport::TransportError>(
                crate::transport::TransportError::FailedWrite,
            ) && (final(self).pending_corruption() == old(self).pending_corruption()
                || final(self).pending_corruption() is None),
            r is Err ==> exists|k: int|
                0 <= k < data@.len() && #[trigger] final(self).sent() == old(self).sent()
                    + emitted_bytes(data@, old(self).pending_corruption()).take(k),
    {
        let ghost sent0 = self.sent();
        let ghost pending0 = self.corrupt_at;
        let ghost emitted = emitted_bytes(data@, pending0);
        let mut i: usize = 0;
        while i < data.len()
            invariant
                i <= data@.len(),
                emitted == emitted_bytes(data@, pending0),
                sent0 == old(self).sent(),
                self.taken() == old(self).taken(),
                self.handed@ == old(self).handed@,
                self.log@ == old(self).log@,
                pending0 == old(self).corrupt_at,
                self.sent() == sent0 + emitted.take(i as int),
                self.pending_corruption() == (match pending0 {
                    Some(p) => if p < i {
                        None
                    } else {
                        Some(p)
                    },
                    None => None,
                }),
            decreases data@.len() - i,
        {
            let byte = self.emit(data[i], i);
            assert(byte == emitted[i as int]);
            match producer_enqueue(&mut self.tx, byte) {
                Ok(()) => {},
                Err(_) => {
                    assert(self.sent() == old(self).sent() + emitted.take(i as int));
                    proof {
                        self.log = Ghost(self.log@.push((data@, false)));
                    }
                    return Err(crate::transport::TransportError::FailedWrite);
                },
            }
            proof {
                assert(emitted.take(i + 1) =~= emitted.take(i as int).push(byte));
            }
            i += 1;
        }
        assert(emitted.take(i as int) =~= emitted);
        proof {
            if let Some(p) = pending0 {
                lemma_emitted_corrupts_one_byte(data@, p);
            } else {
                lemma_emitted_corrupts_one_byte(data@, 0);
            }
        }
        proof {
            self.handed = Ghost(self.handed@ + data@);
            self.log = Ghost(self.log@.push((data@, true)));
        }
        Ok(())
    }

    /// The oldest byte written by the other end, or `FailedRead` when there
    /// is none.
    fn read_byte(&mut self) -> (r: Result<u8, crate::transport::TransportError>)
        ensures
            r matches Err(e) ==> e == crate::transport::TransportError::FailedRead,
            final(self).pending_corruption() == old(self).pending_corruption(),
            final(self).written() == old(self).written(),
            final(self).sent() == old(self).sent(),
    {
        match consumer_dequeue(&mut self.rx) {
            Some(b) => Ok(b),
            None => Err(crate::transport::TransportError::FailedRead),
        }
    }

    /// Nothing is buffered, so flushing always succeeds.
    fn flush(&mut self) -> (r: Result<(), crate::transport::TransportError>)
        ensures
            r is Ok,
            final(self).pending_corruption() == old(self).pending_corruption(),
            final(self).written() == old(self).written(),
            final(self).sent() == old(self).sent(),
    {
        Ok(())
    }
}

} // verus!
