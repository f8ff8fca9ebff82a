use vstd::prelude::*;

use crate::error::FrameError;
use crate::frame::{
    decode_spec, frame_encoding, lemma_decode_encode_roundtrip,
    lemma_frame_encoding_shape, Frame,
};
use crate::hvec::{buf_as_slice, buf_bytes, buf_clear, buf_from_slice, buf_new, buf_push};
use crate::transport::Transport;

verus! {

/// Why the protocol could not send or receive.
#[derive(Debug, Clone, Copy, PartialEq, Eq, Structural)]
pub enum ProtocolError {
    MaxRetriesExceeded,
    FrameError(FrameError),
    Transport,
}

impl From<FrameError> for ProtocolError {
    fn from(e: FrameError) -> (r: Self) {
        ProtocolError::FrameError(e)
    }
}

impl vstd::std_specs::convert::FromSpecImpl<FrameError> for ProtocolError {
    open spec fn obeys_from_spec() -> bool {
        true
    }

    open spec fn from_spec(e: FrameError) -> Self {
        ProtocolError::FrameError(e)
    }
}

/// Where the sending side of the protocol stands.
pub enum State {
    Idle,
    Sending { retries: u8 },
    WaitingAck { retries: u8, last_encoded: heapless::Vec<u8, 256> },
    Error(ProtocolError),
}

/// The one-byte control messages; on the wire each is followed by the zero
/// that ends a frame.
pub enum ControlByte {
    Ack,
    Nak,
}

impl ControlByte {
    /// The byte that stands for this message.
    pub fn value(&self) -> (b: u8)
        ensures
            b == control_value(*self),
    {
        match self {
            ControlByte::Ack => 0xAA,
            ControlByte::Nak => 0xFF,
        }
    }
}

/// The byte of a control message: 0xAA for an ACK, 0xFF for a NAK.
pub open spec fn control_value(c: ControlByte) -> u8 {
    match c {
        ControlByte::Ack => 0xAAu8,
        ControlByte::Nak => 0xFFu8,
    }
}

/// The outcome of taking in one received byte: `None` to keep reading,
/// otherwise what polling the protocol ends with.
pub type Received = Option<Result<Option<Vec<u8>>, ProtocolError>>;

/// What taking in `byte` does, for a receiver of capacity `cap` whose buffer
/// held `rx0`, whose sending side stood at `st0` and whose transport had
/// taken `w0`, with `rx1`, `st1` and `w1` after it and `r` its outcome. A
/// zero ends a frame: the two-byte frames `[0xAA, 0]` and `[0xFF, 0]` are an
/// ACK and a NAK, any other frame is decoded. A reply (the frame awaiting
/// its ACK for a NAK while retries are left, an ACK for a decoded frame, a
/// NAK for a frame whose CRC does not match) is written to the transport;
/// when that write fails the outcome is the transport error and the
/// transport has taken nothing, and otherwise it has taken exactly the
/// reply. Every other byte writes nothing.
pub open spec fn receive_post(
    cap: int,
    rx0: Seq<u8>,
    st0: State,
    w0: Seq<u8>,
    byte: u8,
    rx1: Seq<u8>,
    st1: State,
    w1: Seq<u8>,
    r: Received,
) -> bool {
    if rx0.len() >= 256 {
        &&& r == Some(Err::<Option<Vec<u8>>, ProtocolError>(ProtocolError::FrameError(FrameError::BufferTooSmall)))
        &&& rx1 == rx0
        &&& st1 == st0
        &&& w1 == w0
    } else if byte != 0 {
        &&& r is None
        &&& rx1 == rx0.push(byte)
        &&& st1 == st0
        &&& w1 == w0
    } else {
        let frame = rx0.push(0u8);
        &&& rx1 == Seq::<u8>::empty()
        &&& if frame == seq![0xAAu8, 0u8] {
            r is None && st1 is Idle && w1 == w0
        } else if frame == seq![0xFFu8, 0u8] {
            match st0 {
                State::WaitingAck { retries, last_encoded } => if retries > 0 {
                    ||| r is None && st1 == (State::WaitingAck { retries: (retries - 1) as u8, last_encoded })
                        && w1 == w0 + buf_bytes(last_encoded)
                    ||| r == Some(Err::<Option<Vec<u8>>, ProtocolError>(ProtocolError::Transport)) && st1 is Idle
                        && w1 == w0
                } else {
                    r == Some(Err::<Option<Vec<u8>>, ProtocolError>(ProtocolError::MaxRetriesExceeded)) && st1 is Idle
                        && w1 == w0
                },
                _ => r == Some(Err::<Option<Vec<u8>>, ProtocolError>(ProtocolError::MaxRetriesExceeded)) && st1 is Idle
                    && w1 == w0,
            }
        } else {
            &&& st1 == st0
            &&& match decode_spec(frame, cap) {
                Ok(p) => {
                    ||| (r matches Some(Ok(Some(v))) && v@ == p) && w1 == w0 + seq![0xAAu8, 0u8]
                    ||| r == Some(Err::<Option<Vec<u8>>, ProtocolError>(ProtocolError::Transport)) && w1 == w0
                },
                Err(e) => if e == FrameError::CrcMismatch {
                    ||| r is None && w1 == w0 + seq![0xFFu8, 0u8]
                    ||| r == Some(Err::<Option<Vec<u8>>, ProtocolError>(ProtocolError::Transport)) && w1 == w0
                } else {
                    r == Some(Err::<Option<Vec<u8>>, ProtocolError>(ProtocolError::FrameError(e))) && w1 == w0
                },
            }
        }
    }
}

/// Taking in `byte` writes a reply to the transport: a resent frame for a
/// NAK while retries are left, an ACK for a decoded frame, a NAK for a frame
/// whose CRC does not match.
pub open spec fn receive_writes(cap: int, rx0: Seq<u8>, st0: State, byte: u8) -> bool {
    let frame = rx0.push(0u8);
    &&& rx0.len() < 256
    &&& byte == 0
    &&& frame != seq![0xAAu8, 0u8]
    &&& if frame == seq![0xFFu8, 0u8] {
        st0 matches State::WaitingAck { retries, .. } && retries > 0
    } else {
        decode_spec(frame, cap) is Ok || decode_spec(frame, cap) == Err::<Seq<u8>, FrameError>(FrameError::CrcMismatch)
    }
}

/// The reply that taking in `byte` writes where it writes one (see
/// `receive_writes`): the frame awaiting its ACK for a NAK, an ACK for a
/// decoded frame, a NAK for a frame whose CRC does not match.
pub open spec fn receive_reply(cap: int, rx0: Seq<u8>, st0: State, byte: u8) -> Seq<u8> {
    let frame = rx0.push(0u8);
    if frame == seq![0xFFu8, 0u8] {
        match st0 {
            State::WaitingAck { last_encoded, .. } => buf_bytes(last_encoded),
            _ => Seq::<u8>::empty(),
        }
    } else if decode_spec(frame, cap) is Ok {
        seq![0xAAu8, 0u8]
    } else {
        seq![0xFFu8, 0u8]
    }
}

/// An ACK returns the sender to rest, whatever it was waiting for.
pub proof fn lemma_ack_returns_to_idle(
    cap: int,
    st0: State,
    w0: Seq<u8>,
    rx1: Seq<u8>,
    st1: State,
    w1: Seq<u8>,
    r: Received,
)
    requires
        receive_post(cap, seq![0xAAu8], st0, w0, 0, rx1, st1, w1, r),
    ensures
        r is None,
        st1 is Idle,
        rx1 == Seq::<u8>::empty(),
        w1 == w0,
{
    assert(seq![0xAAu8].push(0u8) =~= seq![0xAAu8, 0u8]);
}

/// A NAK for a frame awaiting its ACK writes that frame again and spends
/// one retry while retries are left (unless the resend fails on the
/// transport), and gives up with `MaxRetriesExceeded`, writing nothing, once
/// they are spent.
pub proof fn lemma_nak_spends_a_retry(
    cap: int,
    retries: u8,
    last_encoded: heapless::Vec<u8, 256>,
    w0: Seq<u8>,
    rx1: Seq<u8>,
    st1: State,
    w1: Seq<u8>,
    r: Received,
)
    requires
        receive_post(cap, seq![0xFFu8], State::WaitingAck { retries, last_encoded }, w0, 0, rx1, st1, w1, r),
    ensures
        rx1 == Seq::<u8>::empty(),
        retries > 0 ==> (r is None && st1 == (State::WaitingAck { retries: (retries - 1) as u8, last_encoded })
            && w1 == w0 + buf_bytes(last_encoded))
            || (r == Some(Err::<Option<Vec<u8>>, ProtocolError>(ProtocolError::Transport)) && st1 is Idle
            && w1 == w0),
        retries == 0 ==> r == Some(Err::<Option<Vec<u8>>, ProtocolError>(ProtocolError::MaxRetriesExceeded))
            && st1 is Idle && w1 == w0,
{
    assert(seq![0xFFu8].push(0u8) =~= seq![0xFFu8, 0u8]);
    assert(seq![0xFFu8, 0u8] != seq![0xAAu8, 0u8]) by {
        assert(seq![0xFFu8, 0u8][0] != seq![0xAAu8, 0u8][0]);
    }
}

/// An encoded frame taken in byte by byte, into an empty receive buffer, is
/// gathered without reply until its final zero, which writes an ACK and
/// delivers its payload (unless the ACK fails on the transport), when the
/// payload fits the receiver and the frame fits its buffer.
pub proof fn lemma_encoded_frame_delivered(
    payload: Seq<u8>,
    cap: int,
    k: int,
    st0: State,
    w0: Seq<u8>,
    rx1: Seq<u8>,
    st1: State,
    w1: Seq<u8>,
    r: Received,
)
    requires
        payload.len() <= cap,
        frame_encoding(payload).len() <= 256,
        0 <= k < frame_encoding(payload).len(),
        receive_post(cap, frame_encoding(payload).take(k), st0, w0, frame_encoding(payload)[k], rx1, st1, w1, r),
    ensures
        k < frame_encoding(payload).len() - 1 ==> r is None && rx1 == frame_encoding(payload).take(k + 1)
            && st1 == st0 && w1 == w0,
        k == frame_encoding(payload).len() - 1 ==> {
            &&& rx1 == Seq::<u8>::empty()
            &&& st1 == st0
            &&& ((r matches Some(Ok(Some(v))) && v@ == payload) && w1 == w0 + seq![0xAAu8, 0u8]) || (r == Some(
                Err::<Option<Vec<u8>>, ProtocolError>(ProtocolError::Transport),
            ) && w1 == w0)
        },
{
    let e = frame_encoding(payload);
    lemma_frame_encoding_shape(payload);
    if k < e.len() - 1 {
        assert(e[k] != 0);
        assert(e.take(k).push(e[k]) =~= e.take(k + 1));
    } else {
        assert(e.take(k).push(0u8) =~= e);
        assert(e.len() != 2);
        assert(e != seq![0xAAu8, 0u8]);
        assert(e != seq![0xFFu8, 0u8]);
        lemma_decode_encode_roundtrip(payload, Seq::<u8>::empty(), cap);
        assert(e + Seq::<u8>::empty() =~= e);
    }
}

/// Taking in a byte never raises the retries of a frame awaiting its ACK,
/// and never starts awaiting a frame: where the receiver ends up waiting,
/// it was waiting for the same frame before, with as many retries, or with
/// one more and the NAK that resent the frame. So a frame is resent at most
/// as often as the retries it was sent with.
pub proof fn lemma_retries_only_fall(
    cap: int,
    rx0: Seq<u8>,
    st0: State,
    w0: Seq<u8>,
    byte: u8,
    rx1: Seq<u8>,
    st1: State,
    w1: Seq<u8>,
    r: Received,
)
    requires
        receive_post(cap, rx0, st0, w0, byte, rx1, st1, w1, r),
        st1 is WaitingAck,
    ensures
        st0 is WaitingAck,
        st0->last_encoded == st1->last_encoded,
        st1->WaitingAck_retries == st0->WaitingAck_retries || (st1->WaitingAck_retries + 1
            == st0->WaitingAck_retries && rx0.push(byte) == seq![0xFFu8, 0u8] && w1 == w0 + buf_bytes(
            st1->last_encoded,
        )),
{
}

/// Taking in `byte` into a buffer that held `rx0`, while waiting with
/// retries left, completes a NAK: the receiver then tries to resend.
pub open spec fn resend_attempt(rx0: Seq<u8>, st0: State, byte: u8) -> bool {
    &&& rx0.len() < 256
    &&& byte == 0
    &&& rx0.push(0u8) == seq![0xFFu8, 0u8]
    &&& st0 matches State::WaitingAck { retries, .. } && retries > 0
}

/// How many of the first `n` steps of a run of received bytes tried to
/// resend the frame awaiting its ACK.
pub open spec fn resend_attempts(rx: Seq<Seq<u8>>, st: Seq<State>, bytes: Seq<u8>, n: int) -> nat
    decreases n,
{
    if n <= 0 {
        0
    } else {
        resend_attempts(rx, st, bytes, n - 1) + if resend_attempt(rx[n - 1], st[n - 1], bytes[n - 1]) {
            1nat
        } else {
            0nat
        }
    }
}

/// Over any run of received bytes that starts while waiting for the ACK of
/// a frame sent with `retries` retries, the frame is resent at most
/// `retries` times: each resend spends a retry, and nothing gives one back.
/// Entry `i` of `rx`, `st` and `w` is the receiver before step `i`.
pub proof fn lemma_resends_bounded(
    cap: int,
    rx: Seq<Seq<u8>>,
    st: Seq<State>,
    w: Seq<Seq<u8>>,
    bytes: Seq<u8>,
    rs: Seq<Received>,
    retries: u8,
    last_encoded: heapless::Vec<u8, 256>,
)
    requires
        rx.len() == bytes.len() + 1,
        st.len() == bytes.len() + 1,
        w.len() == bytes.len() + 1,
        rs.len() == bytes.len(),
        st[0] == (State::WaitingAck { retries, last_encoded }),
        forall|i: int|
            0 <= i < bytes.len() ==> #[trigger] receive_post(
                cap,
                rx[i],
                st[i],
                w[i],
                bytes[i],
                rx[i + 1],
                st[i + 1],
                w[i + 1],
                rs[i],
            ),
    ensures
        resend_attempts(rx, st, bytes, bytes.len() as int) <= retries,
{
    lemma_resends_bounded_upto(cap, rx, st, w, bytes, rs, retries, last_encoded, bytes.len() as int);
}

proof fn lemma_resends_bounded_upto(
    cap: int,
    rx: Seq<Seq<u8>>,
    st: Seq<State>,
    w: Seq<Seq<u8>>,
    bytes: Seq<u8>,
    rs: Seq<Received>,
    retries: u8,
    last_encoded: heapless::Vec<u8, 256>,
    n: int,
)
    requires
        0 <= n <= bytes.len(),
        rx.len() == bytes.len() + 1,
        st.len() == bytes.len() + 1,
        w.len() == bytes.len() + 1,
        rs.len() == bytes.len(),
        st[0] == (State::WaitingAck { retries, last_encoded }),
        forall|i: int|
            0 <= i < bytes.len() ==> #[trigger] receive_post(
                cap,
                rx[i],
                st[i],
                w[i],
                bytes[i],
                rx[i + 1],
                st[i + 1],
                w[i + 1],
                rs[i],
            ),
    ensures
        st[n] is WaitingAck ==> resend_attempts(rx, st, bytes, n) + st[n]->WaitingAck_retries <= retries,
        resend_attempts(rx, st, bytes, n) <= retries,
    decreases n,
{
    if n > 0 {
        let i = n - 1;
        lemma_resends_bounded_upto(cap, rx, st, w, bytes, rs, retries, last_encoded, i);
        assert(receive_post(cap, rx[i], st[i], w[i], bytes[i], rx[i + 1], st[i + 1], w[i + 1], rs[i]));
        if st[n] is WaitingAck {
            lemma_retries_only_fall(cap, rx[i], st[i], w[i], bytes[i], rx[n], st[n], w[n], rs[i]);
        }
        if resend_attempt(rx[i], st[i], bytes[i]) {
            assert(rx[i].push(0u8) == seq![0xFFu8, 0u8]);
            assert(rx[i].push(0u8) != seq![0xAAu8, 0u8]) by {
                assert(rx[i].push(0u8)[0] != seq![0xAAu8, 0u8][0]);
            }
        }
    }
}

/// A completed frame that is neither an ACK nor a NAK and fails to decode
/// for any reason but its CRC is reported as that frame error, whatever the
/// sender was doing: nothing is written, the receive buffer is emptied and
/// the sending side is left as it was.
pub proof fn lemma_frame_error_reported(
    cap: int,
    rx0: Seq<u8>,
    st0: State,
    w0: Seq<u8>,
    rx1: Seq<u8>,
    st1: State,
    w1: Seq<u8>,
    r: Received,
    e: FrameError,
)
    requires
        receive_post(cap, rx0, st0, w0, 0, rx1, st1, w1, r),
        rx0.len() < 256,
        rx0.push(0u8) != seq![0xAAu8, 0u8],
        rx0.push(0u8) != seq![0xFFu8, 0u8],
        decode_spec(rx0.push(0u8), cap) == Err::<Seq<u8>, FrameError>(e),
        e != FrameError::CrcMismatch,
    ensures
        r == Some(Err::<Option<Vec<u8>>, ProtocolError>(ProtocolError::FrameError(e))),
        w1 == w0,
        rx1 == Seq::<u8>::empty(),
        st1 == st0,
{
}

/// A completed frame whose CRC does not match is answered with a NAK and
/// nothing else, whatever the sender was doing: exactly `[0xFF, 0x00]` is
/// written (unless that write fails on the transport, which then takes
/// nothing), the frame awaiting
/// its ACK is not resent, and the sending side is left as it was.
pub proof fn lemma_crc_mismatch_answered_with_nak(
    cap: int,
    rx0: Seq<u8>,
    st0: State,
    w0: Seq<u8>,
    rx1: Seq<u8>,
    st1: State,
    w1: Seq<u8>,
    r: Received,
)
    requires
        receive_post(cap, rx0, st0, w0, 0, rx1, st1, w1, r),
        rx0.len() < 256,
        rx0.push(0u8) != seq![0xAAu8, 0u8],
        rx0.push(0u8) != seq![0xFFu8, 0u8],
        decode_spec(rx0.push(0u8), cap) == Err::<Seq<u8>, FrameError>(FrameError::CrcMismatch),
    ensures
        (r is None && w1 == w0 + seq![0xFFu8, 0u8]) || (r == Some(
            Err::<Option<Vec<u8>>, ProtocolError>(ProtocolError::Transport),
        ) && w1 == w0),
        rx1 == Seq::<u8>::empty(),
        st1 == st0,
{
}

/// How many of the first `n` steps of a run wrote exactly `frame`, read off
/// what the transport took before and after each step.
pub open spec fn frame_writes(w: Seq<Seq<u8>>, frame: Seq<u8>, n: int) -> nat
    decreases n,
{
    if n <= 0 {
        0
    } else {
        frame_writes(w, frame, n - 1) + if w[n] == w[n - 1] + frame {
            1nat
        } else {
            0nat
        }
    }
}

/// Over any run of received bytes that starts while waiting for the ACK of
/// a frame sent with `retries` retries, that frame is written at most
/// `retries` times, counted from what the transport took: a resend happens
/// only on a NAK, each spends a retry, and a write that fails on the
/// transport takes nothing and leaves the sender at rest. (A frame on the wire is at least four bytes, so an ACK or a NAK,
/// two bytes each, is never mistaken for it.)
pub proof fn lemma_frame_written_at_most_retries(
    cap: int,
    rx: Seq<Seq<u8>>,
    st: Seq<State>,
    w: Seq<Seq<u8>>,
    bytes: Seq<u8>,
    rs: Seq<Received>,
    retries: u8,
    last_encoded: heapless::Vec<u8, 256>,
)
    requires
        rx.len() == bytes.len() + 1,
        st.len() == bytes.len() + 1,
        w.len() == bytes.len() + 1,
        rs.len() == bytes.len(),
        st[0] == (State::WaitingAck { retries, last_encoded }),
        buf_bytes(last_encoded).len() > 2,
        forall|i: int|
            0 <= i < bytes.len() ==> #[trigger] receive_post(
                cap,
                rx[i],
                st[i],
                w[i],
                bytes[i],
                rx[i + 1],
                st[i + 1],
                w[i + 1],
                rs[i],
            ),
    ensures
        frame_writes(w, buf_bytes(last_encoded), bytes.len() as int) <= retries,
{
    lemma_frame_writes_upto(cap, rx, st, w, bytes, rs, retries, last_encoded, bytes.len() as int);
}

proof fn lemma_frame_writes_upto(
    cap: int,
    rx: Seq<Seq<u8>>,
    st: Seq<State>,
    w: Seq<Seq<u8>>,
    bytes: Seq<u8>,
    rs: Seq<Received>,
    retries: u8,
    last_encoded: heapless::Vec<u8, 256>,
    n: int,
)
    requires
        0 <= n <= bytes.len(),
        rx.len() == bytes.len() + 1,
        st.len() == bytes.len() + 1,
        w.len() == bytes.len() + 1,
        rs.len() == bytes.len(),
        st[0] == (State::WaitingAck { retries, last_encoded }),
        buf_bytes(last_encoded).len() > 2,
        forall|i: int|
            0 <= i < bytes.len() ==> #[trigger] receive_post(
                cap,
                rx[i],
                st[i],
                w[i],
                bytes[i],
                rx[i + 1],
                st[i + 1],
                w[i + 1],
                rs[i],
            ),
    ensures
        st[n] is WaitingAck ==> st[n]->last_encoded == last_encoded && frame_writes(
            w,
            buf_bytes(last_encoded),
            n,
        ) + st[n]->WaitingAck_retries <= retries,
        frame_writes(w, buf_bytes(last_encoded), n) <= retries,
    decreases n,
{
    let frame = buf_bytes(last_encoded);
    if n > 0 {
        let i = n - 1;
        lemma_frame_writes_upto(cap, rx, st, w, bytes, rs, retries, last_encoded, i);
        assert(receive_post(cap, rx[i], st[i], w[i], bytes[i], rx[i + 1], st[i + 1], w[i + 1], rs[i]));
        if st[n] is WaitingAck {
            lemma_retries_only_fall(cap, rx[i], st[i], w[i], bytes[i], rx[n], st[n], w[n], rs[i]);
        }
        if w[n] == w[i] + frame {
            // only a resend writes more than two bytes
            assert((w[i] + frame).len() == w[i].len() + frame.len());
            assert((w[i] + seq![0xAAu8, 0u8]).len() == w[i].len() + 2);
            assert((w[i] + seq![0xFFu8, 0u8]).len() == w[i].len() + 2);
            if rx[i].len() < 256 && bytes[i] == 0 && rx[i].push(0u8) == seq![0xFFu8, 0u8] {
                assert(rx[i].push(0u8) != seq![0xAAu8, 0u8]) by {
                    assert(rx[i].push(0u8)[0] != seq![0xAAu8, 0u8][0]);
                }
            }
        }
    }
}

/// A framed link with ACK/NAK retransmission over a transport `T`, for
/// payloads of at most `N` bytes and `RETRIES` resends of a frame.
pub struct Protocol<T: Transport, const N: usize, const RETRIES: u8> {
    transport: T,
    state: State,
    rx_buf: heapless::Vec<u8, 256>,
}

impl<T: Transport, const N: usize, const RETRIES: u8> Protocol<T, N, RETRIES> {
    /// Where the sending side stands.
    pub closed spec fn current_state(&self) -> State {
        self.state
    }

    /// The bytes of the frame being received.
    pub closed spec fn received(&self) -> Seq<u8> {
        buf_bytes(self.rx_buf)
    }

    /// The transport the protocol speaks over.
    pub closed spec fn link(&self) -> T {
        self.transport
    }

    /// A protocol at rest over `transport`.
    pub fn new(transport: T) -> (r: Self)
        ensures
            r.current_state() is Idle,
            r.received() == Seq::<u8>::empty(),
            r.link() == transport,
    {
        Self { transport, state: State::Idle, rx_buf: buf_new() }
    }

    /// Encodes `payload` as a frame, writes it to the transport and waits for
    /// its ACK, keeping the frame to resend on a NAK. A frame must fit the
    /// 256-byte send buffer, which every payload of at most 252 bytes does
    /// and no longer one.
    pub fn send(&mut self, payload: &[u8]) -> (r: Result<(), ProtocolError>)
        ensures
            final(self).received() == old(self).received(),
            final(self).link().taken() == old(self).link().taken(),
            payload@.len() > N ==> {
                &&& r == Err::<(), ProtocolError>(ProtocolError::FrameError(FrameError::PayloadTooLarge))
                &&& final(self).current_state() == old(self).current_state()
                &&& final(self).link() == old(self).link()
            },
            payload@.len() <= N && payload@.len() > 252 ==> {
                &&& r == Err::<(), ProtocolError>(ProtocolError::FrameError(FrameError::BufferTooSmall))
                &&& final(self).current_state() == old(self).current_state()
                &&& final(self).link() == old(self).link()
            },
            payload@.len() <= N && payload@.len() <= 252 ==> final(self).link().write_log() == old(
                self,
            ).link().write_log().push((frame_encoding(payload@), r is Ok)),
            payload@.len() <= N && payload@.len() <= 252 ==> {
                ||| r is Ok && (final(self).current_state() matches State::WaitingAck { retries, last_encoded }
                    && retries == RETRIES && buf_bytes(last_encoded) == frame_encoding(payload@))
                    && final(self).link().written() == old(self).link().written() + frame_encoding(payload@)
                ||| r == Err::<(), ProtocolError>(ProtocolError::Transport) && final(self).current_state()
                    == old(self).current_state() && final(self).link().written() == old(self).link().written()
            },
    {
        proof {
            lemma_frame_encoding_shape(payload@);
        }
        let frame = match Frame::<N>::new(payload) {
            Ok(f) => f,
            Err(e) => {
                return Err(ProtocolError::FrameError(e));
            },
        };
        if payload.len() > 252 {
            return Err(ProtocolError::FrameError(FrameError::BufferTooSmall));
        }
        proof {
            lemma_frame_encoding_shape(payload@);
        }
        let mut buf: Vec<u8> = vec![0u8; 256];
        let n = match frame.encode(buf.as_mut_slice()) {
            Ok(n) => n,
            Err(e) => {
                return Err(ProtocolError::FrameError(e));
            },
        };
        let encoded = vstd::slice::slice_subrange(buf.as_slice(), 0, n);
        assert(encoded@ == frame_encoding(payload@));
        match self.transport.write_bytes(encoded) {
            Ok(()) => {},
            Err(_) => {
                return Err(ProtocolError::Transport);
            },
        }
        let last_encoded = match buf_from_slice(encoded) {
            Ok(v) => v,
            Err(()) => {
                return Err(ProtocolError::FrameError(FrameError::BufferTooSmall));
            },
        };
        self.state = State::WaitingAck { retries: RETRIES, last_encoded };
        Ok(())
    }
    /// Takes in one byte read from the transport. A zero ends the frame
    /// gathered so far: an ACK (`[0xAA, 0]`) returns the sender to rest, a
    /// NAK (`[0xFF, 0]`) resends the frame awaiting its ACK while retries are
    /// left, and any other frame is decoded, acknowledged and handed back, or
    /// answered with a NAK when its CRC does not match.
    pub fn receive(&mut self, byte: u8) -> (r: Received)
        ensures
            receive_post(
                N as int,
                old(self).received(),
                old(self).current_state(),
                old(self).link().written(),
                byte,
                final(self).received(),
                final(self).current_state(),
                final(self).link().written(),
                r,
            ),
            !receive_writes(N as int, old(self).received(), old(self).current_state(), byte)
                ==> final(self).link() == old(self).link(),
            receive_writes(N as int, old(self).received(), old(self).current_state(), byte)
                ==> final(self).link().write_log() == old(self).link().write_log().push(
                (
                    receive_reply(N as int, old(self).received(), old(self).current_state(), byte),
                    r != Some(Err::<Option<Vec<u8>>, ProtocolError>(ProtocolError::Transport)),
                ),
            ),
            final(self).link().taken() == old(self).link().taken(),
            byte == 0 && old(self).received().len() < 256 && old(self).received().push(0u8) != seq![0xAAu8, 0u8]
                && old(self).received().push(0u8) != seq![0xFFu8, 0u8] ==> {
                &&& final(self).received() == Seq::<u8>::empty()
                &&& final(self).current_state() == old(self).current_state()
                &&& match decode_spec(old(self).received().push(0u8), N as int) {
                    Ok(p) => {
                        &&& final(self).link().write_log() == old(self).link().write_log().push(
                            (seq![0xAAu8, 0u8], r is Some && r->0 is Ok),
                        )
                        &&& r is Some && r->0 is Ok ==> (r matches Some(Ok(Some(v))) && v@ == p)
                            && final(self).link().written() == old(self).link().written() + seq![0xAAu8, 0u8]
                        &&& !(r is Some && r->0 is Ok) ==> r == Some(Err::<Option<Vec<u8>>, ProtocolError>(ProtocolError::Transport))
                            && final(self).link().written() == old(self).link().written()
                    },
                    Err(FrameError::CrcMismatch) => {
                        &&& final(self).link().write_log() == old(self).link().write_log().push(
                            (seq![0xFFu8, 0u8], r is None),
                        )
                        &&& r is None ==> final(self).link().written() == old(self).link().written() + seq![
                            0xFFu8,
                            0u8,
                        ]
                        &&& r is Some ==> r == Some(Err::<Option<Vec<u8>>, ProtocolError>(ProtocolError::Transport))
                            && final(self).link().written() == old(self).link().written()
                    },
                    Err(e) => r == Some(Err::<Option<Vec<u8>>, ProtocolError>(ProtocolError::FrameError(e)))
                        && final(self).link() == old(self).link(),
                }
            },
    {
        match buf_push(&mut self.rx_buf, byte) {
            Ok(()) => {},
            Err(_) => {
                return Some(Err(ProtocolError::FrameError(FrameError::BufferTooSmall)));
            },
        }
        if byte != 0x00 {
            return None;
        }
        let rx = buf_as_slice(&self.rx_buf);
        if rx.len() == 2 && rx[0] == ControlByte::Ack.value() {
            assert(rx@ =~= seq![0xAAu8, 0u8]);
            buf_clear(&mut self.rx_buf);
            self.state = State::Idle;
            return None;
        }
        if rx.len() == 2 && rx[0] == ControlByte::Nak.value() {
            assert(rx@ =~= seq![0xFFu8, 0u8]);
            buf_clear(&mut self.rx_buf);
            let mut state = State::Idle;
            core::mem::swap(&mut state, &mut self.state);
            match state {
                State::WaitingAck { retries, last_encoded } => {
                    if retries > 0 {
                        match self.transport.write_bytes(buf_as_slice(&last_encoded)) {
                            Ok(()) => {},
                            Err(_) => {
                                return Some(Err(ProtocolError::Transport));
                            },
                        }
                        self.state = State::WaitingAck { retries: retries - 1, last_encoded };
                        return None;
                    } else {
                        return Some(Err(ProtocolError::MaxRetriesExceeded));
                    }
                },
                _ => {
                    return Some(Err(ProtocolError::MaxRetriesExceeded));
                },
            }
        }
        assert(rx@ != seq![0xAAu8, 0u8]);
        assert(rx@ != seq![0xFFu8, 0u8]);
        match Frame::<N>::decode(rx) {
            Ok(frame) => {
                let payload = vstd::slice::slice_to_vec(frame.payload());
                buf_clear(&mut self.rx_buf);
                match self.send_ack() {
                    Ok(()) => {},
                    Err(e) => {
                        return Some(Err(e));
                    },
                }
                Some(Ok(Some(payload)))
            },
            Err(FrameError::CrcMismatch) => {
                buf_clear(&mut self.rx_buf);
                match self.send_nak() {
                    Ok(()) => {},
                    Err(e) => {
                        return Some(Err(e));
                    },
                }
                None
            },
            Err(e) => {
                buf_clear(&mut self.rx_buf);
                Some(Err(ProtocolError::FrameError(e)))
            },
        }
    }

    /// Reads one byte from the transport and takes it in; when the read
    /// fails there is nothing more to read, and the outcome is `Ok(None)`.
    pub fn poll_once(&mut self) -> (r: Received)
        ensures
            final(self).link().taken() == old(self).link().taken() ==> {
                &&& r == Some(Ok::<Option<Vec<u8>>, ProtocolError>(None))
                &&& final(self).received() == old(self).received()
                &&& final(self).current_state() == old(self).current_state()
                &&& final(self).link().written() == old(self).link().written()
                &&& final(self).link().write_log() == old(self).link().write_log()
            },
            final(self).link().taken() != old(self).link().taken() ==> {
                &&& final(self).link().taken().len() == old(self).link().taken().len() + 1
                &&& final(self).link().taken().drop_last() == old(self).link().taken()
                &&& receive_post(
                    N as int,
                    old(self).received(),
                    old(self).current_state(),
                    old(self).link().written(),
                    final(self).link().taken().last(),
                    final(self).received(),
                    final(self).current_state(),
                    final(self).link().written(),
                    r,
                )
                &&& final(self).link().write_log() == if receive_writes(
                    N as int,
                    old(self).received(),
                    old(self).current_state(),
                    final(self).link().taken().last(),
                ) {
                    old(self).link().write_log().push(
                        (
                            receive_reply(
                                N as int,
                                old(self).received(),
                                old(self).current_state(),
                                final(self).link().taken().last(),
                            ),
                            r != Some(Err::<Option<Vec<u8>>, ProtocolError>(ProtocolError::Transport)),
                        ),
                    )
                } else {
                    old(self).link().write_log()
                }
            },
    {
        let ghost rx0 = self.received();
        let ghost st0 = self.current_state();
        let ghost w0 = self.link().written();
        let ghost t0 = self.link().taken();
        let ghost l0 = self.link().write_log();
        match self.transport.read_byte() {
            Ok(byte) => {
                assert(self.received() == rx0 && self.current_state() == st0);
                assert(self.link().written() == w0);
                assert(self.link().write_log() == l0);
                assert(self.link().taken() == t0.push(byte));
                let r = self.receive(byte);
                assert(self.link().taken() == t0.push(byte));
                assert(self.link().taken().drop_last() =~= t0);
                assert(self.link().taken() != t0) by {
                    assert(self.link().taken().len() != t0.len());
                }
                r
            },
            Err(_) => Some(Ok(None)),
        }
    }

    /// Writes an ACK: its byte, then the zero that ends a frame.
    fn send_ack(&mut self) -> (r: Result<(), ProtocolError>)
        ensures
            final(self).current_state() == old(self).current_state(),
            final(self).received() == old(self).received(),
            r is Ok ==> final(self).link().written() == old(self).link().written() + seq![0xAAu8, 0u8],
            final(self).link().write_log() == old(self).link().write_log().push((seq![0xAAu8, 0u8], r is Ok)),
            r is Err ==> final(self).link().written() == old(self).link().written(),
            final(self).link().taken() == old(self).link().taken(),
            r matches Err(e) ==> e == ProtocolError::Transport,
    {
        let msg: [u8; 2] = [ControlByte::Ack.value(), 0x00];
        match self.transport.write_bytes(msg.as_slice()) {
            Ok(()) => Ok(()),
            Err(_) => Err(ProtocolError::Transport),
        }
    }

    /// Writes a NAK: its byte, then the zero that ends a frame.
    fn send_nak(&mut self) -> (r: Result<(), ProtocolError>)
        ensures
            final(self).current_state() == old(self).current_state(),
            final(self).received() == old(self).received(),
            r is Ok ==> final(self).link().written() == old(self).link().written() + seq![0xFFu8, 0u8],
            final(self).link().write_log() == old(self).link().write_log().push((seq![0xFFu8, 0u8], r is Ok)),
            r is Err ==> final(self).link().written() == old(self).link().written(),
            final(self).link().taken() == old(self).link().taken(),
            r matches Err(e) ==> e == ProtocolError::Transport,
    {
        let msg: [u8; 2] = [ControlByte::Nak.value(), 0x00];
        match self.transport.write_bytes(msg.as_slice()) {
            Ok(()) => Ok(()),
            Err(_) => Err(ProtocolError::Transport),
        }
    }
}

} // verus!
