use vstd::prelude::*;

verus! {

/// Why a transport could not move bytes.
#[derive(Debug, Clone, Copy, PartialEq, Eq, Structural)]
pub enum TransportError {
    FailedRead,
    FailedWrite,
    FailedFlush,
}

/// A serial link that the protocol speaks over, implemented by its users.
///
/// Its contracts are what the protocol relies on of every implementation:
/// a successful write has taken exactly the bytes handed to it, after those
/// taken before, and a failed one nothing; each write is recorded with
/// whether it succeeded; a successful read hands back the next byte of what it took;
/// and no operation moves bytes the other way.
pub trait Transport {
    /// The bytes that successful writes have handed to the transport so far,
    /// in order. (What reaches the other end may differ: a line can corrupt
    /// them.)
    spec fn written(&self) -> Seq<u8>;

    /// The bytes that successful reads have taken from the transport so far,
    /// in order.
    spec fn taken(&self) -> Seq<u8>;

    /// Every write made so far, in order: the bytes handed to it and whether
    /// it succeeded. A verified implementation defines it; the default, which
    /// records nothing, suits only one that is not verified.
    closed spec fn write_log(&self) -> Seq<(Seq<u8>, bool)> {
        Seq::empty()
    }

    /// Writes all bytes in `data` to the transport.
    ///
    /// # Errors
    /// Returns [`TransportError::FailedWrite`] if the underlying transport fails to write.
    fn write_bytes(&mut self, data: &[u8]) -> (r: Result<(), TransportError>)
        ensures
            r is Ok ==> final(self).written() == old(self).written() + data@,
            r is Err ==> final(self).written() == old(self).written(),
            final(self).write_log() == old(self).write_log().push((data@, r is Ok)),
            final(self).taken() == old(self).taken(),
    ;

    /// Reads a single byte from the transport.
    ///
    /// # Errors
    /// Returns [`TransportError::FailedRead`] if no data is available or the transport fails.
    fn read_byte(&mut self) -> (r: Result<u8, TransportError>)
        ensures
            final(self).written() == old(self).written(),
            final(self).write_log() == old(self).write_log(),
            r matches Ok(b) ==> final(self).taken() == old(self).taken().push(b),
            r is Err ==> final(self).taken() == old(self).taken(),
    ;

    /// Flushes any buffered output to the transport.
    ///
    /// # Errors
    /// Returns [`TransportError::FailedFlush`] if the flush fails.
    fn flush(&mut self) -> (r: Result<(), TransportError>)
        ensures
            final(self).written() == old(self).written(),
            final(self).write_log() == old(self).write_log(),
            final(self).taken() == old(self).taken(),
    ;
}

} // verus!
