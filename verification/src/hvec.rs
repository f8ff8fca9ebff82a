//! The fixed-capacity byte buffers of the protocol, held in `heapless::Vec`.
use vstd::prelude::*;

verus! {

/// `heapless::Vec`, a vector with its capacity fixed by the type.
#[verifier::external_type_specification]
#[verifier::external_body]
#[verifier::reject_recursive_types(T)]
pub struct ExHeaplessVec<T, const N: usize>(heapless::Vec<T, N>);

/// The bytes that a `heapless::Vec<u8, 256>` holds, in order.
pub uninterp spec fn buf_bytes(v: heapless::Vec<u8, 256>) -> Seq<u8>;

/// `heapless::Vec::new`: an empty vector.
#[verifier::external_body]
pub(crate) fn buf_new() -> (v: heapless::Vec<u8, 256>)
    ensures
        buf_bytes(v) == Seq::<u8>::empty(),
{
    heapless::Vec::new()
}

/// `heapless::Vec::from_slice`: a vector holding a copy of `s`, when `s`
/// fits in its 256 bytes; `Err` and no vector otherwise.
#[verifier::external_body]
pub(crate) fn buf_from_slice(s: &[u8]) -> (r: Result<heapless::Vec<u8, 256>, ()>)
    ensures
        r is Ok <==> s@.len() <= 256,
        r matches Ok(v) ==> buf_bytes(v) == s@,
{
    heapless::Vec::from_slice(s)
}

/// `heapless::Vec::push`: appends `b` while the vector holds fewer than 256
/// bytes; when it is full, the vector is unchanged and `b` is handed back.
/// A vector never holds more than its 256 bytes.
#[verifier::external_body]
pub(crate) fn buf_push(v: &mut heapless::Vec<u8, 256>, b: u8) -> (r: Result<(), u8>)
    ensures
        buf_bytes(*final(v)).len() <= 256,
        buf_bytes(*old(v)).len() < 256 ==> r is Ok && buf_bytes(*final(v)) == buf_bytes(*old(v)).push(b),
        buf_bytes(*old(v)).len() >= 256 ==> (r matches Err(x) && x == b) && buf_bytes(*final(v)) == buf_bytes(*old(v)),
{
    v.push(b)
}

/// `heapless::Vec::clear`: removes every byte.
#[verifier::external_body]
pub(crate) fn buf_clear(v: &mut heapless::Vec<u8, 256>)
    ensures
        buf_bytes(*final(v)) == Seq::<u8>::empty(),
{
    v.clear()
}

/// `heapless::Vec::as_slice`: the bytes held, of which there are at most 256.
#[verifier::external_body]
pub(crate) fn buf_as_slice(v: &heapless::Vec<u8, 256>) -> (s: &[u8])
    ensures
        s@ == buf_bytes(*v),
        s@.len() <= 256,
{
    v.as_slice()
}

} // verus!
