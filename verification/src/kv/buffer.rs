//! The growable byte buffer that frames are written into and read from:
//! `bytes::BytesMut`, declared to Verus with a name for what it holds and a
//! contract for each of its operations that the protocol uses.
use bytes::{Buf, BufMut, BytesMut};
use vstd::prelude::*;

verus! {

#[verifier::external_type_specification]
#[verifier::external_body]
pub struct ExBytesMut(BytesMut);

/// The bytes that a `BytesMut` holds, from its read position to its end.
pub uninterp spec fn buf_bytes(b: BytesMut) -> Seq<u8>;

/// The four bytes of `n` in big-endian order.
pub open spec fn be32(n: int) -> Seq<u8> {
    seq![
        ((n / 0x100_0000) % 0x100) as u8,
        ((n / 0x1_0000) % 0x100) as u8,
        ((n / 0x100) % 0x100) as u8,
        (n % 0x100) as u8,
    ]
}

/// The number that the first four bytes of `s` spell in big-endian order.
pub open spec fn be32_value(s: Seq<u8>) -> int {
    s[0] * 0x100_0000 + s[1] * 0x1_0000 + s[2] * 0x100 + s[3]
}

/// Reading back the big-endian bytes of a 32-bit number gives the number.
pub proof fn lemma_be32_roundtrip(n: int)
    requires
        0 <= n < 0x1_0000_0000,
    ensures
        be32(n).len() == 4,
        be32_value(be32(n)) == n,
{
    let b = be32(n);
    assert(b[0] == (n / 0x100_0000) % 0x100);
    assert(b[1] == (n / 0x1_0000) % 0x100);
    assert(b[2] == (n / 0x100) % 0x100);
    assert(b[3] == n % 0x100);
    assert(((n / 0x100_0000) % 0x100) * 0x100_0000 + ((n / 0x1_0000) % 0x100) * 0x1_0000
        + ((n / 0x100) % 0x100) * 0x100 + n % 0x100 == n) by (nonlinear_arith)
        requires
            0 <= n < 0x1_0000_0000,
    ;
}

/// `BytesMut::new`: an empty buffer.
#[verifier::external_body]
pub(crate) fn buf_new() -> (b: BytesMut)
    ensures
        buf_bytes(b) == Seq::<u8>::empty(),
{
    BytesMut::new()
}

/// `BytesMut::len`: the number of bytes held.
#[verifier::external_body]
pub(crate) fn buf_len(b: &BytesMut) -> (n: usize)
    ensures
        n == buf_bytes(*b).len(),
{
    b.len()
}

/// The number of bytes that a buffer holds.
pub fn buffer_len(b: &BytesMut) -> (n: usize)
    ensures
        n == buf_bytes(*b).len(),
{
    buf_len(b)
}

/// `BytesMut` seen as a slice (its `Deref` to `[u8]`): the bytes held.
#[verifier::external_body]
pub(crate) fn buf_as_slice(b: &BytesMut) -> (s: &[u8])
    ensures
        s@ == buf_bytes(*b),
{
    &b[..]
}

/// `BufMut::put_u32` on a `BytesMut`: appends `n` in big-endian order. It
/// panics when the result would pass `isize::MAX` bytes, so that is left out.
#[verifier::external_body]
pub(crate) fn buf_put_u32(b: &mut BytesMut, n: u32)
    requires
        buf_bytes(*old(b)).len() + 4 <= isize::MAX,
    ensures
        buf_bytes(*final(b)) == buf_bytes(*old(b)) + be32(n as int),
{
    b.put_u32(n)
}

/// `BytesMut::extend_from_slice`: appends `data`. Its reservation panics past
/// `isize::MAX` bytes, so that is left out.
#[verifier::external_body]
pub(crate) fn buf_extend(b: &mut BytesMut, data: &[u8])
    requires
        buf_bytes(*old(b)).len() + data@.len() <= isize::MAX,
    ensures
        buf_bytes(*final(b)) == buf_bytes(*old(b)) + data@,
{
    b.extend_from_slice(data)
}

/// `BytesMut::split_off`: the buffer keeps the first `at` bytes and the rest is
/// returned. It panics when `at` passes the capacity, which is at least the
/// length, so `at` is kept within the length.
#[verifier::external_body]
pub(crate) fn buf_split_off(b: &mut BytesMut, at: usize) -> (tail: BytesMut)
    requires
        at <= buf_bytes(*old(b)).len(),
    ensures
        buf_bytes(*final(b)) == buf_bytes(*old(b)).take(at as int),
        buf_bytes(tail) == buf_bytes(*old(b)).skip(at as int),
{
    b.split_off(at)
}

/// `BytesMut::clear`: the buffer becomes empty.
#[verifier::external_body]
pub(crate) fn buf_clear(b: &mut BytesMut)
    ensures
        buf_bytes(*final(b)) == Seq::<u8>::empty(),
{
    b.clear()
}

/// `BytesMut::unsplit`: appends the bytes of `other`. An empty buffer simply
/// becomes `other`; otherwise the bytes are joined in place when the two were
/// split from one allocation and copied when not, and the copy reserves room
/// and panics past `isize::MAX` bytes, so that is left out.
#[verifier::external_body]
pub(crate) fn buf_unsplit(b: &mut BytesMut, other: BytesMut)
    requires
        buf_bytes(*old(b)).len() == 0 || buf_bytes(*old(b)).len() + buf_bytes(other).len()
            <= isize::MAX,
    ensures
        buf_bytes(*final(b)) == buf_bytes(*old(b)) + buf_bytes(other),
{
    b.unsplit(other)
}

/// `Buf::get_u32` on a `BytesMut`: reads the first four bytes as a big-endian
/// number and drops them. It panics with fewer than four bytes held.
#[verifier::external_body]
pub(crate) fn buf_get_u32(b: &mut BytesMut) -> (n: u32)
    requires
        buf_bytes(*old(b)).len() >= 4,
    ensures
        n == be32_value(buf_bytes(*old(b))),
        buf_bytes(*final(b)) == buf_bytes(*old(b)).skip(4),
{
    b.get_u32()
}

/// `Buf::advance` on a `BytesMut`: drops the first `cnt` bytes. It panics when
/// `cnt` passes the length.
#[verifier::external_body]
pub(crate) fn buf_advance(b: &mut BytesMut, cnt: usize)
    requires
        cnt <= buf_bytes(*old(b)).len(),
    ensures
        buf_bytes(*final(b)) == buf_bytes(*old(b)).skip(cnt as int),
{
    b.advance(cnt)
}

/// `BytesMut::resize` to a length at least the current one: appends copies
/// of `value` up to `new_len` bytes. Its reservation panics past `isize::MAX`
/// bytes, so that is left out.
#[verifier::external_body]
pub(crate) fn buf_resize(b: &mut BytesMut, new_len: usize, value: u8)
    requires
        buf_bytes(*old(b)).len() <= new_len <= isize::MAX,
    ensures
        buf_bytes(*final(b)) == buf_bytes(*old(b)) + Seq::new(
            (new_len - buf_bytes(*old(b)).len()) as nat,
            |i: int| value,
        ),
{
    b.resize(new_len, value)
}

} // verus!
