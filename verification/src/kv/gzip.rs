//! Gzip compression of frame payloads, done by `flate2`.
use crate::kv::buffer::buf_bytes;
use bytes::{BufMut, BytesMut};
use flate2::{read::GzDecoder, write::GzEncoder, Compression};
use std::io::{Read, Write};
use vstd::prelude::*;

verus! {

/// The gzip stream that `flate2`'s `GzEncoder` at the default compression level
/// writes for `data` (fixed header with no time stamp, deflate body, trailer).
pub uninterp spec fn gzip_encoding(data: Seq<u8>) -> Seq<u8>;

/// What `flate2`'s `GzDecoder` reads out of the gzip stream `data` when read to
/// its end: the decompressed bytes, or `None` when it reports an error.
pub uninterp spec fn gunzip(data: Seq<u8>) -> Option<Seq<u8>>;

/// Compresses `data` into the writer of `payload`: `GzEncoder::new` over
/// `payload.writer()` with `Compression::default()`, `write_all`, `finish` and
/// `into_inner`. On success the payload has the gzip stream of `data`
/// appended, and that stream decompresses to `data` (gzip is lossless). The
/// writer of a `BytesMut` never reports an error: it takes as many bytes as
/// fit below `isize::MAX` and stops short, rather than panicking, beyond that.
/// The deflate compressor fails only from an internal error state. So the
/// only way the calls fail is `write_all` meeting a full writer, and whenever
/// the payload and the gzip stream together fit in `isize::MAX` bytes the
/// result is `Some`.
#[verifier::external_body]
pub(crate) fn gzip_into(payload: BytesMut, data: &[u8]) -> (r: Option<BytesMut>)
    ensures
        buf_bytes(payload).len() + gzip_encoding(data@).len() <= isize::MAX ==> r is Some,
        r matches Some(p) ==> {
            &&& buf_bytes(p) == buf_bytes(payload) + gzip_encoding(data@)
            &&& gunzip(gzip_encoding(data@)) == Some(data@)
        },
{
    let mut encoder = GzEncoder::new(payload.writer(), Compression::default());
    if encoder.write_all(data).is_err() {
        return None;
    }
    match encoder.finish() {
        Ok(writer) => Some(writer.into_inner()),
        Err(_) => None,
    }
}

/// Decompresses the gzip stream `data`: `GzDecoder::new` over the slice and
/// `read_to_end` into a new vector. The result is exactly `gunzip(data)`.
#[verifier::external_body]
pub(crate) fn gunzip_slice(data: &[u8]) -> (r: Option<Vec<u8>>)
    ensures
        match r {
            Some(d) => gunzip(data@) == Some(d@),
            None => gunzip(data@) is None,
        },
{
    let mut decoder = GzDecoder::new(data);
    let mut out = Vec::new();
    match decoder.read_to_end(&mut out) {
        Ok(_) => Some(out),
        Err(_) => None,
    }
}

} // verus!
