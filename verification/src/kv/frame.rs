//! Frames of the key-value protocol. A frame is a four-byte big-endian header
//! followed by a payload. The low 31 bits of the header give the payload's
//! length; the top bit says whether the payload is gzip-compressed. Messages
//! larger than `COMPRESSION_LIMIT` bytes are sent compressed.
use crate::kv::buffer::{
    be32, be32_value, buf_advance, buf_as_slice, buf_bytes, buf_extend, buf_get_u32, buf_len,
    buf_new, buf_put_u32, buf_resize, buf_split_off, buf_unsplit, lemma_be32_roundtrip,
};
use crate::kv::error::KvError;
use crate::kv::gzip::{gunzip, gunzip_slice, gzip_encoding, gzip_into};
use bytes::BytesMut;
use vstd::prelude::*;
use vstd::slice::{slice_subrange, slice_to_vec};

verus! {

/// The length of a frame header, in bytes.
pub const LEN_LEN: usize = 4;

/// Frames carry fewer than 2 GiB: the length has 31 bits.
pub const MAX_FRAME: usize = 0x8000_0000;

/// Payloads longer than this are compressed.
pub const COMPRESSION_LIMIT: usize = 1436;

/// The header bit that marks a compressed payload (the top bit of the four bytes).
pub const COMPRESSION_BIT: usize = 0x8000_0000;

/// Whether a header value has the compression bit set.
pub open spec fn header_compressed(header: int) -> bool {
    (header / 0x8000_0000) % 2 == 1
}

/// The payload length that a header value announces: the value without the
/// compression bit.
pub open spec fn header_len(header: int) -> int {
    if header_compressed(header) {
        header - 0x8000_0000
    } else {
        header
    }
}

/// A compressed frame around the gzip stream `payload`: a header that holds
/// the payload's length with the compression bit set, then the payload.
pub open spec fn compressed_frame(payload: Seq<u8>) -> Seq<u8> {
    be32(payload.len() + 0x8000_0000int) + payload
}

/// The frame of the message whose encoded bytes are `msg`: a short message
/// behind its length, a long one gzip-compressed behind the length of the
/// compressed stream and the compression bit.
pub open spec fn frame(msg: Seq<u8>) -> Seq<u8> {
    if msg.len() <= COMPRESSION_LIMIT {
        be32(msg.len() as int) + msg
    } else {
        compressed_frame(gzip_encoding(msg))
    }
}

/// A buffer that starts with a whole frame: a header and at least as many
/// bytes as the header announces.
pub open spec fn holds_frame(b: Seq<u8>) -> bool {
    &&& b.len() >= LEN_LEN
    &&& header_len(be32_value(b)) <= b.len() - LEN_LEN
}

/// Decoding the frame at the start of `b`: the message bytes it carries (`None`
/// when its compressed payload does not decompress) and what stays in the
/// buffer afterwards. A failed decompression leaves the payload in the buffer.
pub open spec fn unframed(b: Seq<u8>) -> (Option<Seq<u8>>, Seq<u8>) {
    let header = be32_value(b);
    let len = header_len(header);
    let body = b.subrange(LEN_LEN as int, LEN_LEN + len);
    if header_compressed(header) {
        match gunzip(body) {
            Some(m) => (Some(m), b.skip(LEN_LEN + len)),
            None => (None, b.skip(LEN_LEN as int)),
        }
    } else {
        (Some(body), b.skip(LEN_LEN + len))
    }
}

/// What `encode_frame` does to a buffer that held `prior`, for a message whose
/// encoded bytes are `msg`: it leaves `after` in it and returns `r`. On
/// success the frame is appended to what the buffer held; on failure the
/// buffer is left as it was.
pub open spec fn frame_written(prior: Seq<u8>, msg: Seq<u8>, after: Seq<u8>, r: Result<(), KvError>) -> bool {
    &&& (r is Ok ==> after == prior + frame(msg))
    &&& (r is Err ==> after == prior)
    &&& (msg.len() >= MAX_FRAME ==> r == Err::<(), KvError>(KvError::FrameError))
    &&& (msg.len() < MAX_FRAME && msg.len() <= COMPRESSION_LIMIT ==> if prior.len() + LEN_LEN
        + msg.len() <= isize::MAX {
        r == Ok::<(), KvError>(())
    } else {
        r == Err::<(), KvError>(KvError::EncodeError)
    })
    &&& (msg.len() < MAX_FRAME && msg.len() > COMPRESSION_LIMIT ==> {
        let gz = gzip_encoding(msg);
        if gz.len() < MAX_FRAME && prior.len() + LEN_LEN + gz.len() <= isize::MAX {
            &&& r == Ok::<(), KvError>(())
            &&& gunzip(gz) == Some(msg)
        } else if gz.len() <= isize::MAX {
            // the compressed stream does not fit in 31 bits, or the frame
            // does not fit in memory
            r == Err::<(), KvError>(KvError::FrameError)
        } else {
            // the compressor's writer may fill up before the stream is done
            r == Err::<(), KvError>(KvError::IoError) || r == Err::<(), KvError>(
                KvError::FrameError,
            )
        }
    })
}

/// Writing a frame never refuses a message that fits: a message of at most
/// `COMPRESSION_LIMIT` bytes whose frame keeps the buffer within `isize::MAX`
/// bytes is appended, behind its four-byte big-endian length, to what the
/// buffer held; a longer one whose gzip stream fits in 31 bits and in memory
/// is appended compressed, behind the stream's length with the top bit set.
pub proof fn lemma_frames_that_fit_are_written(
    prior: Seq<u8>,
    msg: Seq<u8>,
    after: Seq<u8>,
    r: Result<(), KvError>,
)
    requires
        frame_written(prior, msg, after, r),
    ensures
        msg.len() <= COMPRESSION_LIMIT && prior.len() + LEN_LEN + msg.len() <= isize::MAX ==> {
            &&& r == Ok::<(), KvError>(())
            &&& after == prior + be32(msg.len() as int) + msg
        },
        COMPRESSION_LIMIT < msg.len() < MAX_FRAME && gzip_encoding(msg).len() < MAX_FRAME
            && prior.len() + LEN_LEN + gzip_encoding(msg).len() <= isize::MAX ==> {
            &&& r == Ok::<(), KvError>(())
            &&& after == prior + be32(gzip_encoding(msg).len() + 0x8000_0000int) + gzip_encoding(
                msg,
            )
        },
        r is Err ==> after == prior,
{
    assert(prior + (be32(msg.len() as int) + msg) =~= prior + be32(msg.len() as int) + msg);
    let gz = gzip_encoding(msg);
    assert(prior + (be32(gz.len() + 0x8000_0000int) + gz) =~= prior + be32(
        gz.len() + 0x8000_0000int,
    ) + gz);
}

/// Splits a header into the payload length and the compression flag.
pub fn decode_header(header: usize) -> (r: (usize, bool))
    ensures
        r.1 == header_compressed(header as int),
        r.0 == header_len(header as int),
{
    let len = header & !COMPRESSION_BIT;
    let compressed = header & COMPRESSION_BIT == COMPRESSION_BIT;
    assert(compressed == ((header / 0x8000_0000) % 2 == 1)) by (bit_vector)
        requires
            compressed == (header & 0x8000_0000usize == 0x8000_0000usize),
    ;
    assert(len == if (header / 0x8000_0000) % 2 == 1 {
        header - 0x8000_0000
    } else {
        header as int
    }) by (bit_vector)
        requires
            len == header & !0x8000_0000usize,
    ;
    (len, compressed)
}

/// A header built from a 31-bit length and a compression flag gives back
/// that length and that flag.
pub proof fn lemma_header_fields(len: int, compressed: bool)
    requires
        0 <= len < MAX_FRAME,
    ensures
        header_len(len + if compressed { 0x8000_0000int } else { 0 }) == len,
        header_compressed(len + if compressed { 0x8000_0000int } else { 0 }) == compressed,
{
}

/// The header of a compressed frame: `(payload_len | COMPRESSION_BIT) as u32`,
/// which is the length plus the compression bit for a length under 31 bits.
fn compressed_header_of(payload_len: usize) -> (h: u32)
    requires
        payload_len < MAX_FRAME,
    ensures
        h == payload_len + 0x8000_0000,
{
    let h = (payload_len | COMPRESSION_BIT) as u32;
    assert(h == payload_len + 0x8000_0000) by (bit_vector)
        requires
            h == (payload_len | 0x8000_0000usize) as u32,
            payload_len < 0x8000_0000usize,
    ;
    h
}

/// A header followed by exactly the payload it announces decodes to that
/// payload's header fields and leaves nothing behind.
proof fn lemma_read_frame(header: int, payload: Seq<u8>)
    requires
        0 <= header < 0x1_0000_0000,
        header_len(header) == payload.len(),
    ensures
        holds_frame(be32(header) + payload),
        be32_value(be32(header) + payload) == header,
        (be32(header) + payload).subrange(LEN_LEN as int, LEN_LEN + payload.len()) == payload,
        (be32(header) + payload).skip(LEN_LEN + payload.len()) == Seq::<u8>::empty(),
{
    lemma_be32_roundtrip(header);
    let b = be32(header) + payload;
    assert(b[0] == be32(header)[0]);
    assert(b[1] == be32(header)[1]);
    assert(b[2] == be32(header)[2]);
    assert(b[3] == be32(header)[3]);
    assert(b.subrange(LEN_LEN as int, LEN_LEN + payload.len()) =~= payload);
    assert(b.skip(LEN_LEN + payload.len()) =~= Seq::<u8>::empty());
}

/// The frame of a message decodes back to the message and leaves nothing
/// behind. For a compressed frame this needs the gzip stream of the message to
/// decompress to it (what `flate2` gives whenever it compresses) and to be
/// shorter than `MAX_FRAME`, so that its length fits in the header's 31 bits.
pub proof fn lemma_frame_roundtrip(msg: Seq<u8>)
    requires
        msg.len() < MAX_FRAME,
        msg.len() > COMPRESSION_LIMIT ==> {
            &&& gunzip(gzip_encoding(msg)) == Some(msg)
            &&& gzip_encoding(msg).len() < MAX_FRAME
        },
    ensures
        holds_frame(frame(msg)),
        unframed(frame(msg)) == (Some(msg), Seq::<u8>::empty()),
{
    if msg.len() <= COMPRESSION_LIMIT {
        lemma_read_frame(msg.len() as int, msg);
    } else {
        let gz = gzip_encoding(msg);
        lemma_read_frame(gz.len() + 0x8000_0000int, gz);
    }
}

/// Decoding a frame does not look past it: bytes that follow the frame stay
/// in the buffer behind what decoding leaves, so frames written one after
/// another come out one after another.
pub proof fn lemma_unframed_prefix(b: Seq<u8>, more: Seq<u8>)
    requires
        holds_frame(b),
    ensures
        holds_frame(b + more),
        unframed(b + more) == (unframed(b).0, unframed(b).1 + more),
{
    let c = b + more;
    assert(c[0] == b[0] && c[1] == b[1] && c[2] == b[2] && c[3] == b[3]);
    let len = header_len(be32_value(b));
    assert(c.subrange(LEN_LEN as int, LEN_LEN + len) =~= b.subrange(LEN_LEN as int, LEN_LEN + len));
    assert(c.skip(LEN_LEN + len) =~= b.skip(LEN_LEN + len) + more);
    assert(c.skip(LEN_LEN as int) =~= b.skip(LEN_LEN as int) + more);
}

/// The compression bit is the top bit of a frame's first byte: it is set
/// exactly when the message is longer than `COMPRESSION_LIMIT`.
pub proof fn lemma_compression_flag(msg: Seq<u8>)
    requires
        msg.len() < MAX_FRAME,
        msg.len() > COMPRESSION_LIMIT ==> gzip_encoding(msg).len() < MAX_FRAME,
    ensures
        frame(msg)[0] >= 0x80 <==> msg.len() > COMPRESSION_LIMIT,
{
    if msg.len() <= COMPRESSION_LIMIT {
        assert(frame(msg)[0] == be32(msg.len() as int)[0]);
    } else {
        let gz = gzip_encoding(msg);
        assert(frame(msg)[0] == be32(gz.len() + 0x8000_0000int)[0]);
    }
}

/// Whether `buf` starts with a whole frame: a header and at least as many
/// bytes as it announces.
pub fn holds_whole_frame(buf: &BytesMut) -> (b: bool)
    ensures
        b == holds_frame(buf_bytes(*buf)),
{
    let bytes = buf_as_slice(buf);
    let n = bytes.len();
    if n < LEN_LEN {
        return false;
    }
    let header: u32 = (bytes[0] as u32) * 0x100_0000 + (bytes[1] as u32) * 0x1_0000 + (bytes[2]
        as u32) * 0x100 + bytes[3] as u32;
    let (len, _) = decode_header(header as usize);
    len <= n - LEN_LEN
}

/// Appends the compressed frame around the gzip stream `payload` to `buf`.
/// A stream of `MAX_FRAME` bytes or more does not fit in the header's 31
/// bits, and a frame that would take the buffer past `isize::MAX` bytes does
/// not fit in memory: both are refused with `FrameError`, and the buffer is
/// left as it was.
pub fn append_compressed_frame(buf: &mut BytesMut, payload: BytesMut) -> (r: Result<(), KvError>)
    requires
        buf_bytes(*old(buf)).len() + LEN_LEN <= isize::MAX,
    ensures
        if buf_bytes(payload).len() < MAX_FRAME && buf_bytes(*old(buf)).len() + LEN_LEN
            + buf_bytes(payload).len() <= isize::MAX {
            &&& r == Ok::<(), KvError>(())
            &&& buf_bytes(*final(buf)) == buf_bytes(*old(buf)) + compressed_frame(
                buf_bytes(payload),
            )
        } else {
            &&& r == Err::<(), KvError>(KvError::FrameError)
            &&& buf_bytes(*final(buf)) == buf_bytes(*old(buf))
        },
{
    let prior_len = buf_len(buf);
    let payload_len = buf_len(&payload);
    if payload_len >= MAX_FRAME || payload_len > isize::MAX as usize - LEN_LEN - prior_len {
        return Err(KvError::FrameError);
    }
    buf_put_u32(buf, compressed_header_of(payload_len));
    buf_unsplit(buf, payload);
    Ok(())
}

/// Writes the frame of a message into `buf`, after what it holds, given the
/// message's encoded bytes `msg`.
///
/// A message of `MAX_FRAME` bytes or more is refused with `FrameError`. A
/// message of at most `COMPRESSION_LIMIT` bytes goes behind its length, or is
/// refused with `EncodeError` when the buffer would pass `isize::MAX` bytes.
/// A longer one is compressed and goes behind the length of the compressed
/// stream and the compression bit, as `append_compressed_frame` puts it. A
/// refused message leaves the buffer as it was. The buffer must have room for
/// a header.
pub fn encode_frame(msg: &[u8], buf: &mut BytesMut) -> (r: Result<(), KvError>)
    requires
        msg@.len() < MAX_FRAME ==> buf_bytes(*old(buf)).len() + LEN_LEN <= isize::MAX,
    ensures
        frame_written(buf_bytes(*old(buf)), msg@, buf_bytes(*final(buf)), r),
        // a short message that fits is sent behind its length, after what the
        // buffer held
        msg@.len() <= COMPRESSION_LIMIT && buf_bytes(*old(buf)).len() + LEN_LEN + msg@.len()
            <= isize::MAX ==> {
            &&& r == Ok::<(), KvError>(())
            &&& buf_bytes(*final(buf)) == buf_bytes(*old(buf)) + be32(msg@.len() as int) + msg@
        },
        // a long message whose gzip stream fits is sent compressed, behind the
        // stream's length with the compression bit set
        COMPRESSION_LIMIT < msg@.len() < MAX_FRAME && gzip_encoding(msg@).len() < MAX_FRAME
            && buf_bytes(*old(buf)).len() + LEN_LEN + gzip_encoding(msg@).len() <= isize::MAX ==> {
            &&& r == Ok::<(), KvError>(())
            &&& buf_bytes(*final(buf)) == buf_bytes(*old(buf)) + be32(
                gzip_encoding(msg@).len() + 0x8000_0000int,
            ) + gzip_encoding(msg@)
        },
        // a frame that was written decodes back to the message
        r is Ok ==> {
            &&& holds_frame(frame(msg@))
            &&& unframed(frame(msg@)) == (Some(msg@), Seq::<u8>::empty())
            &&& (frame(msg@)[0] >= 0x80 <==> msg@.len() > COMPRESSION_LIMIT)
        },
{
    let size = msg.len();
    if size >= MAX_FRAME {
        return Err(KvError::FrameError);
    }
    proof {
        let prior = buf_bytes(*old(buf));
        assert(prior + (be32(size as int) + msg@) =~= prior + be32(size as int) + msg@);
        let gz = gzip_encoding(msg@);
        assert(prior + (be32(gz.len() + 0x8000_0000int) + gz) =~= prior + be32(
            gz.len() + 0x8000_0000int,
        ) + gz);
    }
    if size > COMPRESSION_LIMIT {
        let payload = match gzip_into(buf_new(), msg) {
            Some(p) => p,
            None => return Err(KvError::IoError),
        };
        let r = append_compressed_frame(buf, payload);
        proof {
            if r is Ok {
                lemma_frame_roundtrip(msg@);
                lemma_compression_flag(msg@);
            }
        }
        r
    } else {
        if size > isize::MAX as usize - LEN_LEN - buf_len(buf) {
            return Err(KvError::EncodeError);
        }
        buf_put_u32(buf, size as u32);
        let ghost prior = buf_bytes(*old(buf));
        buf_extend(buf, msg);
        proof {
            assert(buf_bytes(*buf) =~= prior + frame(msg@));
            lemma_frame_roundtrip(msg@);
            lemma_compression_flag(msg@);
        }
        Ok(())
    }
}

/// Takes the frame at the start of `buf` off it and returns the message bytes
/// that it carries, decompressed when the header says so. The buffer must
/// hold a whole frame. When the payload does not decompress the result is
/// `IoError`, and only the header has been taken off.
pub fn decode_frame(buf: &mut BytesMut) -> (r: Result<Vec<u8>, KvError>)
    requires
        holds_frame(buf_bytes(*old(buf))),
    ensures
        match r {
            Ok(m) => unframed(buf_bytes(*old(buf))) == (Some(m@), buf_bytes(*final(buf))),
            Err(e) => {
                &&& e == KvError::IoError
                &&& unframed(buf_bytes(*old(buf))) == (None::<Seq<u8>>, buf_bytes(*final(buf)))
            },
        },
{
    let ghost b = buf_bytes(*buf);
    let header = buf_get_u32(buf) as usize;
    let (len, compressed) = decode_header(header);
    assert(buf_bytes(*buf).subrange(0, len as int) =~= b.subrange(
        LEN_LEN as int,
        LEN_LEN + len,
    ));
    if compressed {
        let decompressed = gunzip_slice(slice_subrange(buf_as_slice(buf), 0, len));
        match decompressed {
            Some(m) => {
                buf_advance(buf, len);
                assert(buf_bytes(*buf) =~= b.skip(LEN_LEN + len));
                Ok(m)
            },
            None => Err(KvError::IoError),
        }
    } else {
        let m = slice_to_vec(slice_subrange(buf_as_slice(buf), 0, len));
        buf_advance(buf, len);
        assert(buf_bytes(*buf) =~= b.skip(LEN_LEN + len));
        Ok(m)
    }
}

/// Makes room in `buf` for the frame whose header `header` has just been read
/// off a stream: the header goes after what the buffer holds, followed by as
/// many zero bytes as the header announces. Returns where those bytes start,
/// for the payload to be read over them.
pub fn prepare_frame_read(buf: &mut BytesMut, header: u32) -> (start: usize)
    requires
        buf_bytes(*old(buf)).len() + LEN_LEN + header_len(header as int) <= isize::MAX,
    ensures
        start == buf_bytes(*old(buf)).len() + LEN_LEN,
        buf_bytes(*final(buf)) == buf_bytes(*old(buf)) + be32(header as int) + Seq::new(
            header_len(header as int) as nat,
            |i: int| 0u8,
        ),
{
    let (len, _compressed) = decode_header(header as usize);
    let prior_len = buf_len(buf);
    buf_put_u32(buf, header);
    let start = prior_len + LEN_LEN;
    buf_resize(buf, start + len, 0);
    start
}

/// After the message in a frame's payload has been decoded (`decoded` tells
/// whether that worked): a plain payload that did not decode is put back in
/// front of the buffer, where it stood before `decode_frame` took it off;
/// otherwise the buffer stays as it is.
pub fn keep_undecoded_payload(buf: &mut BytesMut, compressed: bool, payload: &[u8], decoded: bool)
    requires
        !decoded && !compressed ==> payload@.len() + buf_bytes(*old(buf)).len() <= isize::MAX,
    ensures
        buf_bytes(*final(buf)) == if !decoded && !compressed {
            payload@ + buf_bytes(*old(buf))
        } else {
            buf_bytes(*old(buf))
        },
{
    if !decoded && !compressed {
        let mut front = buf_new();
        buf_extend(&mut front, payload);
        let rest = buf_split_off(buf, 0);
        buf_unsplit(&mut front, rest);
        *buf = front;
    }
}

} // verus!
