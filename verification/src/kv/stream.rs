//! The buffers and bookkeeping of a stream that carries frames: what waits to
//! be written, how much of it has been written, and the frame being read.
//! The stream itself is driven from outside: whoever polls it writes the
//! unwritten bytes, reports how many went out, and hands over read frames.
use crate::kv::buffer::{
    buf_as_slice, buf_bytes, buf_clear, buf_len, buf_new, buf_split_off, buf_unsplit,
};
use crate::kv::error::KvError;
use crate::kv::frame::{decode_frame, encode_frame, frame_written, holds_frame, unframed, MAX_FRAME, LEN_LEN};
use bytes::BytesMut;
use core::marker::PhantomData;
use vstd::prelude::*;
use vstd::slice::slice_subrange;

verus! {

/// A stream of frames over `stream`, reading messages of type `In` and
/// writing messages of type `Out`.
pub struct ProstStream<S, In, Out> {
    /// The byte stream underneath.
    pub stream: S,
    wbuf: BytesMut,
    written: usize,
    rbuf: BytesMut,
    _in: PhantomData<In>,
    _out: PhantomData<Out>,
}

impl<S, In, Out> ProstStream<S, In, Out> {
    /// The bytes waiting to be written, those already written included.
    pub closed spec fn write_buffer(&self) -> Seq<u8> {
        buf_bytes(self.wbuf)
    }

    /// The byte stream underneath.
    pub closed spec fn inner(&self) -> S {
        self.stream
    }

    /// How many bytes of the write buffer have been written.
    pub closed spec fn written_count(&self) -> nat {
        self.written as nat
    }

    /// The bytes of the frame being read.
    pub closed spec fn read_buffer(&self) -> Seq<u8> {
        buf_bytes(self.rbuf)
    }

    /// A stream over `stream` with empty buffers and nothing written.
    pub fn new(stream: S) -> (r: Self)
        ensures
            r.inner() == stream,
            r.write_buffer() == Seq::<u8>::empty(),
            r.written_count() == 0,
            r.read_buffer() == Seq::<u8>::empty(),
    {
        ProstStream {
            stream,
            written: 0,
            wbuf: buf_new(),
            rbuf: buf_new(),
            _in: PhantomData,
            _out: PhantomData,
        }
    }

    /// The number of bytes in the write buffer, those already written included.
    pub fn write_buffer_len(&self) -> (n: usize)
        ensures
            n == self.write_buffer().len(),
    {
        buf_len(&self.wbuf)
    }

    /// How many bytes of the write buffer have been written.
    pub fn written(&self) -> (n: usize)
        ensures
            n == self.written_count(),
    {
        self.written
    }

    /// The number of bytes in the read buffer.
    pub fn read_buffer_len(&self) -> (n: usize)
        ensures
            n == self.read_buffer().len(),
    {
        buf_len(&self.rbuf)
    }

    /// Queues the frame of a message whose encoded bytes are `item`: the frame
    /// goes into the write buffer as `encode_frame` writes it.
    pub fn start_send(&mut self, item: &[u8]) -> (r: Result<(), KvError>)
        requires
            item@.len() < MAX_FRAME ==> old(self).write_buffer().len() + LEN_LEN <= isize::MAX,
        ensures
            frame_written(old(self).write_buffer(), item@, final(self).write_buffer(), r),
            final(self).written_count() == old(self).written_count(),
            final(self).read_buffer() == old(self).read_buffer(),
            final(self).inner() == old(self).inner(),
    {
        encode_frame(item, &mut self.wbuf)
    }

    /// Whether bytes of the write buffer are still to be written.
    pub fn has_unwritten(&self) -> (b: bool)
        ensures
            b == (self.written_count() != self.write_buffer().len()),
    {
        self.written != buf_len(&self.wbuf)
    }

    /// The bytes of the write buffer that are still to be written.
    pub fn unwritten(&self) -> (s: &[u8])
        requires
            self.written_count() <= self.write_buffer().len(),
        ensures
            s@ == self.write_buffer().skip(self.written_count() as int),
    {
        let all = buf_as_slice(&self.wbuf);
        slice_subrange(all, self.written, all.len())
    }

    /// Records that the next `n` unwritten bytes have been written.
    pub fn record_written(&mut self, n: usize)
        requires
            old(self).written_count() + n <= old(self).write_buffer().len(),
        ensures
            final(self).written_count() == old(self).written_count() + n,
            final(self).write_buffer() == old(self).write_buffer(),
            final(self).read_buffer() == old(self).read_buffer(),
            final(self).inner() == old(self).inner(),
    {
        let total = buf_len(&self.wbuf);
        assert(self.written + n <= total);
        self.written = self.written + n;
    }

    /// Once everything has been written: empties the write buffer and starts
    /// counting again from zero.
    pub fn finish_flush(&mut self)
        requires
            old(self).written_count() == old(self).write_buffer().len(),
        ensures
            final(self).write_buffer() == Seq::<u8>::empty(),
            final(self).written_count() == 0,
            final(self).read_buffer() == old(self).read_buffer(),
            final(self).inner() == old(self).inner(),
    {
        buf_clear(&mut self.wbuf);
        self.written = 0;
    }

    /// Hands out the read buffer for the next frame to be read into. The read
    /// buffer must be empty: every frame read before has been decoded.
    pub fn take_read_buffer(&mut self) -> (rest: BytesMut)
        requires
            old(self).read_buffer().len() == 0,
        ensures
            buf_bytes(rest) == Seq::<u8>::empty(),
            final(self).read_buffer() == Seq::<u8>::empty(),
            final(self).write_buffer() == old(self).write_buffer(),
            final(self).written_count() == old(self).written_count(),
            final(self).inner() == old(self).inner(),
    {
        buf_split_off(&mut self.rbuf, 0)
    }

    /// Takes back the buffer into which a whole frame has been read and
    /// decodes that frame, as `decode_frame` does, into the message bytes.
    pub fn decode_read_frame(&mut self, rest: BytesMut) -> (r: Result<Vec<u8>, KvError>)
        requires
            old(self).read_buffer().len() == 0 || old(self).read_buffer().len() + buf_bytes(
                rest,
            ).len() <= isize::MAX,
            holds_frame(old(self).read_buffer() + buf_bytes(rest)),
        ensures
            match r {
                Ok(m) => unframed(old(self).read_buffer() + buf_bytes(rest)) == (
                    Some(m@),
                    final(self).read_buffer(),
                ),
                Err(e) => {
                    &&& e == KvError::IoError
                    &&& unframed(old(self).read_buffer() + buf_bytes(rest)) == (
                        None::<Seq<u8>>,
                        final(self).read_buffer(),
                    )
                },
            },
            final(self).write_buffer() == old(self).write_buffer(),
            final(self).written_count() == old(self).written_count(),
            final(self).inner() == old(self).inner(),
    {
        buf_unsplit(&mut self.rbuf, rest);
        decode_frame(&mut self.rbuf)
    }
}

} // verus!
