use vstd::prelude::*;

verus! {

/// Errors of the key-value protocol layer.
#[derive(Debug, Clone, Copy, PartialEq, Eq, Structural)]
pub enum KvError {
    /// A frame is too large, or its header is malformed.
    FrameError,
    /// A message did not fit in the buffer it was encoded into.
    EncodeError,
    /// A message's bytes could not be decoded.
    DecodeError,
    /// Compressing or decompressing a frame's payload failed.
    IoError,
}

} // verus!
