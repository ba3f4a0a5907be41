//! Frames on a stream: four bytes of length, most significant first, and the frame itself.

use crate::bytes::{be32, be32_round_trip, from_be32, push_be32, read_be32};
use vstd::prelude::*;

verus! {

/// The longest frame that is read.
pub const MAX_FRAME_SIZE: u32 = 1_048_576;

/// The length of what stands in front of a frame.
pub const FRAME_HEADER: usize = 4;

/// Why a frame does not go over a stream.
#[derive(Debug, Clone, Copy, PartialEq, Eq, Structural)]
pub enum FrameError {
    /// The frame that is announced is longer than any that is read.
    FrameTooLarge { size: u32, max: u32 },
    /// The length of the frame has no room in front of it.
    FrameOverflow,
}

/// The length that four bytes announce.
pub open spec fn announced(header: Seq<u8>) -> Result<usize, FrameError> {
    let size = from_be32(header);
    if size > MAX_FRAME_SIZE {
        Err(FrameError::FrameTooLarge { size, max: MAX_FRAME_SIZE })
    } else {
        Ok(size as usize)
    }
}

/// What goes over the stream in front of a frame.
pub open spec fn announcement(len: nat) -> Result<Seq<u8>, FrameError> {
    if len > u32::MAX {
        Err(FrameError::FrameOverflow)
    } else {
        Ok(be32(len as u32))
    }
}

/// The length of the frame that four bytes announce.
pub fn frame_len(header: &[u8; 4]) -> (r: Result<usize, FrameError>)
    ensures
        r == announced(header@),
{
    let len: u32 = read_be32(header, 0);
    assert(header@.subrange(0, 4) =~= header@);
    if len > MAX_FRAME_SIZE {
        return Err(FrameError::FrameTooLarge { size: len, max: MAX_FRAME_SIZE });
    }
    Ok(len as usize)
}

/// What goes over the stream in front of a frame.
pub fn frame_header(data: &[u8]) -> (r: Result<Vec<u8>, FrameError>)
    ensures
        match r {
            Ok(header) => announcement(data@.len()) == Ok::<Seq<u8>, FrameError>(header@),
            Err(e) => announcement(data@.len()) == Err::<Seq<u8>, FrameError>(e),
        },
{
    let len: usize = data.len();
    if len as u64 > u32::MAX as u64 {
        return Err(FrameError::FrameOverflow);
    }
    let mut header: Vec<u8> = Vec::with_capacity(FRAME_HEADER);
    push_be32(&mut header, len as u32);
    assert(header@ =~= be32(len as u32));
    Ok(header)
}

/// What is written in front of a frame announces its length to the reader, unless the frame is
/// longer than any that is read.
pub proof fn written_is_read(len: nat)
    requires
        len <= u32::MAX,
    ensures
        announcement(len) is Ok,
        announcement(len)->Ok_0.len() == FRAME_HEADER,
        announced(announcement(len)->Ok_0) == if len <= MAX_FRAME_SIZE {
            Ok::<usize, FrameError>(len as usize)
        } else {
            Err(FrameError::FrameTooLarge { size: len as u32, max: MAX_FRAME_SIZE })
        },
{
    be32_round_trip(len as u32, be32(len as u32));
}

} // verus!
