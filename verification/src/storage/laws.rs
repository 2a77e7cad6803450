//! What is read of a file of frames.
use crate::error::ErrorKind;
use crate::storage::frames::{frame_start, slot_fits, FrameStart};
use vstd::prelude::*;

verus! {

/// What is read at a position lies within the file: a header where one fits, else as much of the
/// mark of a frame as there is. Nothing is read behind the end.
pub proof fn law_frames_are_read_within_the_file(file_len: u64, offset: u64, header_len: usize)
    ensures
        match frame_start(file_len, offset, header_len) {
            FrameStart::Past => offset >= file_len,
            FrameStart::Probe { len } => offset < file_len && offset + header_len > file_len && len
                > 0 && len <= 4 && offset + len <= file_len && (len < 4 ==> offset + len
                == file_len),
            FrameStart::Header => offset < file_len && offset + header_len <= file_len,
        },
{
}

/// A slot is taken as large as its header says, where it ends within the file; a slot without a
/// size, and one that goes on behind the end, are refused.
pub proof fn law_slots_end_within_the_file(file_len: u64, offset: u64, slot_size: Option<usize>)
    ensures
        match slot_fits(file_len, offset, slot_size) {
            Ok(size) => slot_size == Some(size) && offset + size <= file_len,
            Err(f) => match slot_size {
                None => f.kind == ErrorKind::InvalidData,
                Some(size) => offset + size > file_len && f.kind == ErrorKind::UnexpectedEof,
            },
        },
{
}

} // verus!
