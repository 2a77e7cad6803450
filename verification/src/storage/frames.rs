//! Frames: the slots of a file, each with a header that gives its size.
use crate::error::{bad_data, failure, Error, ErrorKind, Failure};
use crate::text::owned;
use vstd::prelude::*;

verus! {

/// What to read at a position of a file.
#[derive(Debug, Clone, Copy, PartialEq, Eq, Structural)]
pub enum FrameStart {
    /// The position is not in the file.
    Past,
    /// No header fits behind the position; so many bytes are read to tell why.
    Probe { len: usize },
    /// A header is read.
    Header,
}

/// What to read at a position of a file.
pub open spec fn frame_start(file_len: u64, offset: u64, header_len: usize) -> FrameStart {
    if offset >= file_len {
        FrameStart::Past
    } else if offset + header_len > file_len {
        FrameStart::Probe {
            len: if file_len - offset < 4 {
                (file_len - offset) as usize
            } else {
                4
            },
        }
    } else {
        FrameStart::Header
    }
}

pub fn start_frame(file_len: u64, offset: u64, header_len: usize) -> (r: FrameStart)
    ensures
        r == frame_start(file_len, offset, header_len),
{
    if offset >= file_len {
        return FrameStart::Past;
    }
    let left: u64 = file_len - offset;
    if header_len as u64 > left {
        FrameStart::Probe {
            len: if left < 4 {
                left as usize
            } else {
                4
            },
        }
    } else {
        FrameStart::Header
    }
}

/// The bytes with which a frame starts.
pub open spec fn frame_mark() -> Seq<u8> {
    seq![0x57u8, 0x52u8, 0x44u8, 0x42u8]
}

/// The failure of a file of lines of text.
pub open spec fn legacy_file() -> Failure {
    bad_data(
        "Legacy newline-delimited records are no longer supported; migrate to WRDB binary frames"@,
    )
}

/// The failure of a header that the file ends in.
pub open spec fn header_cut() -> Failure {
    failure(ErrorKind::UnexpectedEof, "WRDB binary frame header exceeds file length"@)
}

/// The failure of a frame that the file ends in.
pub open spec fn frame_cut() -> Failure {
    failure(ErrorKind::UnexpectedEof, "Binary frame exceeds file length"@)
}

fn legacy_error() -> (r: Error)
    ensures
        r@ == legacy_file(),
{
    Error::invalid_data(
        owned(
            "Legacy newline-delimited records are no longer supported; migrate to WRDB binary frames",
        ),
    )
}

fn mark_byte(i: usize) -> (r: u8)
    requires
        i < 4,
    ensures
        r == frame_mark()[i as int],
{
    if i == 0 {
        0x57
    } else if i == 1 {
        0x52
    } else if i == 2 {
        0x44
    } else {
        0x42
    }
}

/// Why no header could be read: the bytes that are there are the start of a frame, or they are
/// not.
pub fn short_header_error(probe: &[u8]) -> (r: Error)
    requires
        probe@.len() <= 4,
    ensures
        r@ == (if probe@ == frame_mark().subrange(0, probe@.len() as int) {
            header_cut()
        } else {
            legacy_file()
        }),
{
    let mut i: usize = 0;
    while i < probe.len()
        invariant
            probe@.len() <= 4,
            i <= probe@.len(),
            forall|k: int| 0 <= k < i ==> probe@[k] == frame_mark()[k],
        decreases probe@.len() - i,
    {
        if probe[i] != mark_byte(i) {
            assert(probe@[i as int] != frame_mark().subrange(0, probe@.len() as int)[i as int]);
            return legacy_error();
        }
        i += 1;
    }
    assert(probe@ =~= frame_mark().subrange(0, probe@.len() as int));
    Error::new(
        ErrorKind::UnexpectedEof,
        owned("WRDB binary frame header exceeds file length"),
    )
}

/// The size of the slot at a position, where the header gives one and the slot fits into the
/// file.
pub open spec fn slot_fits(file_len: u64, offset: u64, slot_size: Option<usize>) -> Result<
    usize,
    Failure,
> {
    match slot_size {
        None => Err(legacy_file()),
        Some(size) => if offset + size > file_len {
            Err(frame_cut())
        } else {
            Ok(size)
        },
    }
}

pub fn check_slot(file_len: u64, offset: u64, slot_size: Option<usize>) -> (r: Result<usize, Error>)
    requires
        offset < file_len,
    ensures
        match (slot_fits(file_len, offset, slot_size), r) {
            (Ok(a), Ok(b)) => a == b,
            (Err(f), Err(e)) => e@ == f,
            _ => false,
        },
{
    match slot_size {
        None => Err(legacy_error()),
        Some(size) => {
            if size as u64 > file_len - offset {
                Err(
                    Error::new(
                        ErrorKind::UnexpectedEof,
                        owned("Binary frame exceeds file length"),
                    ),
                )
            } else {
                Ok(size)
            }
        },
    }
}

/// A walk over the slots of a file, one after another.
pub struct FrameWalk {
    pub file_len: u64,
    pub offset: u64,
}

impl FrameWalk {
    pub fn start(file_len: u64) -> (r: Self)
        ensures
            r.file_len == file_len,
            r.offset == 0,
    {
        FrameWalk { file_len, offset: 0 }
    }

    /// What to read next. The walk is over where the position is not in the file.
    pub fn next_frame(&self, header_len: usize) -> (r: FrameStart)
        ensures
            r == frame_start(self.file_len, self.offset, header_len),
    {
        start_frame(self.file_len, self.offset, header_len)
    }

    /// Passes the slot at the position, and gives its offset and its size. A slot that does not
    /// fit leaves the walk where it is.
    pub fn pass(&mut self, slot_size: Option<usize>) -> (r: Result<(u64, usize), Error>)
        requires
            old(self).offset < old(self).file_len,
        ensures
            final(self).file_len == old(self).file_len,
            match (slot_fits(old(self).file_len, old(self).offset, slot_size), r) {
                (Ok(size), Ok((offset, passed))) => {
                    &&& offset == old(self).offset
                    &&& passed == size
                    &&& final(self).offset == offset + size
                    &&& final(self).offset <= final(self).file_len
                },
                (Err(f), Err(e)) => e@ == f && final(self).offset == old(self).offset,
                _ => false,
            },
    {
        let size = match check_slot(self.file_len, self.offset, slot_size) {
            Ok(size) => size,
            Err(e) => {
                return Err(e);
            },
        };
        let at: u64 = self.offset;
        self.offset = at + size as u64;
        Ok((at, size))
    }
}

} // verus!
