//! Rules of a firmware download: which images are taken at all, what is done
//! with each chunk that arrives, and how the download ends.

use vstd::prelude::*;

verus! {

/// How many bytes are asked for at a time.
pub const FIRMWARE_DOWNLOAD_CHUNK_SIZE: usize = 1024 * 20;

/// Largest image that is taken: the size of the partition.
pub const FIRMWARE_MAX_SIZE: usize = 1_310_720;

/// What an image must have beyond its descriptor.
pub const FIRMWARE_MIN_PAYLOAD: usize = 1024;

/// The status of a response that carries an image.
pub const HTTP_OK: u16 = 200;

/// Why a response is not taken for a firmware image.
#[derive(Clone, Copy, Debug, PartialEq, Eq, Structural)]
pub enum OtaError {
    /// The server did not answer with status 200.
    InvalidResponse,
    /// The size of the image is out of range.
    ImageInvalid,
}

/// What a response with this status and this announced size is taken for,
/// where `info_size` is the size of an image's descriptor: the size if the
/// status is 200 and the size is more than the descriptor and 1024 bytes and
/// no more than the partition holds.
pub open spec fn spec_accept_response(status: u16, file_size: usize, info_size: usize) -> Result<
    usize,
    OtaError,
> {
    if status != HTTP_OK {
        Err(OtaError::InvalidResponse)
    } else if file_size <= info_size + FIRMWARE_MIN_PAYLOAD || file_size > FIRMWARE_MAX_SIZE {
        Err(OtaError::ImageInvalid)
    } else {
        Ok(file_size)
    }
}

/// Decides from the status and the announced size of a response whether the
/// download goes ahead.
pub fn accept_response(status: u16, file_size: usize, info_size: usize) -> (r: Result<
    usize,
    OtaError,
>)
    ensures
        r == spec_accept_response(status, file_size, info_size),
{
    if status != HTTP_OK {
        Err(OtaError::InvalidResponse)
    } else if file_size > FIRMWARE_MAX_SIZE {
        Err(OtaError::ImageInvalid)
    } else if info_size >= FIRMWARE_MAX_SIZE || file_size <= info_size + FIRMWARE_MIN_PAYLOAD {
        Err(OtaError::ImageInvalid)
    } else {
        Ok(file_size)
    }
}

/// What is done with a chunk that has arrived.
#[derive(Clone, Copy, Debug, PartialEq, Eq, Structural)]
pub struct ChunkPlan {
    /// The chunk is the first one: the image's descriptor is read from it
    /// before anything is written.
    pub read_info: bool,
    /// The chunk holds bytes to write.
    pub write: bool,
    /// With this chunk all of the image has arrived.
    pub last: bool,
}

/// How a download goes on once a chunk has been dealt with.
#[derive(Clone, Copy, Debug, PartialEq, Eq, Structural)]
pub enum Step {
    /// The next chunk is asked for.
    Continue,
    /// The update is given up and what was written is thrown away.
    Abort,
    /// The image is whole: the update is completed.
    Complete,
}

/// Whether the bytes of a chunk are written, given how reading the image's
/// descriptor went: they are if the chunk holds any, unless the descriptor
/// was to be read from it and could not be.
pub open spec fn spec_writes(plan: ChunkPlan, info_ok: bool) -> bool {
    plan.write && (plan.read_info ==> info_ok)
}

/// How a download goes on after a chunk. `info_ok` says that the descriptor
/// could be read and `write_ok` that the bytes could be written; each counts
/// only where the plan asked for the step. A failed step ends the download
/// in an abort, the last chunk in completion.
pub open spec fn spec_after_chunk(plan: ChunkPlan, info_ok: bool, write_ok: bool) -> Step {
    if plan.read_info && !info_ok {
        Step::Abort
    } else if plan.write && !write_ok {
        Step::Abort
    } else if plan.last {
        Step::Complete
    } else {
        Step::Continue
    }
}

/// Whether the bytes of a chunk are written, given how reading the image's
/// descriptor went.
pub fn writes(plan: ChunkPlan, info_ok: bool) -> (w: bool)
    ensures
        w == spec_writes(plan, info_ok),
{
    plan.write && (!plan.read_info || info_ok)
}

/// How a download goes on after a chunk has been dealt with.
pub fn after_chunk(plan: ChunkPlan, info_ok: bool, write_ok: bool) -> (s: Step)
    ensures
        s == spec_after_chunk(plan, info_ok, write_ok),
        s == Step::Complete ==> plan.last,
{
    if plan.read_info && !info_ok {
        Step::Abort
    } else if plan.write && !write_ok {
        Step::Abort
    } else if plan.last {
        Step::Complete
    } else {
        Step::Continue
    }
}

/// How far a download has come.
#[derive(Clone, Copy, Debug, PartialEq, Eq, Structural)]
pub struct Download {
    /// The announced size of the image.
    pub file_size: usize,
    /// How many bytes have arrived.
    pub total_read_len: usize,
    /// Whether the first chunk has arrived.
    pub got_info: bool,
}

impl Download {
    /// The number of bytes that have arrived once `n` more have; a count
    /// that no longer fits stays at the largest one that does.
    pub open spec fn spec_total(self, n: usize) -> usize {
        if self.total_read_len + n <= usize::MAX {
            (self.total_read_len + n) as usize
        } else {
            usize::MAX
        }
    }

    /// A download of an image of `file_size` bytes, of which nothing has
    /// arrived.
    pub fn new(file_size: usize) -> (d: Self)
        ensures
            d == (Download { file_size, total_read_len: 0, got_info: false }),
    {
        Download { file_size, total_read_len: 0, got_info: false }
    }

    /// Takes note of a chunk of `n` bytes and says what is done with it.
    pub fn on_chunk(&mut self, n: usize) -> (plan: ChunkPlan)
        ensures
            *final(self) == (Download {
                file_size: old(self).file_size,
                total_read_len: old(self).spec_total(n),
                got_info: true,
            }),
            plan == (ChunkPlan {
                read_info: !old(self).got_info,
                write: n > 0,
                last: old(self).spec_total(n) >= old(self).file_size,
            }),
    {
        let read_info = !self.got_info;
        self.total_read_len = if n <= usize::MAX - self.total_read_len {
            self.total_read_len + n
        } else {
            usize::MAX
        };
        self.got_info = true;
        ChunkPlan { read_info, write: n > 0, last: self.total_read_len >= self.file_size }
    }

    /// Whether all of the image has arrived.
    pub fn is_complete(&self) -> (r: bool)
        ensures
            r == (self.total_read_len >= self.file_size),
    {
        self.total_read_len >= self.file_size
    }
}

} // verus!
