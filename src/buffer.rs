use vstd::prelude::*;

verus! {

/// What a GPU buffer is bound as.
#[derive(Debug, Clone, Copy, PartialEq, Eq, Structural)]
pub enum BufferUsage {
    Vertex,
    Index,
    Uniform,
}

/// What to do with the device allocation before writing an upload.
#[derive(Debug, Clone, Copy, PartialEq, Eq, Structural)]
pub enum UploadAction {
    /// No buffer exists yet: create one of the payload's size.
    Create,
    /// The payload fits: write it into the existing allocation.
    Write,
    /// The payload does not fit: destroy the buffer and create one of the
    /// payload's size with the same usage.
    Reallocate,
}

/// The sizing state of a GPU buffer: its byte capacity and usage.
#[derive(Debug, Clone, Copy, PartialEq, Eq, Structural)]
pub struct Buffer {
    pub size_in_bytes: usize,
    pub usage: BufferUsage,
}

/// Whether uploading `bytes` to a buffer of capacity `capacity` reallocates it.
pub open spec fn reallocates(capacity: nat, bytes: nat) -> bool {
    bytes > capacity
}

/// Capacity of a buffer of capacity `capacity` after uploading `bytes`.
pub open spec fn capacity_after(capacity: nat, bytes: nat) -> nat {
    if reallocates(capacity, bytes) {
        bytes
    } else {
        capacity
    }
}

/// After an upload the buffer holds at least the uploaded bytes, and later
/// uploads that fit that capacity neither reallocate nor change it.
pub proof fn lemma_upload_grows_once(capacity: nat, bytes: nat, later: nat)
    requires
        later <= capacity_after(capacity, bytes),
    ensures
        capacity_after(capacity, bytes) >= bytes,
        capacity_after(capacity, bytes) >= capacity,
        !reallocates(capacity_after(capacity, bytes), later),
        capacity_after(capacity_after(capacity, bytes), later) == capacity_after(capacity, bytes),
{
}

impl Buffer {
    /// A buffer of `size_in_bytes` bytes bound as `usage`.
    pub fn init(size_in_bytes: usize, usage: BufferUsage) -> (b: Buffer)
        ensures
            b.size_in_bytes == size_in_bytes,
            b.usage == usage,
    {
        Buffer { size_in_bytes, usage }
    }

    /// Prepares an upload of `bytes_to_write` bytes: the buffer is kept when
    /// they fit and replaced by one of exactly that size otherwise.
    pub fn fill(&mut self, bytes_to_write: usize) -> (a: UploadAction)
        ensures
            final(self).usage == old(self).usage,
            final(self).size_in_bytes == capacity_after(
                old(self).size_in_bytes as nat,
                bytes_to_write as nat,
            ),
            a == if reallocates(old(self).size_in_bytes as nat, bytes_to_write as nat) {
                UploadAction::Reallocate
            } else {
                UploadAction::Write
            },
    {
        if bytes_to_write > self.size_in_bytes {
            *self = Buffer::init(bytes_to_write, self.usage);
            UploadAction::Reallocate
        } else {
            UploadAction::Write
        }
    }

    /// Prepares an upload of `bytes_to_write` bytes into an optional buffer:
    /// a missing one is created with exactly that size, an existing one is
    /// filled as by `fill`.
    pub fn update(slot: &mut Option<Buffer>, bytes_to_write: usize, usage: BufferUsage) -> (a:
        UploadAction)
        ensures
            match *old(slot) {
                None => {
                    &&& a == UploadAction::Create
                    &&& *final(slot) == Some(Buffer { size_in_bytes: bytes_to_write, usage })
                },
                Some(b) => {
                    &&& a == if reallocates(b.size_in_bytes as nat, bytes_to_write as nat) {
                        UploadAction::Reallocate
                    } else {
                        UploadAction::Write
                    }
                    &&& *final(slot) == Some(
                        Buffer {
                            size_in_bytes: capacity_after(
                                b.size_in_bytes as nat,
                                bytes_to_write as nat,
                            ) as usize,
                            usage: b.usage,
                        },
                    )
                },
            },
    {
        match slot {
            Some(b) => b.fill(bytes_to_write),
            None => {
                *slot = Some(Buffer::init(bytes_to_write, usage));
                UploadAction::Create
            },
        }
    }
}

} // verus!
