//! Shared immutable byte buffers and non-copying sub-range views over them.

use std::sync::Arc;

use vstd::prelude::*;

verus! {

/// Declares `memmap2::Mmap`, the read-only memory map over a completed
/// spool file, so blobs can hold one.
#[verifier::external_type_specification]
#[verifier::external_body]
pub struct ExMmap(memmap2::Mmap);

/// The bytes of a memory-mapped region. The regions held here are created
/// from spool files that this process owns exclusively and never rewrites,
/// so the mapped bytes are fixed for the life of the map.
pub uninterp spec fn mmap_bytes(m: memmap2::Mmap) -> Seq<u8>;

/// Relies on `memmap2::Mmap::len`: the length in bytes of the mapped region.
#[verifier::external_body]
fn mmap_len(m: &memmap2::Mmap) -> (n: usize)
    ensures
        n == mmap_bytes(*m).len(),
{
    m.len()
}

/// Relies on `memmap2::Mmap`'s `Deref` to `[u8]`: indexing reads the byte at
/// that offset of the mapped region.
#[verifier::external_body]
fn mmap_byte(m: &memmap2::Mmap, i: usize) -> (b: u8)
    requires
        i < mmap_bytes(*m).len(),
    ensures
        b == mmap_bytes(*m)[i as int],
{
    m[i]
}

/// The storage behind a `Blob`: a memory-mapped spool file, or a plain
/// in-memory buffer. Either way the bytes never change once wrapped.
pub enum BlobBacking {
    Mapped(memmap2::Mmap),
    Owned(Vec<u8>),
}

/// The bytes a backing holds.
pub open spec fn backing_bytes(b: BlobBacking) -> Seq<u8> {
    match b {
        BlobBacking::Mapped(m) => mmap_bytes(m),
        BlobBacking::Owned(v) => v@,
    }
}

/// An immutable byte sequence of known length, shared by reference count
/// among every holder. Cloning bumps the count; no bytes are copied.
pub struct Blob {
    backing: Arc<BlobBacking>,
}

impl Blob {
    /// The byte sequence this blob holds, fixed for its whole life.
    pub closed spec fn bytes(&self) -> Seq<u8> {
        backing_bytes(*self.backing)
    }

    /// Wraps a completed memory map as a blob.
    pub fn from_mmap(m: memmap2::Mmap) -> (b: Blob)
        ensures
            b.bytes() == mmap_bytes(m),
    {
        Blob { backing: Arc::new(BlobBacking::Mapped(m)) }
    }

    /// Wraps an in-memory buffer as a blob.
    pub fn from_vec(v: Vec<u8>) -> (b: Blob)
        ensures
            b.bytes() == v@,
    {
        Blob { backing: Arc::new(BlobBacking::Owned(v)) }
    }

    pub fn len(&self) -> (n: usize)
        ensures
            n == self.bytes().len(),
    {
        match &*self.backing {
            BlobBacking::Mapped(m) => mmap_len(m),
            BlobBacking::Owned(v) => v.len(),
        }
    }

    pub fn read_byte(&self, i: usize) -> (b: u8)
        requires
            i < self.bytes().len(),
        ensures
            b == self.bytes()[i as int],
    {
        match &*self.backing {
            BlobBacking::Mapped(m) => mmap_byte(m, i),
            BlobBacking::Owned(v) => v[i],
        }
    }

    /// The shared backing, for callers that stream the bytes out without
    /// copying them.
    pub fn backing(&self) -> (r: &Arc<BlobBacking>)
        ensures
            backing_bytes(**r) == self.bytes(),
    {
        &self.backing
    }
}

impl Clone for Blob {
    /// A clone shares the same storage and therefore holds the same bytes.
    fn clone(&self) -> (r: Self)
        ensures
            r.bytes() == self.bytes(),
    {
        Blob { backing: self.backing.clone() }
    }
}

/// A malformed byte range: start past end, or end past the blob's length.
#[derive(Clone, Copy, PartialEq, Eq, Structural, Debug)]
pub struct ValidationError;

/// A read-only window onto `[start, end)` of a shared blob. It holds a
/// reference to the blob's storage, never a copy, so it stays valid for as
/// long as the view itself is held, even after the directory drops the blob.
pub struct ByteRangeView {
    blob: Blob,
    start: usize,
    end: usize,
}

impl ByteRangeView {
    pub closed spec fn wf(&self) -> bool {
        self.start <= self.end <= self.blob.bytes().len()
    }

    /// The bytes visible through the window.
    pub closed spec fn bytes(&self) -> Seq<u8> {
        self.blob.bytes().subrange(self.start as int, self.end as int)
    }

    /// Restricts `blob` to `[start, end)`. Fails exactly when the interval is
    /// malformed: `start > end` or `end > blob.len()`. No bytes are copied;
    /// the view shares the blob's storage.
    pub fn make(blob: &Blob, start: usize, end: usize) -> (r: Result<ByteRangeView, ValidationError>)
        ensures
            r is Ok <==> start <= end <= blob.bytes().len(),
            r matches Ok(v) ==> v.wf() && v.bytes() == blob.bytes().subrange(
                start as int,
                end as int,
            ),
    {
        let len = blob.len();
        if start <= end && end <= len {
            Ok(ByteRangeView { blob: blob.clone(), start, end })
        } else {
            Err(ValidationError)
        }
    }

    pub fn len(&self) -> (n: usize)
        requires
            self.wf(),
        ensures
            n == self.bytes().len(),
    {
        self.end - self.start
    }

    pub fn read_byte(&self, i: usize) -> (b: u8)
        requires
            self.wf(),
            i < self.bytes().len(),
        ensures
            b == self.bytes()[i as int],
    {
        self.blob.read_byte(self.start + i)
    }

    /// Copies the window's bytes out. Meant for small reads and for checking
    /// content; streaming callers take `into_parts` instead and serve the
    /// shared storage directly.
    pub fn to_vec(&self) -> (v: Vec<u8>)
        requires
            self.wf(),
        ensures
            v@ == self.bytes(),
    {
        let n = self.len();
        let mut v: Vec<u8> = Vec::new();
        let mut i: usize = 0;
        while i < n
            invariant
                self.wf(),
                n == self.bytes().len(),
                i <= n,
                v@ == self.bytes().subrange(0, i as int),
            decreases n - i,
        {
            v.push(self.read_byte(i));
            i = i + 1;
            proof {
                assert(v@ =~= self.bytes().subrange(0, i as int));
            }
        }
        proof {
            assert(v@ =~= self.bytes());
        }
        v
    }

    /// Surrenders the view as its parts: the shared blob and the window's
    /// offsets into it.
    pub fn into_parts(self) -> (r: (Blob, usize, usize))
        requires
            self.wf(),
        ensures
            r.1 <= r.2 <= r.0.bytes().len(),
            r.0.bytes().subrange(r.1 as int, r.2 as int) == self.bytes(),
    {
        (self.blob, self.start, self.end)
    }
}

} // verus!
