//! The ingestion pipeline: spools an inbound byte stream, chunk by chunk and
//! strictly in arrival order, to backing storage this process owns
//! exclusively, then finalizes it into an immutable shared blob. An aborted
//! ingestion commits nothing; the spool is reclaimed when its handle drops.

use vstd::prelude::*;

use crate::blob::Blob;

verus! {

/// Declares `tempfile::SpooledTempFile`, the backing storage an upload is
/// spooled to: in memory while small, an anonymous unlinked file once large.
#[verifier::external_type_specification]
#[verifier::external_body]
pub struct ExSpooledTempFile(tempfile::SpooledTempFile);

/// Declares `std::io::Error`, the error the spool's operations report.
#[verifier::external_type_specification]
#[verifier::external_body]
pub struct ExIoError(std::io::Error);

/// How many spooled bytes may stay resident before the spool rolls over to
/// an anonymous, unlinked file on disk, keeping the in-flight working set
/// bounded however large the upload grows.
pub const SPOOL_MEMORY_CEILING: usize = 8 * 1024 * 1024;

/// The bytes a spool holds, from start to end. Spools are created empty by
/// this module, written only through it, and never truncated or rewound
/// while writing, so their contents are exactly what was appended.
pub uninterp spec fn spool_bytes(f: tempfile::SpooledTempFile) -> Seq<u8>;

/// Relies on `tempfile::SpooledTempFile::new`: a fresh, empty spool that
/// stays in memory up to `memory_ceiling` bytes, owned by this process
/// alone and reclaimed once the handle drops.
#[verifier::external_body]
fn spool_create(memory_ceiling: usize) -> (r: tempfile::SpooledTempFile)
    ensures
        spool_bytes(r) == Seq::<u8>::empty(),
{
    tempfile::SpooledTempFile::new(memory_ceiling)
}

/// Relies on `tempfile::SpooledTempFile`'s `Write` impl, through
/// `write_all`: on success the whole chunk stands after what the cursor had
/// passed — the end of the spool, where this module keeps it — so the
/// contents grow by exactly the chunk. On failure the spool is good only
/// for abandoning.
#[verifier::external_body]
fn spool_write(f: &mut tempfile::SpooledTempFile, chunk: &[u8]) -> (r: Result<
    (),
    std::io::Error,
>)
    ensures
        r is Ok ==> spool_bytes(*final(f)) == spool_bytes(*old(f)) + chunk@,
{
    std::io::Write::write_all(f, chunk)
}

/// Relies on `tempfile::SpooledTempFile`'s `Seek` and `Read` impls: rewound
/// to offset zero and read to the end, the spool hands back exactly its
/// contents.
#[verifier::external_body]
fn spool_read_all(f: &mut tempfile::SpooledTempFile) -> (r: Result<Vec<u8>, std::io::Error>)
    ensures
        r matches Ok(v) ==> v@ == spool_bytes(*old(f)),
{
    std::io::Seek::rewind(f)?;
    let mut buf = Vec::new();
    std::io::Read::read_to_end(f, &mut buf)?;
    Ok(buf)
}

/// A backing-storage failure: the spool could not be appended to or read
/// back. The ingestion it interrupts commits nothing.
#[derive(Debug)]
pub struct IoError {
    pub source: std::io::Error,
}

/// One in-flight upload: the spool and what has reached it so far.
pub struct BlobIngest {
    spool: tempfile::SpooledTempFile,
}

impl BlobIngest {
    /// The bytes received so far, in arrival order.
    pub closed spec fn spooled(&self) -> Seq<u8> {
        spool_bytes(self.spool)
    }

    /// Acquires fresh, empty, exclusively owned backing storage.
    pub fn begin() -> (r: BlobIngest)
        ensures
            r.spooled() == Seq::<u8>::empty(),
    {
        BlobIngest { spool: spool_create(SPOOL_MEMORY_CEILING) }
    }

    /// Writes one inbound chunk after everything already spooled. On failure
    /// the upload must be abandoned: nothing says what the spool holds then,
    /// and dropping it reclaims the storage.
    pub fn append(&mut self, chunk: &[u8]) -> (r: Result<(), IoError>)
        ensures
            r is Ok ==> final(self).spooled() == old(self).spooled() + chunk@,
    {
        match spool_write(&mut self.spool, chunk) {
            Ok(_) => Ok(()),
            Err(e) => Err(IoError { source: e }),
        }
    }

    /// Finalizes the upload into an immutable in-memory blob holding exactly
    /// the spooled bytes: the fully materialized buffer for callers without
    /// a mapping facility.
    pub fn finish(self) -> (r: Result<Blob, IoError>)
        ensures
            r matches Ok(b) ==> b.bytes() == self.spooled(),
    {
        let mut spool = self.spool;
        match spool_read_all(&mut spool) {
            Ok(v) => Ok(Blob::from_vec(v)),
            Err(e) => Err(IoError { source: e }),
        }
    }

    /// Closes the upload and surrenders the spool, together with all it
    /// holds, for a caller that maps completed files into memory itself.
    pub fn into_spool(self) -> (f: tempfile::SpooledTempFile)
        ensures
            spool_bytes(f) == self.spooled(),
    {
        self.spool
    }
}

} // verus!
