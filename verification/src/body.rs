//! The transfer chunker: turns a blob, or a sub-range of one, into a bounded
//! sequence of byte-range views, each no longer than a transfer-unit ceiling.

use vstd::pervasive::unreached;
use vstd::prelude::*;

use crate::blob::{Blob, ByteRangeView};

verus! {

/// The largest number of bytes one outbound transfer unit may carry. Some
/// platforms reject a single write above this size, so every chunk the body
/// produces for the wire is capped here.
pub const CHUNK_CEILING: usize = 0x7fff_ffff;

/// The length of the next chunk: all that remains, up to the ceiling.
pub open spec fn chunk_len(remaining: nat, max_unit: nat) -> nat {
    if remaining <= max_unit {
        remaining
    } else {
        max_unit
    }
}

/// An outbound byte stream over a shared blob: a cursor that hands out
/// non-copying views of at most `max_unit` bytes each until the window
/// `[start, end)` is exhausted, then signals end-of-stream for good. Once
/// exhausted it drops its blob reference, releasing the storage to the
/// reference count.
pub struct ArcBody {
    data: Option<Blob>,
    start: usize,
    end: usize,
}

impl ArcBody {
    pub closed spec fn wf(&self) -> bool {
        match self.data {
            Some(b) => self.start <= self.end <= b.bytes().len(),
            None => self.start == self.end,
        }
    }

    /// The bytes not yet handed out.
    pub closed spec fn remaining(&self) -> Seq<u8> {
        match self.data {
            Some(b) => b.bytes().subrange(self.start as int, self.end as int),
            None => Seq::empty(),
        }
    }

    /// A body over bytes held in memory.
    pub fn new(bytes: Vec<u8>) -> (r: ArcBody)
        ensures
            r.wf(),
            r.remaining() == bytes@,
    {
        let b = Blob::from_vec(bytes);
        Self::from_arc(b)
    }

    /// A body over the whole of a shared blob.
    pub fn from_arc(blob: Blob) -> (r: ArcBody)
        ensures
            r.wf(),
            r.remaining() == blob.bytes(),
    {
        let end = blob.len();
        let r = ArcBody { data: Some(blob), start: 0, end };
        proof {
            assert(r.remaining() =~= r.data.unwrap().bytes());
        }
        r
    }

    /// A body over `[start, end)` of a shared blob. Fails exactly when the
    /// interval is out of bounds, handing the blob back unchanged.
    pub fn from_arc_with_range(blob: Blob, start: usize, end: usize) -> (r: Result<ArcBody, Blob>)
        ensures
            r is Ok <==> start <= end <= blob.bytes().len(),
            r matches Ok(b) ==> b.wf() && b.remaining() == blob.bytes().subrange(
                start as int,
                end as int,
            ),
            r matches Err(b) ==> b == blob,
    {
        let len = blob.len();
        if start <= end && end <= len {
            Ok(ArcBody { data: Some(blob), start, end })
        } else {
            Err(blob)
        }
    }

    /// A body over the bytes a view exposes, sharing the same storage.
    pub fn from_view(view: ByteRangeView) -> (r: ArcBody)
        requires
            view.wf(),
        ensures
            r.wf(),
            r.remaining() == view.bytes(),
    {
        let (blob, start, end) = view.into_parts();
        ArcBody { data: Some(blob), start, end }
    }

    /// A body with nothing to send.
    pub fn empty() -> (r: ArcBody)
        ensures
            r.wf(),
            r.remaining() == Seq::<u8>::empty(),
    {
        ArcBody { data: None, start: 0, end: 0 }
    }

    /// The exact number of bytes left, not an estimate: callers that
    /// advertise a total transfer length must take it from here.
    pub fn remaining_length(&self) -> (n: usize)
        requires
            self.wf(),
        ensures
            n == self.remaining().len(),
    {
        self.end - self.start
    }

    /// The end-of-stream predicate: the cursor has reached the end offset.
    pub fn is_end_stream(&self) -> (r: bool)
        requires
            self.wf(),
        ensures
            r == (self.remaining().len() == 0),
    {
        self.start == self.end
    }

    /// The next transfer unit: a view of the first `min(remaining, max_unit)`
    /// unsent bytes, which advances the cursor past them. Returns `None` once
    /// everything has been handed out, and keeps returning `None` — calling
    /// again after the end is harmless.
    pub fn next_chunk(&mut self, max_unit: usize) -> (r: Option<ByteRangeView>)
        requires
            old(self).wf(),
            max_unit >= 1,
        ensures
            final(self).wf(),
            r is Some <==> old(self).remaining().len() > 0,
            r matches Some(v) ==> {
                &&& v.wf()
                &&& v.bytes().len() == chunk_len(old(self).remaining().len(), max_unit as nat)
                &&& v.bytes() == old(self).remaining().take(v.bytes().len() as int)
                &&& final(self).remaining() == old(self).remaining().skip(v.bytes().len() as int)
                &&& v.bytes() + final(self).remaining() == old(self).remaining()
            },
            r is None ==> final(self).remaining() == old(self).remaining(),
    {
        if self.start == self.end {
            return None;
        }
        let left = self.end - self.start;
        let k = if left <= max_unit {
            left
        } else {
            max_unit
        };
        let blob = match &self.data {
            Some(b) => b.clone(),
            None => unreached(),
        };
        let v = match ByteRangeView::make(&blob, self.start, self.start + k) {
            Ok(v) => v,
            Err(_) => unreached(),
        };
        self.start = self.start + k;
        if self.start == self.end {
            self.data = None;
            self.start = 0;
            self.end = 0;
        }
        proof {
            assert(v.bytes() =~= old(self).remaining().take(v.bytes().len() as int));
            assert(self.remaining() =~= old(self).remaining().skip(v.bytes().len() as int));
            assert(v.bytes() + self.remaining() =~= old(self).remaining());
        }
        Some(v)
    }
}

} // verus!
