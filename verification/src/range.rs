//! Byte-range negotiation: maps a client-supplied interval onto an absolute
//! `[start, end)` window against a blob's known length, applying the
//! satisfiability policy, and plans the outcome of a fetch.

use vstd::pervasive::unreached;
use vstd::prelude::*;

use crate::blob::{Blob, ByteRangeView};
use crate::body::ArcBody;

verus! {

/// One endpoint of a client-supplied byte interval.
#[derive(Clone, Copy, PartialEq, Eq, Structural, Debug)]
pub enum RangeBound {
    Included(u64),
    Excluded(u64),
    Unbounded,
}

/// The absolute start offset a bound resolves to.
pub open spec fn resolved_start(b: RangeBound) -> int {
    match b {
        RangeBound::Included(n) => n as int,
        RangeBound::Excluded(n) => n as int + 1,
        RangeBound::Unbounded => 0,
    }
}

/// The absolute end offset (exclusive) a bound resolves to, against length
/// `len`.
pub open spec fn resolved_end(b: RangeBound, len: int) -> int {
    match b {
        RangeBound::Included(n) => n as int + 1,
        RangeBound::Excluded(n) => n as int,
        RangeBound::Unbounded => len,
    }
}

/// A requested interval is satisfiable when it resolves to a non-empty
/// window that lies within `[0, len]`.
pub open spec fn range_satisfiable(start: RangeBound, end: RangeBound, len: int) -> bool {
    &&& resolved_start(start) < resolved_end(end, len)
    &&& resolved_end(end, len) <= len
}

/// What a range request resolves to against a blob of known length.
#[derive(Clone, Copy, PartialEq, Eq, Structural, Debug)]
pub enum RangeOutcome {
    /// Serve exactly `[start, end)` of a blob `total` bytes long.
    Partial { start: usize, end: usize, total: usize },
    /// The interval is empty or reaches past the end; the client learns the
    /// exact total length so it can retry correctly.
    NotSatisfiable { total: usize },
}

/// Resolves a client-supplied interval against a blob of length `len`:
/// the satisfiable window `[start, end)`, or not-satisfiable with the exact
/// total length.
pub fn negotiate(start: RangeBound, end: RangeBound, len: usize) -> (r: RangeOutcome)
    ensures
        range_satisfiable(start, end, len as int) ==> r == (RangeOutcome::Partial {
            start: resolved_start(start) as usize,
            end: resolved_end(end, len as int) as usize,
            total: len,
        }),
        !range_satisfiable(start, end, len as int) ==> r == (RangeOutcome::NotSatisfiable {
            total: len,
        }),
{
    let l: u64 = len as u64;
    let s: u64 = match start {
        RangeBound::Included(n) => n,
        RangeBound::Excluded(n) => {
            if n == u64::MAX {
                return RangeOutcome::NotSatisfiable { total: len };
            }
            n + 1
        },
        RangeBound::Unbounded => 0,
    };
    let e: u64 = match end {
        RangeBound::Included(n) => {
            if n >= l {
                return RangeOutcome::NotSatisfiable { total: len };
            }
            n + 1
        },
        RangeBound::Excluded(n) => {
            if n > l {
                return RangeOutcome::NotSatisfiable { total: len };
            }
            n
        },
        RangeBound::Unbounded => l,
    };
    if s >= e {
        return RangeOutcome::NotSatisfiable { total: len };
    }
    RangeOutcome::Partial { start: s as usize, end: e as usize, total: len }
}

/// The plan for answering a fetch: what to send and what to report.
pub enum FetchPlan {
    /// No blob at the requested path.
    NotFound,
    /// The whole blob; the response may advertise that ranges are supported.
    Full(ArcBody),
    /// The window `[start, end)` of a blob `total` bytes long.
    Partial { body: ArcBody, start: usize, end: usize, total: usize },
    /// The requested interval was not satisfiable against `total` bytes.
    NotSatisfiable { total: usize },
}

/// Plans a fetch from the directory's answer and the request's first range
/// specification, if any: not-found without a blob; the full blob without a
/// range; otherwise the negotiated window over the blob's shared storage, or
/// not-satisfiable with the blob's exact total length. A validation failure
/// never falls back to serving the full blob.
pub fn respond_fetch(blob: Option<Blob>, range: Option<(RangeBound, RangeBound)>) -> (r: FetchPlan)
    ensures
        blob is None ==> r is NotFound,
        blob matches Some(b) ==> range is None ==> {
            &&& r matches FetchPlan::Full(body)
            &&& body.wf()
            &&& body.remaining() == b.bytes()
        },
        blob matches Some(b) ==> range matches Some((rs, re)) ==> range_satisfiable(
            rs,
            re,
            b.bytes().len() as int,
        ) ==> {
            &&& r matches FetchPlan::Partial { body, start, end, total }
            &&& body.wf()
            &&& start == resolved_start(rs)
            &&& end == resolved_end(re, b.bytes().len() as int)
            &&& total == b.bytes().len()
            &&& body.remaining() == b.bytes().subrange(start as int, end as int)
        },
        blob matches Some(b) ==> range matches Some((rs, re)) ==> !range_satisfiable(
            rs,
            re,
            b.bytes().len() as int,
        ) ==> r == (FetchPlan::NotSatisfiable { total: b.bytes().len() as usize }),
{
    match blob {
        None => FetchPlan::NotFound,
        Some(b) => match range {
            None => FetchPlan::Full(ArcBody::from_arc(b)),
            Some((rs, re)) => {
                let len = b.len();
                match negotiate(rs, re, len) {
                    RangeOutcome::Partial { start, end, total } => {
                        match ByteRangeView::make(&b, start, end) {
                            Ok(v) => FetchPlan::Partial {
                                body: ArcBody::from_view(v),
                                start,
                                end,
                                total,
                            },
                            Err(_) => unreached(),
                        }
                    },
                    RangeOutcome::NotSatisfiable { total } => FetchPlan::NotSatisfiable { total },
                }
            },
        },
    }
}

} // verus!
