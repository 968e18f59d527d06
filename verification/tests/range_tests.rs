use blobstore::blob::Blob;
use blobstore::body::ArcBody;
use blobstore::range::{negotiate, respond_fetch, FetchPlan, RangeBound, RangeOutcome};

fn drain(body: &mut ArcBody) -> Vec<u8> {
    let mut all = Vec::new();
    while let Some(chunk) = body.next_chunk(1 << 20) {
        all.extend_from_slice(&chunk.to_vec());
    }
    all
}

#[test]
fn empty_interval_is_not_satisfiable() {
    let o = negotiate(RangeBound::Included(0), RangeBound::Excluded(0), 11);
    assert_eq!(o, RangeOutcome::NotSatisfiable { total: 11 });
}

#[test]
fn interval_past_the_end_is_not_satisfiable() {
    let o = negotiate(RangeBound::Included(20), RangeBound::Excluded(30), 11);
    assert_eq!(o, RangeOutcome::NotSatisfiable { total: 11 });
}

#[test]
fn bound_kinds_resolve_as_documented() {
    assert_eq!(
        negotiate(RangeBound::Included(0), RangeBound::Included(4), 11),
        RangeOutcome::Partial { start: 0, end: 5, total: 11 }
    );
    assert_eq!(
        negotiate(RangeBound::Excluded(2), RangeBound::Unbounded, 11),
        RangeOutcome::Partial { start: 3, end: 11, total: 11 }
    );
    assert_eq!(
        negotiate(RangeBound::Unbounded, RangeBound::Excluded(5), 11),
        RangeOutcome::Partial { start: 0, end: 5, total: 11 }
    );
    assert_eq!(
        negotiate(RangeBound::Unbounded, RangeBound::Unbounded, 7),
        RangeOutcome::Partial { start: 0, end: 7, total: 7 }
    );
}

#[test]
fn extreme_bounds_do_not_overflow() {
    assert_eq!(
        negotiate(RangeBound::Excluded(u64::MAX), RangeBound::Unbounded, 3),
        RangeOutcome::NotSatisfiable { total: 3 }
    );
    assert_eq!(
        negotiate(RangeBound::Included(u64::MAX), RangeBound::Included(u64::MAX), 3),
        RangeOutcome::NotSatisfiable { total: 3 }
    );
    assert_eq!(
        negotiate(RangeBound::Unbounded, RangeBound::Included(u64::MAX), 3),
        RangeOutcome::NotSatisfiable { total: 3 }
    );
}

#[test]
fn fetch_without_entry_is_not_found() {
    match respond_fetch(None, None) {
        FetchPlan::NotFound => {},
        _ => panic!(),
    }
    match respond_fetch(None, Some((RangeBound::Included(0), RangeBound::Excluded(5)))) {
        FetchPlan::NotFound => {},
        _ => panic!(),
    }
}

#[test]
fn fetch_without_range_serves_everything() {
    let b = Blob::from_vec(b"hello world".to_vec());
    match respond_fetch(Some(b), None) {
        FetchPlan::Full(mut body) => {
            assert_eq!(body.remaining_length(), 11);
            assert_eq!(drain(&mut body), b"hello world".to_vec());
        },
        _ => panic!(),
    }
}

#[test]
fn fetch_with_range_serves_the_window() {
    let b = Blob::from_vec(b"hello world".to_vec());
    match respond_fetch(Some(b), Some((RangeBound::Included(0), RangeBound::Excluded(5)))) {
        FetchPlan::Partial { mut body, start, end, total } => {
            assert_eq!((start, end, total), (0, 5, 11));
            assert_eq!(drain(&mut body), b"hello".to_vec());
        },
        _ => panic!(),
    }
}

#[test]
fn fetch_with_bad_range_reports_total_length() {
    let b = Blob::from_vec(b"hello world".to_vec());
    match respond_fetch(Some(b), Some((RangeBound::Included(20), RangeBound::Excluded(30)))) {
        FetchPlan::NotSatisfiable { total } => assert_eq!(total, 11),
        _ => panic!(),
    }
}
