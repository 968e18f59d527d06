//! The whole pipeline end to end: upload, fetch whole and by range, replace,
//! and remove, driven the way the request router drives the core.

use blobstore::blob::ByteRangeView;
use blobstore::body::ArcBody;
use blobstore::ingest::BlobIngest;
use blobstore::range::{respond_fetch, FetchPlan, RangeBound};
use blobstore::store::BlobStore;

fn upload(store: &mut BlobStore, path: &[u8], chunks: &[&[u8]]) {
    let mut ingest = BlobIngest::begin();
    for chunk in chunks {
        ingest.append(chunk).unwrap();
    }
    let blob = ingest.finish().unwrap();
    store.insert(path.to_vec(), blob);
}

fn drain(body: &mut ArcBody) -> Vec<u8> {
    let mut all = Vec::new();
    while let Some(chunk) = body.next_chunk(4) {
        all.extend_from_slice(&chunk.to_vec());
    }
    all
}

#[test]
fn upload_fetch_replace_remove() {
    let mut store = BlobStore::new();

    upload(&mut store, b"/a", &[b"hello", b" ", b"world"]);
    match respond_fetch(store.get(&b"/a".to_vec()), None) {
        FetchPlan::Full(mut body) => {
            assert_eq!(body.remaining_length(), 11);
            assert_eq!(drain(&mut body), b"hello world".to_vec());
        },
        _ => panic!(),
    }

    match respond_fetch(
        store.get(&b"/a".to_vec()),
        Some((RangeBound::Included(0), RangeBound::Excluded(5))),
    ) {
        FetchPlan::Partial { mut body, start, end, total } => {
            assert_eq!((start, end, total), (0, 5, 11));
            assert_eq!(drain(&mut body), b"hello".to_vec());
        },
        _ => panic!(),
    }

    let old_reader = store.get(&b"/a".to_vec()).unwrap();
    upload(&mut store, b"/a", &[b"bye"]);
    match respond_fetch(store.get(&b"/a".to_vec()), None) {
        FetchPlan::Full(mut body) => {
            assert_eq!(body.remaining_length(), 3);
            assert_eq!(drain(&mut body), b"bye".to_vec());
        },
        _ => panic!(),
    }
    match respond_fetch(Some(old_reader), None) {
        FetchPlan::Full(mut body) => {
            assert_eq!(drain(&mut body), b"hello world".to_vec());
        },
        _ => panic!(),
    }

    let removed = store.remove(&b"/a".to_vec()).unwrap();
    assert_eq!(removed.len(), 3);
    match respond_fetch(store.get(&b"/a".to_vec()), None) {
        FetchPlan::NotFound => {},
        _ => panic!(),
    }
}

#[test]
fn concurrent_style_uploads_stay_separate() {
    let mut store = BlobStore::new();
    let contents: Vec<Vec<u8>> = (0..8)
        .map(|i| (0..50 + i).map(|j| ((i * 31 + j) % 251) as u8).collect())
        .collect();
    for (i, content) in contents.iter().enumerate() {
        let path = format!("/upload{}", i).into_bytes();
        let mut ingest = BlobIngest::begin();
        for chunk in content.chunks(7) {
            ingest.append(chunk).unwrap();
        }
        store.insert(path, ingest.finish().unwrap());
    }
    for (i, content) in contents.iter().enumerate() {
        let path = format!("/upload{}", i).into_bytes();
        let blob = store.get(&path).unwrap();
        assert_eq!(blob.len(), content.len());
        let got = ByteRangeView::make(&blob, 0, blob.len()).unwrap().to_vec();
        assert_eq!(&got, content);
    }
}

#[test]
fn range_fetch_after_replace_sees_new_length() {
    let mut store = BlobStore::new();
    upload(&mut store, b"/a", &[b"hello world"]);
    upload(&mut store, b"/a", &[b"bye"]);
    match respond_fetch(
        store.get(&b"/a".to_vec()),
        Some((RangeBound::Included(0), RangeBound::Excluded(5))),
    ) {
        FetchPlan::NotSatisfiable { total } => assert_eq!(total, 3),
        _ => panic!(),
    }
}
