use blobstore::blob::{Blob, ByteRangeView};

fn view_of(b: &Blob, start: usize, end: usize) -> ByteRangeView {
    ByteRangeView::make(b, start, end).unwrap()
}

#[test]
fn blob_from_vec_holds_bytes() {
    let b = Blob::from_vec(b"hello world".to_vec());
    assert_eq!(b.len(), 11);
    assert_eq!(b.read_byte(0), b'h');
    assert_eq!(b.read_byte(10), b'd');
}

#[test]
fn blob_clone_shares_bytes() {
    let b = Blob::from_vec(b"abc".to_vec());
    let c = b.clone();
    assert_eq!(c.len(), 3);
    assert_eq!(view_of(&c, 0, 3).to_vec(), b"abc".to_vec());
}

#[test]
fn view_rejects_malformed_ranges() {
    let b = Blob::from_vec(b"hello world".to_vec());
    assert!(ByteRangeView::make(&b, 3, 2).is_err());
    assert!(ByteRangeView::make(&b, 0, 12).is_err());
    assert!(ByteRangeView::make(&b, 12, 12).is_err());
    assert!(ByteRangeView::make(&b, 0, 11).is_ok());
    assert!(ByteRangeView::make(&b, 4, 4).is_ok());
}

#[test]
fn view_bytes_equal_slice_of_content() {
    let content = b"hello world".to_vec();
    let b = Blob::from_vec(content.clone());
    for s in 0..=content.len() {
        for e in s..=content.len() {
            let v = view_of(&b, s, e);
            assert_eq!(v.len(), e - s);
            assert_eq!(v.to_vec(), content[s..e].to_vec());
        }
    }
}

#[test]
fn view_read_byte_indexes_window() {
    let b = Blob::from_vec(b"hello world".to_vec());
    let v = view_of(&b, 6, 11);
    assert_eq!(v.len(), 5);
    assert_eq!(v.read_byte(0), b'w');
    assert_eq!(v.read_byte(4), b'd');
}

#[test]
fn views_outlive_other_views() {
    let b = Blob::from_vec(b"hello world".to_vec());
    let v1 = view_of(&b, 0, 5);
    let v2 = view_of(&b, 6, 11);
    drop(b);
    assert_eq!(v1.to_vec(), b"hello".to_vec());
    assert_eq!(v2.to_vec(), b"world".to_vec());
}
