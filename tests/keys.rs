use automerge_persistent::{be_bytes, make_change_key, make_document_key};

#[test]
fn be_bytes_of_known_values() {
    assert_eq!(be_bytes(0), vec![0, 0, 0, 0, 0, 0, 0, 0]);
    assert_eq!(be_bytes(1), vec![0, 0, 0, 0, 0, 0, 0, 1]);
    assert_eq!(be_bytes(0x0102030405060708), vec![1, 2, 3, 4, 5, 6, 7, 8]);
    assert_eq!(be_bytes(u64::MAX), vec![255; 8]);
}

#[test]
fn change_key_layout() {
    let key = make_change_key(b"1", &[0xaa, 0xbb], 258);
    assert_eq!(key, vec![b'1', 0xaa, 0xbb, 0, 0, 0, 0, 0, 0, 1, 2]);
}

#[test]
fn change_key_without_prefix() {
    let key = make_change_key(b"", &[7], 1);
    assert_eq!(key, vec![7, 0, 0, 0, 0, 0, 0, 0, 1]);
}

#[test]
fn document_key_layout() {
    assert_eq!(make_document_key(b"p"), b"pdocument".to_vec());
    assert_eq!(make_document_key(b""), b"document".to_vec());
}

#[test]
fn change_keys_sort_by_seq() {
    let actor = [1u8, 2, 3];
    let seqs = [0u64, 1, 2, 255, 256, 65535, 65536, 1 << 40, u64::MAX];
    for w in seqs.windows(2) {
        let a = make_change_key(b"ns", &actor, w[0]);
        let b = make_change_key(b"ns", &actor, w[1]);
        assert!(a < b, "{} should sort before {}", w[0], w[1]);
    }
}

#[test]
fn distinct_changes_get_distinct_keys() {
    let a = make_change_key(b"1", &[1, 2], 3);
    assert_ne!(a, make_change_key(b"1", &[1, 2], 4));
    assert_ne!(a, make_change_key(b"1", &[1, 3], 3));
    assert_ne!(a, make_change_key(b"1", &[1], 3));
    assert_ne!(a, make_change_key(b"2", &[1, 2], 3));
}

#[test]
fn document_key_differs_from_change_keys() {
    let doc = make_document_key(b"1");
    assert_ne!(doc, make_change_key(b"1", &[1], 0));
}
