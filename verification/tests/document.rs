use rust_poc::document::{storage_check, strip_bom, StorageDiagnostic};

#[test]
fn strip_bom_removes_leading_mark() {
    let data = vec![0xef, 0xbb, 0xbf, b'{', b'}'];
    assert_eq!(strip_bom(data), b"{}".to_vec());
}

#[test]
fn strip_bom_leaves_plain_bytes_alone() {
    assert_eq!(strip_bom(b"{}".to_vec()), b"{}".to_vec());
    assert_eq!(strip_bom(Vec::new()), Vec::<u8>::new());
    assert_eq!(strip_bom(vec![0xef, 0xbb]), vec![0xef, 0xbb]);
    let mark_later = vec![b' ', 0xef, 0xbb, 0xbf];
    assert_eq!(strip_bom(mark_later.clone()), mark_later);
}

#[test]
fn strip_bom_removes_only_one_mark() {
    let data = vec![0xef, 0xbb, 0xbf, 0xef, 0xbb, 0xbf];
    assert_eq!(strip_bom(data), vec![0xef, 0xbb, 0xbf]);
}

#[test]
fn storage_check_accepts_json() {
    let r = storage_check(Some(b"{\"spaces\": [1, 2, 3]}".to_vec()));
    assert!(matches!(r, StorageDiagnostic::Connected(_)));
}

#[test]
fn storage_check_strips_mark_before_parsing() {
    let mut data = vec![0xef, 0xbb, 0xbf];
    data.extend_from_slice(b"{\"ok\": true}");
    let r = storage_check(Some(data));
    assert!(matches!(r, StorageDiagnostic::Connected(_)));
}

#[test]
fn storage_check_reports_malformed_json() {
    let r = storage_check(Some(b"{\"unclosed\": ".to_vec()));
    assert!(matches!(r, StorageDiagnostic::MalformedJson));
    let mark_only = storage_check(Some(vec![0xef, 0xbb, 0xbf]));
    assert!(matches!(mark_only, StorageDiagnostic::MalformedJson));
}

#[test]
fn storage_check_reports_read_failure() {
    assert!(matches!(storage_check(None), StorageDiagnostic::ReadFailed));
}
