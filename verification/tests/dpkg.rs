use deb_installer::utils::dpkg::{
    dpkg_ordering, installed_version_from, split_output_lines, LineSplitter,
};
use std::cmp::Ordering;

#[test]
fn splitter_emits_lines_as_they_end() {
    let mut sp = LineSplitter::new();
    let mut out: Vec<Vec<u8>> = Vec::new();
    for b in b"Progress: 10%\rProgress: 20%\r\nDone\n\ntail" {
        if let Some(l) = sp.feed(*b) {
            out.push(l);
        }
    }
    assert_eq!(out, vec![b"Progress: 10%".to_vec(), b"Progress: 20%".to_vec(), b"Done".to_vec()]);
    assert_eq!(sp.finish(), Some(b"tail".to_vec()));
}

#[test]
fn empty_lines_are_not_emitted() {
    assert!(split_output_lines(b"\n\r\r\n").is_empty());
    assert_eq!(split_output_lines(b"\nx\r"), vec![b"x".to_vec()]);
    assert!(LineSplitter::new().finish().is_none());
}

#[test]
fn installed_version_is_trimmed_output() {
    assert_eq!(installed_version_from(true, b"  2.10-3\n"), Some("2.10-3".to_string()));
    assert_eq!(installed_version_from(true, b" \n"), None);
    assert_eq!(installed_version_from(false, b"2.0"), None);
}

#[test]
fn lossy_decoding_replaces_bad_bytes() {
    assert_eq!(installed_version_from(true, b"ok"), Some("ok".to_string()));
    assert_eq!(installed_version_from(true, b"a\xffb"), Some("a\u{fffd}b".to_string()));
}

#[test]
fn ordering_from_dpkg_answers() {
    assert_eq!(dpkg_ordering(true, false), Ordering::Equal);
    assert_eq!(dpkg_ordering(true, true), Ordering::Equal);
    assert_eq!(dpkg_ordering(false, true), Ordering::Less);
    assert_eq!(dpkg_ordering(false, false), Ordering::Greater);
}
