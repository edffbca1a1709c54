use deb_installer::utils::deb_files::{
    cache_relative_path, categorize, classify_file, is_image_magic, is_known_binary_ext,
    is_skipped_unread, lowercase_extension, plan_read_entry, unread_entry, DebFileKind, MAX_IMAGE_BYTES,
    MAX_TEXT_BYTES,
};

#[test]
fn extension_is_lowercased() {
    assert_eq!(lowercase_extension("./usr/share/A.PNG"), "png");
    assert_eq!(lowercase_extension("./usr/bin/tool"), "");
    assert_eq!(lowercase_extension("archive.tar.GZ"), "gz");
    assert_eq!(lowercase_extension(".bashrc"), "");
}

#[test]
fn known_binary_extensions() {
    assert!(is_known_binary_ext("./usr/lib/libfoo.SO"));
    assert!(is_known_binary_ext("data.tar.xz"));
    assert!(is_known_binary_ext("font.woff2"));
    assert!(!is_known_binary_ext("./usr/share/doc/README"));
    assert!(!is_known_binary_ext("notes.txt"));
}

#[test]
fn image_signatures() {
    assert!(is_image_magic(b"\x89PNG\r\n"));
    assert!(is_image_magic(b"\xFF\xD8\xFF\xE0"));
    assert!(is_image_magic(b"GIF89a.."));
    assert!(is_image_magic(b"GIF87a.."));
    assert!(is_image_magic(b"BM\x00\x00"));
    assert!(is_image_magic(b"RIFF\x00\x00\x00\x00WEBPVP8 "));
    assert!(!is_image_magic(b"RIFF\x00\x00\x00\x00WAVE"));
    assert!(!is_image_magic(b"BM"));
    assert!(!is_image_magic(b"hello"));
}

#[test]
fn categorize_by_extension_and_content() {
    assert!(matches!(categorize("./a/icon.PNG", b"x", MAX_TEXT_BYTES, MAX_IMAGE_BYTES), DebFileKind::Image));
    assert!(matches!(categorize("./a/pic", b"\x89PNGdata", MAX_TEXT_BYTES, MAX_IMAGE_BYTES), DebFileKind::Image));
    assert!(matches!(categorize("./a/readme", b"hello\n", MAX_TEXT_BYTES, MAX_IMAGE_BYTES), DebFileKind::Text));
    assert!(matches!(categorize("./a/blob", b"ab\x00cd", MAX_TEXT_BYTES, MAX_IMAGE_BYTES), DebFileKind::Unsupported));
    assert!(matches!(categorize("./a/latin1", b"caf\xe9", MAX_TEXT_BYTES, MAX_IMAGE_BYTES), DebFileKind::Unsupported));
    assert!(matches!(categorize("./a/empty", b"", MAX_TEXT_BYTES, MAX_IMAGE_BYTES), DebFileKind::Text));
}

#[test]
fn size_limits_apply() {
    assert!(matches!(categorize("big.png", b"12345", 10, 4), DebFileKind::Unsupported));
    assert!(matches!(categorize("ok.png", b"1234", 10, 4), DebFileKind::Image));
    assert!(matches!(categorize("big.txt", b"12345678901", 10, 100), DebFileKind::Unsupported));
    assert!(matches!(categorize("ok.txt", b"1234567890", 10, 100), DebFileKind::Text));
}

#[test]
fn nul_after_sniff_window_is_not_seen() {
    let mut data = vec![b'a'; 8192];
    data.push(0);
    assert!(matches!(classify_file("", &data, MAX_TEXT_BYTES, MAX_IMAGE_BYTES), DebFileKind::Text));
    data[8191] = 0;
    assert!(matches!(classify_file("", &data, MAX_TEXT_BYTES, MAX_IMAGE_BYTES), DebFileKind::Unsupported));
}

#[test]
fn unread_entries() {
    assert!(is_skipped_unread("./usr/lib/x.so", 10));
    assert!(is_skipped_unread("./usr/share/big.txt", (MAX_IMAGE_BYTES as u64) + 1));
    assert!(!is_skipped_unread("./usr/share/ok.txt", MAX_IMAGE_BYTES as u64));
    let e = unread_entry("./usr/lib/x.so".to_string());
    assert_eq!(e.path, "./usr/lib/x.so");
    assert!(matches!(e.kind, DebFileKind::Unsupported));
    assert_eq!(e.cache_path, None);
}

#[test]
fn cache_paths_drop_leading_dot_slash() {
    assert_eq!(cache_relative_path("././usr/bin/x", DebFileKind::Text), Some("usr/bin/x".to_string()));
    assert_eq!(cache_relative_path("usr/a.png", DebFileKind::Image), Some("usr/a.png".to_string()));
    assert_eq!(cache_relative_path("./usr/x", DebFileKind::Unsupported), None);
}

#[test]
fn read_entries_are_planned() {
    let (kind, rel) = plan_read_entry("./usr/share/doc/README", b"hello\n");
    assert_eq!(kind, DebFileKind::Text);
    assert_eq!(rel, Some("usr/share/doc/README".to_string()));
    let (kind, rel) = plan_read_entry("./usr/share/icons/a.PNG", b"\x89PNG\r\n\x1a\n");
    assert_eq!(kind, DebFileKind::Image);
    assert_eq!(rel, Some("usr/share/icons/a.PNG".to_string()));
    let (kind, rel) = plan_read_entry("./usr/bin/tool", b"\x7fELF\0\0\0");
    assert_eq!(kind, DebFileKind::Unsupported);
    assert_eq!(rel, None);
}

#[test]
fn uppercase_binary_extension_is_known() {
    assert!(is_known_binary_ext("x.TTF"));
    assert!(!is_known_binary_ext("x.TXT"));
}
