use deb_installer::utils::deb_reader::{
    control_fields_of, deb_info_from_fields, deb_info_from_output, parse_control_fields,
};

const SAMPLE: &str = " new Debian package, version 2.0.\n size 1234 bytes: control archive=567 bytes.\n     512 bytes,    12 lines      control\n Package: hello\n Version: 2.10-3\n Architecture: amd64\n Maintainer: Santiago Vila <sanvila@debian.org>\n Installed-Size: 280\n Depends: libc6 (>= 2.34), , foo\n Section: devel\n Description: example package\n  The GNU hello program\n  .\n  more text\n";

#[test]
fn parses_dpkg_deb_info_output() {
    let info = parse_control_fields(SAMPLE).unwrap();
    assert_eq!(info.name, "hello");
    assert_eq!(info.version, "2.10-3");
    assert_eq!(info.architecture, "amd64");
    assert_eq!(info.maintainer, "Santiago Vila <sanvila@debian.org>");
    assert_eq!(info.installed_size_kb, 280);
    assert_eq!(info.depends, vec!["libc6 (>= 2.34)".to_string(), "foo".to_string()]);
    assert_eq!(info.section, Some("devel".to_string()));
    assert_eq!(info.description, "example package\nThe GNU hello program\nmore text");
}

#[test]
fn missing_fields_get_defaults() {
    let info = parse_control_fields("").unwrap();
    assert_eq!(info.name, "unknown");
    assert_eq!(info.version, "unknown");
    assert_eq!(info.architecture, "unknown");
    assert_eq!(info.description, "");
    assert_eq!(info.maintainer, "");
    assert_eq!(info.installed_size_kb, 0);
    assert!(info.depends.is_empty());
    assert_eq!(info.section, None);
}

#[test]
fn keys_are_case_insensitive_and_last_value_wins() {
    let info = parse_control_fields(" PACKAGE: first\n package: second\n Version:1\n").unwrap();
    assert_eq!(info.name, "second");
    assert_eq!(info.version, "1");
}

#[test]
fn installed_size_must_be_a_number() {
    assert_eq!(parse_control_fields(" Installed-Size: 12a\n").unwrap().installed_size_kb, 0);
    assert_eq!(parse_control_fields(" Installed-Size: +5\n").unwrap().installed_size_kb, 5);
    assert_eq!(parse_control_fields(" Installed-Size: -5\n").unwrap().installed_size_kb, 0);
    assert_eq!(
        parse_control_fields(" Installed-Size: 18446744073709551615\n").unwrap().installed_size_kb,
        u64::MAX
    );
    assert_eq!(
        parse_control_fields(" Installed-Size: 18446744073709551616\n").unwrap().installed_size_kb,
        0
    );
    assert_eq!(parse_control_fields(" Installed-Size:\n").unwrap().installed_size_kb, 0);
}

#[test]
fn continuation_without_a_field_is_ignored() {
    let info = parse_control_fields("   orphan line\n Package: p\n").unwrap();
    assert_eq!(info.name, "p");
    assert_eq!(info.description, "");
}

#[test]
fn crlf_line_endings_are_accepted() {
    let info = parse_control_fields(" Package: p\r\n Version: 3\r\n").unwrap();
    assert_eq!(info.name, "p");
    assert_eq!(info.version, "3");
}

#[test]
fn lines_without_colon_are_skipped_and_keep_the_field_open() {
    let info = parse_control_fields(" Description: a\n noise without separator\n  b\n").unwrap();
    assert_eq!(info.description, "a\nb");
}

#[test]
fn lone_dot_line_adds_nothing() {
    let info = parse_control_fields(" Description: a\n .\n\t.\n  c\n").unwrap();
    assert_eq!(info.description, "a\nc");
}

#[test]
fn raw_fields_keep_key_case_and_order() {
    let fields = control_fields_of(" Package: x\n Depends:  a ,b \n");
    assert_eq!(
        fields,
        vec![
            ("Package".to_string(), "x".to_string()),
            ("Depends".to_string(), "a ,b".to_string())
        ]
    );
}

#[test]
fn fields_give_package_description() {
    let fields = vec![
        ("package".to_string(), "tool".to_string()),
        ("depends".to_string(), " a , b ,".to_string()),
        ("installed-size".to_string(), "7".to_string()),
    ];
    let info = deb_info_from_fields(&fields);
    assert_eq!(info.name, "tool");
    assert_eq!(info.version, "unknown");
    assert_eq!(info.depends, vec!["a".to_string(), "b".to_string()]);
    assert_eq!(info.installed_size_kb, 7);
}

#[test]
fn unicode_keys_are_lowercased() {
    let info = parse_control_fields(" PACKAGE: ü\n").unwrap();
    assert_eq!(info.name, "ü");
}

#[test]
fn dpkg_deb_output_is_parsed_when_it_succeeded() {
    let info = deb_info_from_output(true, SAMPLE.as_bytes(), b"ignored").unwrap();
    assert_eq!(info.name, "hello");
    assert_eq!(info.version, "2.10-3");
    assert_eq!(info.installed_size_kb, 280);
}

#[test]
fn dpkg_deb_output_is_decoded_lossily() {
    let out: &[u8] = b" Package: caf\xe9\n Version: 1\n";
    let info = deb_info_from_output(true, out, b"").unwrap();
    assert_eq!(info.name, "caf\u{fffd}");
    assert_eq!(info.version, "1");
}

#[test]
fn dpkg_deb_failure_carries_its_error_output() {
    let err = deb_info_from_output(false, SAMPLE.as_bytes(), b"not a debian archive\xff").unwrap_err();
    assert_eq!(err, "dpkg-deb --info failed: not a debian archive\u{fffd}");
}

#[test]
fn uppercase_keys_are_matched() {
    let info = parse_control_fields(" PACKAGE: loud\n VERSION: 9\n").unwrap();
    assert_eq!(info.name, "loud");
    assert_eq!(info.version, "9");
}
