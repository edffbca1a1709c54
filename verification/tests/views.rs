use deb_installer::models::package::DebInfo;
use deb_installer::utils::deb_files::{DebFileEntry, DebFileKind};
use deb_installer::views::files_preview::{
    detect_language, filter_entries, find_entry, language_for_extension, FilesLoadState,
    FilesPreviewState,
};
use deb_installer::views::install::{
    depends_label, first_line_of, installed_record, size_label, InstallState,
};
use deb_installer::views::packages::{install_date_label, PackagesState};

fn entry(path: &str) -> DebFileEntry {
    DebFileEntry { path: path.to_string(), kind: DebFileKind::Text, cache_path: Some(format!("/tmp/{}", path)) }
}

fn info(name: &str) -> DebInfo {
    DebInfo {
        name: name.to_string(),
        version: "1.0".to_string(),
        architecture: "all".to_string(),
        description: "short\nlong text".to_string(),
        installed_size_kb: 12,
        depends: vec!["libc6".to_string()],
        maintainer: "m".to_string(),
        section: None,
    }
}

#[test]
fn languages_by_extension() {
    assert_eq!(detect_language("./src/main.RS"), "rust");
    assert_eq!(detect_language("./usr/share/x.yml"), "yaml");
    assert_eq!(detect_language("./build/rules.mk"), "makefile");
    assert_eq!(detect_language("./Makefile"), "text");
    assert_eq!(detect_language("./usr/bin/foo"), "text");
    assert_eq!(detect_language("./usr/share/notes.unknownext"), "text");
    assert_eq!(detect_language("./etc/app.conf"), "ini");
    assert_eq!(language_for_extension("hxx"), "cpp");
    assert_eq!(language_for_extension(""), "text");
}

#[test]
fn search_filters_case_insensitively() {
    let es = vec![entry("./usr/share/doc/README"), entry("./usr/bin/tool"), entry("./etc/Doc.conf")];
    let shown: Vec<String> = filter_entries(&es, "DOC").into_iter().map(|e| e.path).collect();
    assert_eq!(shown, vec!["./usr/share/doc/README", "./etc/Doc.conf"]);
    assert_eq!(filter_entries(&es, "").len(), 3);
    assert!(filter_entries(&es, "zzz").is_empty());
}

#[test]
fn find_returns_the_first_match() {
    let es = vec![entry("./a"), entry("./b")];
    assert_eq!(find_entry(&es, "./b"), Some(entry("./b")));
    assert_eq!(find_entry(&es, "b"), None);
}

#[test]
fn same_package_is_not_loaded_twice() {
    let mut st = FilesPreviewState::new();
    assert!(st.trigger_load("/tmp/a.deb"));
    assert!(matches!(st.load_state, FilesLoadState::Loading));
    assert!(!st.trigger_load("/tmp/a.deb"));
    assert!(!st.trigger_load("/tmp//a.deb"));
    assert!(st.trigger_load("/tmp/b.deb"));
    assert_eq!(st.last_loaded_path, Some("/tmp/b.deb".to_string()));
}

#[test]
fn selection_needs_a_loaded_list() {
    let mut st = FilesPreviewState::new();
    assert!(st.select_file("./a").is_none());
    assert!(st.tree_items("").is_none());
    st.trigger_load("/tmp/a.deb");
    st.finish_loading(vec![entry("./a"), entry("./dir/b")]);
    assert_eq!(st.select_file("./dir/b"), Some(entry("./dir/b")));
    assert_eq!(st.selected, Some(entry("./dir/b")));
    assert!(st.select_file("./zzz").is_none());
    assert_eq!(st.selected, Some(entry("./dir/b")));
    let tree = st.tree_items("B").unwrap();
    assert_eq!(tree.len(), 1);
    assert_eq!(tree[0].id, "dir");
    st.fail_loading();
    assert!(matches!(st.load_state, FilesLoadState::Error));
}

#[test]
fn install_flow() {
    let mut st = InstallState::new();
    assert!(!st.file_chosen("/tmp/notes.txt"));
    assert!(matches!(&st, InstallState::Done { message, success: false } if message == "Selected file is not a .deb package."));
    assert!(!st.file_chosen("/tmp/pkg.DEB"));
    assert!(st.file_chosen("/tmp/pkg.deb"));
    assert!(matches!(&st, InstallState::LoadingInfo(p) if p == "/tmp/pkg.deb"));
    st.info_read(Ok(info("pkg")));
    assert!(matches!(&st, InstallState::FileSelected { path, .. } if path == "/tmp/pkg.deb"));
    let (path, i) = st.start_install().unwrap();
    assert_eq!(path, "/tmp/pkg.deb");
    assert_eq!(i, info("pkg"));
    assert!(matches!(&st, InstallState::Installing { .. }));
    assert!(st.start_install().is_none());
    st.install_finished("pkg", Ok(()));
    assert!(matches!(&st, InstallState::Done { message, success: true } if message == "Package 'pkg' installed successfully."));
    st.reset();
    assert!(matches!(st, InstallState::Idle));
}

#[test]
fn install_failures_are_reported() {
    let mut st = InstallState::new();
    st.info_read(Err("bad archive".to_string()));
    assert!(matches!(&st, InstallState::Done { message, success: false } if message == "Failed to read .deb info: bad archive"));
    st.install_finished("pkg", Err("exit 100".to_string()));
    assert!(matches!(&st, InstallState::Done { message, success: false } if message == "Installation failed: exit 100"));
    let mut idle = InstallState::new();
    idle.info_read(Ok(info("x")));
    assert!(matches!(&idle, InstallState::FileSelected { path, .. } if path.is_empty()));
}

#[test]
fn labels() {
    assert_eq!(size_label(280), "280 KB");
    assert_eq!(size_label(0), "unknown");
    assert_eq!(size_label(u64::MAX), "18446744073709551615 KB");
    assert_eq!(depends_label(&vec![]), "none");
    assert_eq!(depends_label(&vec!["a".to_string(), "b (>= 1)".to_string()]), "a, b (>= 1)");
    assert_eq!(first_line_of("one\ntwo"), "one");
    assert_eq!(first_line_of(""), "");
}

#[test]
fn record_of_an_installed_package() {
    let r = installed_record(&info("pkg"), "/tmp/pkg.deb", 100, 7);
    assert_eq!(r.name, "pkg");
    assert_eq!(r.description, "short");
    assert_eq!(r.install_date_secs, 100);
    assert_eq!(r.install_date_nanos, 7);
    assert_eq!(r.source_file, Some("/tmp/pkg.deb".to_string()));
}

#[test]
fn uninstall_confirmation() {
    let mut st = PackagesState::new(vec![]);
    assert_eq!(st.confirm_uninstall(), None);
    st.start_uninstall("pkg".to_string());
    assert_eq!(st.confirm_target, Some("pkg".to_string()));
    assert_eq!(st.confirm_uninstall(), Some("pkg".to_string()));
    assert_eq!(st.confirm_target, None);
    st.start_uninstall("pkg".to_string());
    st.cancel_confirm();
    assert_eq!(st.confirm_uninstall(), None);
}

#[test]
fn repeated_load_keeps_the_loaded_list() {
    let mut st = FilesPreviewState::new();
    assert!(st.trigger_load("/tmp/a.deb"));
    st.finish_loading(vec![entry("./a")]);
    assert_eq!(st.select_file("./a"), Some(entry("./a")));
    assert!(!st.trigger_load("/tmp/a.deb"));
    assert!(matches!(st.load_state, FilesLoadState::Loaded(_)));
    assert_eq!(st.selected, Some(entry("./a")));
    assert_eq!(st.last_loaded_path, Some("/tmp/a.deb".to_string()));
}

fn installed_at(secs: i64, nanos: u32) -> deb_installer::models::package::InstalledPackage {
    deb_installer::models::package::InstalledPackage {
        name: "hello".to_string(),
        version: "1.0".to_string(),
        architecture: "amd64".to_string(),
        description: String::new(),
        install_date_secs: secs,
        install_date_nanos: nanos,
        source_file: None,
    }
}

#[test]
fn install_date_is_shown_to_the_minute_in_utc() {
    assert_eq!(install_date_label(&installed_at(0, 0)), "1970-01-01 00:00");
    assert_eq!(install_date_label(&installed_at(1_700_000_000, 999_999_999)), "2023-11-14 22:13");
    assert_eq!(install_date_label(&installed_at(i64::MAX, 0)), "");
}
