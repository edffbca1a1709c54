use deb_installer::models::db::{add_package, remove_package};
use deb_installer::models::package::InstalledPackage;

fn pkg(name: &str, version: &str) -> InstalledPackage {
    InstalledPackage {
        name: name.to_string(),
        version: version.to_string(),
        architecture: "amd64".to_string(),
        description: String::new(),
        install_date_secs: 1_700_000_000,
        install_date_nanos: 5,
        source_file: None,
    }
}

#[test]
fn add_replaces_an_earlier_record() {
    let mut list = vec![pkg("a", "1"), pkg("b", "1"), pkg("c", "1")];
    add_package(&mut list, pkg("a", "2"));
    let names: Vec<(String, String)> = list.iter().map(|p| (p.name.clone(), p.version.clone())).collect();
    assert_eq!(
        names,
        vec![("b".into(), "1".into()), ("c".into(), "1".into()), ("a".into(), "2".into())]
    );
}

#[test]
fn add_again_changes_nothing() {
    let mut list = vec![pkg("a", "1")];
    add_package(&mut list, pkg("b", "1"));
    let once = list.clone();
    add_package(&mut list, pkg("b", "1"));
    assert_eq!(list, once);
}

#[test]
fn remove_forgets_every_record_of_a_name() {
    let mut list = vec![pkg("a", "1"), pkg("b", "1"), pkg("a", "2")];
    remove_package(&mut list, "a");
    assert_eq!(list, vec![pkg("b", "1")]);
    remove_package(&mut list, "missing");
    assert_eq!(list, vec![pkg("b", "1")]);
}

#[test]
fn remove_undoes_add() {
    let original = vec![pkg("x", "1"), pkg("y", "1")];
    let mut list = original.clone();
    add_package(&mut list, pkg("z", "1"));
    remove_package(&mut list, "z");
    assert_eq!(list, original);
}

#[test]
fn removals_commute() {
    let original = vec![pkg("a", "1"), pkg("b", "1"), pkg("c", "1"), pkg("a", "2")];
    let mut one = original.clone();
    remove_package(&mut one, "a");
    remove_package(&mut one, "c");
    let mut two = original.clone();
    remove_package(&mut two, "c");
    remove_package(&mut two, "a");
    assert_eq!(one, two);
    assert_eq!(one, vec![pkg("b", "1")]);
}
