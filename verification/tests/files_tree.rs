use deb_installer::utils::deb_files::{DebFileEntry, DebFileKind};
use deb_installer::views::files_tree::{build_tree_items_clean, components, TreeNode};

fn entry(path: &str) -> DebFileEntry {
    DebFileEntry { path: path.to_string(), kind: DebFileKind::Text, cache_path: None }
}

fn shape(nodes: &[TreeNode]) -> Vec<String> {
    let mut out = Vec::new();
    for n in nodes {
        out.push(format!("{}|{}|{}|{}", n.id, n.label, n.expanded, n.children.len()));
    }
    out
}

#[test]
fn components_of_paths() {
    let c: Vec<String> = components("././usr//bin/x/").iter().map(|v| v.iter().collect()).collect();
    assert_eq!(c, vec!["usr", "bin", "x"]);
    assert!(components("./").is_empty());
}

#[test]
fn folders_first_sorted_and_merged() {
    let entries = vec![
        entry("./usr/share/man/man1/hello.1.gz"),
        entry("./usr/share/doc/hello/copyright"),
        entry("./usr/bin/hello"),
        entry("./usr/share/doc/hello/changelog.gz"),
        entry("./etc/hello.conf"),
    ];
    let tree = build_tree_items_clean(&entries);
    assert_eq!(shape(&tree), vec!["etc|etc|true|1", "usr|usr|true|2"]);
    assert_eq!(shape(&tree[0].children), vec!["./etc/hello.conf|hello.conf|false|0"]);
    let usr = &tree[1].children;
    assert_eq!(shape(usr), vec!["usr/bin|bin|true|1", "usr/share|share|true|2"]);
    assert_eq!(shape(&usr[0].children), vec!["./usr/bin/hello|hello|false|0"]);
    let share = &usr[1].children;
    assert_eq!(
        shape(share),
        vec!["usr/share/doc/hello|doc/hello|true|2", "usr/share/man/man1|man/man1|true|1"]
    );
    assert_eq!(
        shape(&share[0].children),
        vec![
            "./usr/share/doc/hello/changelog.gz|changelog.gz|false|0",
            "./usr/share/doc/hello/copyright|copyright|false|0"
        ]
    );
    assert_eq!(shape(&share[1].children), vec!["./usr/share/man/man1/hello.1.gz|hello.1.gz|false|0"]);
}

#[test]
fn single_chain_is_merged_from_the_top() {
    let tree = build_tree_items_clean(&[entry("./opt/app/lib/x.so")]);
    assert_eq!(shape(&tree), vec!["opt/app/lib|opt/app/lib|true|1"]);
    assert_eq!(shape(&tree[0].children), vec!["./opt/app/lib/x.so|x.so|false|0"]);
}

#[test]
fn file_and_folder_of_the_same_name() {
    let tree = build_tree_items_clean(&[entry("./a"), entry("./a/b")]);
    assert_eq!(shape(&tree), vec!["a|a|true|1", "./a|a|false|0"]);
}

#[test]
fn equal_file_names_keep_their_order() {
    let tree = build_tree_items_clean(&[entry("./x/b"), entry("x/a"), entry("./x/a")]);
    assert_eq!(shape(&tree[0].children), vec!["x/a|a|false|0", "./x/a|a|false|0", "./x/b|b|false|0"]);
}

#[test]
fn empty_paths_are_left_out() {
    let tree = build_tree_items_clean(&[entry("./"), entry("")]);
    assert!(tree.is_empty());
    assert!(build_tree_items_clean(&[]).is_empty());
}

#[test]
fn folder_with_a_file_is_not_merged() {
    let tree = build_tree_items_clean(&[entry("./a/b/c"), entry("./a/d")]);
    assert_eq!(shape(&tree), vec!["a|a|true|2"]);
    assert_eq!(shape(&tree[0].children), vec!["a/b|b|true|1", "./a/d|d|false|0"]);
}

fn leaf_ids(nodes: &[TreeNode], out: &mut Vec<String>) {
    for n in nodes {
        if n.expanded {
            leaf_ids(&n.children, out);
        } else {
            out.push(n.id.clone());
        }
    }
}

#[test]
fn every_listed_file_is_shown_once() {
    let paths = ["./b/x", "./a/y", "./a/y", "./a/c/d/e", "./", "z", "./a/c/f"];
    let entries: Vec<DebFileEntry> = paths.iter().map(|p| entry(p)).collect();
    let mut shown = Vec::new();
    leaf_ids(&build_tree_items_clean(&entries), &mut shown);
    shown.sort();
    let mut expected: Vec<String> = paths.iter().filter(|p| **p != "./").map(|p| p.to_string()).collect();
    expected.sort();
    assert_eq!(shown, expected);
}
