use asset_discovery::paths::{
    anchor, asset_path_of, copy_parts, get_asset_path, join_path, only_named, resolve_reference,
};

fn chars(s: &str) -> Vec<char> {
    s.chars().collect()
}

fn parts(list: &[&str]) -> Vec<Vec<char>> {
    list.iter().map(|s| chars(s)).collect()
}

fn resolved(dir: &[&str], reference: &str) -> Option<String> {
    resolve_reference(&None, &parts(dir), &chars(reference))
        .map(|p| asset_path_of(&p).into_iter().collect())
}

fn resolved_under(root: &str, dir: &[&str], reference: &str) -> Option<String> {
    resolve_reference(&anchor(root), &parts(dir), &chars(reference))
        .map(|p| asset_path_of(&p).into_iter().collect())
}

#[test]
fn joining_components() {
    assert_eq!(join_path(&parts(&[])), chars(""));
    assert_eq!(join_path(&parts(&["a"])), chars("a"));
    assert_eq!(join_path(&parts(&["a", "tex", "a.png"])), chars("a/tex/a.png"));
    assert_eq!(copy_parts(&parts(&["a", "b"])), parts(&["a", "b"]));
}

#[test]
fn references_resolve_against_the_manifest_directory() {
    assert_eq!(resolved(&["a"], "tex/a.png"), Some("a/tex/a.png".to_string()));
    assert_eq!(resolved(&[], "a.png"), Some("a.png".to_string()));
    assert_eq!(resolved(&["a", "b"], "c.png"), Some("a/b/c.png".to_string()));
}

#[test]
fn backslashes_separate_too() {
    assert_eq!(resolved(&["a"], "tex\\a.png"), Some("a/tex/a.png".to_string()));
}

#[test]
fn dots_and_empty_components() {
    assert_eq!(resolved(&["a"], "./tex//a.png"), Some("a/tex/a.png".to_string()));
    assert_eq!(resolved(&["a", "b"], "../c.png"), Some("a/c.png".to_string()));
    assert_eq!(resolved(&["a"], "../b/../c.png"), Some("c.png".to_string()));
    assert_eq!(resolved(&["a"], "."), Some("a".to_string()));
    assert_eq!(resolved(&["a"], ""), Some("a".to_string()));
}

#[test]
fn references_that_leave_the_root_are_dropped() {
    assert_eq!(resolved(&["a"], "../../x.png"), None);
    assert_eq!(resolved(&[], "../x.png"), None);
    assert_eq!(resolved(&["a"], "../../a/x.png"), None);
    assert_eq!(resolved(&["a"], "/etc/x.png"), None);
    assert_eq!(resolved(&["a"], "\\x.png"), None);
}

#[test]
fn asset_paths_hold_no_backslash() {
    assert_eq!(asset_path_of(&parts(&["a\\b", "c.png"])), chars("a/b/c.png"));
    assert_eq!(asset_path_of(&parts(&["a", "c.png"])), chars("a/c.png"));
    assert_eq!(asset_path_of(&parts(&[])), chars(""));
}

#[test]
fn anchor_of_a_scan_root() {
    assert_eq!(anchor("/srv/root"), Some(parts(&["srv", "root"])));
    assert_eq!(anchor("/srv//root/./x/"), Some(parts(&["srv", "root", "x"])));
    assert_eq!(anchor("\\srv\\root"), Some(parts(&["srv", "root"])));
    assert_eq!(anchor("/"), Some(parts(&[])));
    assert_eq!(anchor("srv/root"), None);
    assert_eq!(anchor(""), None);
    assert_eq!(only_named(&parts(&["", "a", ".", "..", "b", ""])), parts(&["a", "..", "b"]));
}

#[test]
fn rooted_references_are_taken_from_the_scan_root() {
    assert_eq!(resolved_under("/srv/root", &["a"], "/srv/root/tex/a.png"), Some("tex/a.png".to_string()));
    assert_eq!(resolved_under("/srv/root/", &["a"], "/srv/./root//b.png"), Some("b.png".to_string()));
    assert_eq!(resolved_under("/srv/root", &["a"], "/srv/root/x/../b.png"), Some("b.png".to_string()));
    assert_eq!(resolved_under("/srv/root", &["a"], "/srv/root"), Some("".to_string()));
    assert_eq!(resolved_under("/srv/root", &["a"], "/srv/rooted/b.png"), None);
    assert_eq!(resolved_under("/srv/root", &["a"], "/srv/b.png"), None);
    assert_eq!(resolved_under("/srv/root", &["a"], "/srv/root/../root/b.png"), None);
    assert_eq!(resolved_under("srv/root", &["a"], "/srv/root/b.png"), None);
    assert_eq!(resolved_under("/srv/root", &["a"], "tex/a.png"), Some("a/tex/a.png".to_string()));
}

#[test]
fn sample_asset_path() {
    assert_eq!(get_asset_path(), "assets/example.png");
}
