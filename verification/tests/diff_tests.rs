use std::collections::{BTreeMap, BTreeSet};
use webcrane::diff::{bytes_eq, group_files};
use webcrane::packages::HashPackage;

fn pkg(records: &[(&str, &str)]) -> HashPackage {
    HashPackage::new(
        records.iter().map(|(p, _)| p.to_string()).collect(),
        records.iter().map(|(_, h)| h.as_bytes().to_vec()).collect(),
    )
}

fn set(v: &[String]) -> BTreeSet<String> {
    v.iter().cloned().collect()
}

fn strs(v: &[&str]) -> BTreeSet<String> {
    v.iter().map(|s| s.to_string()).collect()
}

#[test]
fn groups_new_updated_deleted_and_moved_files() {
    let local = pkg(&[("same", "h1"), ("changed", "h2"), ("old_name", "h3"), ("gone", "h4")]);
    let remote = pkg(&[("same", "h1"), ("changed", "h5"), ("new_name", "h3"), ("fresh", "h6")]);
    let g = group_files(local, remote);
    assert_eq!(set(&g.new_files), strs(&["new_name", "fresh"]));
    assert_eq!(set(&g.files_to_update), strs(&["changed"]));
    assert_eq!(set(&g.files_to_delete), strs(&["old_name", "gone"]));
    assert_eq!(g.files_to_move, vec![("old_name".to_string(), "new_name".to_string())]);
}

#[test]
fn same_package_asks_for_nothing() {
    let p = || pkg(&[("a", "1"), ("b", "2"), ("a", "3")]);
    let g = group_files(p(), p());
    assert!(g.new_files.is_empty());
    assert!(g.files_to_update.is_empty());
    assert!(g.files_to_move.is_empty());
    assert!(g.files_to_delete.is_empty());
}

#[test]
fn later_record_of_a_path_counts() {
    // Locally "a" was recorded twice; its last hash equals the remote one.
    let local = pkg(&[("a", "old"), ("a", "new")]);
    let remote = pkg(&[("a", "new")]);
    let g = group_files(local, remote);
    assert!(g.files_to_update.is_empty());
    assert!(g.new_files.is_empty());
    assert!(g.files_to_delete.is_empty());
    let local = pkg(&[("a", "new"), ("a", "old")]);
    let g = group_files(local, pkg(&[("a", "new")]));
    assert_eq!(g.files_to_update, vec!["a".to_string()]);
}

#[test]
fn unpaired_paths_are_not_records() {
    let local = HashPackage::new(vec!["a".to_string(), "b".to_string()], vec![b"1".to_vec()]);
    let remote = HashPackage::new(vec![], vec![]);
    let g = group_files(local, remote);
    assert_eq!(g.files_to_delete, vec!["a".to_string()]);
}

#[test]
fn each_group_holds_each_path_once() {
    let local = pkg(&[("x", "1"), ("y", "1"), ("x", "1")]);
    let remote = pkg(&[("z", "1"), ("z", "1"), ("w", "2"), ("w", "2")]);
    let g = group_files(local, remote);
    assert_eq!(g.new_files.len(), set(&g.new_files).len());
    assert_eq!(set(&g.new_files), strs(&["z", "w"]));
    assert_eq!(set(&g.files_to_delete), strs(&["x", "y"]));
    // Hash "1" is last recorded at "x" locally and at "z" remotely.
    assert_eq!(g.files_to_move, vec![("x".to_string(), "z".to_string())]);
}

#[test]
fn pull_reaches_remote_state() {
    let local_records = [("keep", "k"), ("stale", "s1"), ("drop", "d")];
    let remote_records = [("keep", "k"), ("stale", "s2"), ("add", "a")];
    let g = group_files(pkg(&local_records), pkg(&remote_records));
    let mut after: BTreeMap<String, String> =
        local_records.iter().map(|(p, h)| (p.to_string(), h.to_string())).collect();
    for p in &g.files_to_delete {
        after.remove(p);
    }
    let remote: BTreeMap<String, String> =
        remote_records.iter().map(|(p, h)| (p.to_string(), h.to_string())).collect();
    for p in g.new_files.iter().chain(g.files_to_update.iter()) {
        after.insert(p.clone(), remote[p].clone());
    }
    assert_eq!(after, remote);
}

#[test]
fn bytes_eq_compares_contents() {
    assert!(bytes_eq(&vec![1, 2, 3], &vec![1, 2, 3]));
    assert!(!bytes_eq(&vec![1, 2, 3], &vec![1, 2]));
    assert!(!bytes_eq(&vec![1, 2, 3], &vec![1, 2, 4]));
    assert!(bytes_eq(&vec![], &vec![]));
}

#[test]
fn a_move_whose_source_is_deleted_is_skipped() {
    // "old_name" is not remote, so it is to be deleted: the move out of it
    // finds no source once the deletions are done.
    let g = group_files(pkg(&[("old_name", "h")]), pkg(&[("new_name", "h")]));
    assert_eq!(g.files_to_move, vec![("old_name".to_string(), "new_name".to_string())]);
    assert_eq!(g.files_to_delete, vec!["old_name".to_string()]);
    assert_eq!(g.new_files, vec!["new_name".to_string()]);
}

#[test]
fn a_move_whose_source_is_remote_is_not_deleted() {
    // "a" is remote with another hash: it is updated, not deleted, and the
    // move from it to "b" renames it.
    let g = group_files(pkg(&[("a", "h1")]), pkg(&[("a", "h2"), ("b", "h1")]));
    assert_eq!(g.files_to_move, vec![("a".to_string(), "b".to_string())]);
    assert!(g.files_to_delete.is_empty());
    assert_eq!(g.files_to_update, vec!["a".to_string()]);
}

#[test]
fn paths_are_compared_by_their_components() {
    // "dir//a.txt", "dir/./a.txt" and "dir/a.txt/" name the same path as
    // "dir/a.txt".
    let local = pkg(&[("dir//a.txt", "h1"), ("dir/./b.txt", "h2"), ("c/", "h3")]);
    let remote = pkg(&[("dir/a.txt", "h1"), ("dir/b.txt", "h9"), ("c", "h3"), ("x//y", "h4")]);
    let g = group_files(local, remote);
    assert!(g.files_to_delete.is_empty());
    assert!(g.files_to_move.is_empty());
    assert_eq!(set(&g.files_to_update), strs(&["dir/b.txt"]));
    assert_eq!(set(&g.new_files), strs(&["x/y"]));
}

#[test]
fn grouping_ignores_the_order_of_records() {
    let local = [("same", "h1"), ("changed", "h2"), ("old_name", "h3"), ("gone", "h4")];
    let remote = [("same", "h1"), ("changed", "h5"), ("new_name", "h3"), ("fresh", "h6")];
    let mut local_rev = local;
    local_rev.reverse();
    let mut remote_rot = remote;
    remote_rot.rotate_left(1);
    let g1 = group_files(pkg(&local), pkg(&remote));
    let g2 = group_files(pkg(&local_rev), pkg(&remote_rot));
    assert_eq!(set(&g1.new_files), set(&g2.new_files));
    assert_eq!(set(&g1.files_to_update), set(&g2.files_to_update));
    assert_eq!(set(&g1.files_to_delete), set(&g2.files_to_delete));
    let moves = |g: &webcrane::packages::GroupedFiles| -> BTreeSet<(String, String)> {
        g.files_to_move.iter().cloned().collect()
    };
    assert_eq!(moves(&g1), moves(&g2));
    assert_eq!(set(&g2.files_to_delete), strs(&["old_name", "gone"]));
}
