use diffr::compare::{compare_directories, FileEntry, FileStatus, SourceFile, DiffError};
use diffr::tree::{build_file_tree, FileTreeNode};
use diffr::summary::file_tree_result;

fn file(root: &str, rel: &str, content: &str) -> SourceFile {
    SourceFile {
        relative: rel.to_string(),
        absolute: format!("{}/{}", root, rel),
        content: content.as_bytes().to_vec(),
    }
}

fn entry(path: &str, status: FileStatus) -> FileEntry {
    FileEntry {
        path: path.to_string(),
        name: path.rsplit('/').next().unwrap().to_string(),
        status,
        is_dir: false,
        left_path: Some(format!("/l/{}", path)),
        right_path: Some(format!("/r/{}", path)),
    }
}

#[test]
fn test_compare_dirs() {
    let left = vec![
        file("/tmp/diffr-test/old", "README.md", "hello\n"),
        file("/tmp/diffr-test/old", "src/main.rs", "fn main() {}\n"),
        file("/tmp/diffr-test/old", "src/old.rs", "old\n"),
    ];
    let right = vec![
        file("/tmp/diffr-test/new", "README.md", "hello world\n"),
        file("/tmp/diffr-test/new", "src/main.rs", "fn main() {}\n"),
        file("/tmp/diffr-test/new", "src/new.rs", "new\n"),
    ];
    let entries = compare_directories(&left, &right);
    println!("Entries found: {}", entries.len());
    for entry in &entries {
        println!("  {:?}: {} ({:?})", entry.status, entry.path, entry.name);
    }
    let tree = build_file_tree(&entries);
    println!("Tree nodes: {}", tree.len());
    for node in &tree {
        println!("  Node: {} (is_dir: {}, status: {:?})", node.name, node.is_dir, node.status);
    }
    assert!(!entries.is_empty(), "Should find some entries");
}

#[test]
fn identical_trees_are_unchanged_with_empty_tree() {
    let left = vec![file("/l", "a.txt", "1"), file("/l", "d/b.txt", "2")];
    let right = vec![file("/r", "a.txt", "1"), file("/r", "d/b.txt", "2")];
    let entries = compare_directories(&left, &right);
    assert_eq!(entries.len(), 2);
    assert!(entries.iter().all(|e| e.status == FileStatus::Unchanged));
    assert!(build_file_tree(&entries).is_empty());
}

#[test]
fn right_only_is_added_left_only_is_deleted() {
    let left = vec![file("/l", "gone.txt", "old bytes")];
    let right = vec![file("/r", "fresh.txt", "new bytes")];
    let entries = compare_directories(&left, &right);
    assert_eq!(entries.len(), 2);
    assert_eq!(entries[0].path, "fresh.txt");
    assert_eq!(entries[0].status, FileStatus::Added);
    assert_eq!(entries[0].left_path, None);
    assert_eq!(entries[0].right_path, Some("/r/fresh.txt".to_string()));
    assert_eq!(entries[1].path, "gone.txt");
    assert_eq!(entries[1].status, FileStatus::Deleted);
    assert_eq!(entries[1].left_path, Some("/l/gone.txt".to_string()));
    assert_eq!(entries[1].right_path, None);
}

#[test]
fn same_bytes_under_new_name_is_a_rename() {
    let left = vec![file("/l", "a/x.txt", "same")];
    let right = vec![file("/r", "a/y.txt", "same")];
    let entries = compare_directories(&left, &right);
    assert_eq!(entries.len(), 1);
    assert_eq!(entries[0].path, "a/x.txt \u{2192} a/y.txt");
    assert_eq!(entries[0].name, "y.txt");
    assert_eq!(entries[0].status, FileStatus::Renamed);
    assert_eq!(entries[0].left_path, Some("/l/a/x.txt".to_string()));
    assert_eq!(entries[0].right_path, Some("/r/a/y.txt".to_string()));
}

#[test]
fn each_addition_pairs_with_one_deletion() {
    let left = vec![file("/l", "p.txt", "dup"), file("/l", "q.txt", "dup")];
    let right = vec![file("/r", "z.txt", "dup")];
    let entries = compare_directories(&left, &right);
    assert_eq!(entries.len(), 2);
    assert_eq!(entries[0].path, "p.txt \u{2192} z.txt");
    assert_eq!(entries[0].status, FileStatus::Renamed);
    assert_eq!(entries[1].path, "q.txt");
    assert_eq!(entries[1].status, FileStatus::Deleted);
}

#[test]
fn modified_when_bytes_differ_and_sorted_by_path() {
    let left = vec![file("/l", "b.txt", "1"), file("/l", "a.txt", "x")];
    let right = vec![file("/r", "b.txt", "2"), file("/r", "a.txt", "x")];
    let entries = compare_directories(&left, &right);
    let paths: Vec<&str> = entries.iter().map(|e| e.path.as_str()).collect();
    assert_eq!(paths, vec!["a.txt", "b.txt"]);
    assert_eq!(entries[0].status, FileStatus::Unchanged);
    assert_eq!(entries[1].status, FileStatus::Modified);
    assert_eq!(entries[1].name, "b.txt");
}

#[test]
fn empty_trees_give_no_entries() {
    let entries = compare_directories(&Vec::new(), &Vec::new());
    assert!(entries.is_empty());
}

fn names(nodes: &[FileTreeNode]) -> Vec<String> {
    nodes.iter().map(|n| n.name.clone()).collect()
}

#[test]
fn tree_orders_directories_first_then_case_insensitively() {
    let entries = vec![
        entry("Alpha", FileStatus::Added),
        entry("zeta/inner.txt", FileStatus::Modified),
        entry("beta", FileStatus::Deleted),
    ];
    let tree = build_file_tree(&entries);
    assert_eq!(names(&tree), vec!["zeta", "Alpha", "beta"]);
    assert!(tree[0].is_dir);
    assert_eq!(tree[0].status, None);
    assert_eq!(tree[0].path, "zeta");
    assert_eq!(names(&tree[0].children), vec!["inner.txt"]);
    assert_eq!(tree[0].children[0].path, "zeta/inner.txt");
}

#[test]
fn tree_sorting_lowercases_names() {
    let entries = vec![entry("Zeta", FileStatus::Added), entry("alpha", FileStatus::Added)];
    let tree = build_file_tree(&entries);
    assert_eq!(names(&tree), vec!["alpha", "Zeta"]);
}

#[test]
fn tree_skips_unchanged_and_places_renames_at_new_path() {
    let mut renamed = entry("old/a.txt \u{2192} new/b.txt", FileStatus::Renamed);
    renamed.name = "b.txt".to_string();
    let entries = vec![entry("same.txt", FileStatus::Unchanged), renamed];
    let tree = build_file_tree(&entries);
    assert_eq!(names(&tree), vec!["new"]);
    assert_eq!(names(&tree[0].children), vec!["b.txt"]);
    let leaf = &tree[0].children[0];
    assert_eq!(leaf.path, "old/a.txt \u{2192} new/b.txt");
    assert_eq!(leaf.status, Some(FileStatus::Renamed));
    assert!(!leaf.is_dir);
}

#[test]
fn nested_directories_carry_joined_paths() {
    let entries = vec![entry("a/b/c.txt", FileStatus::Added), entry("a/b/d.txt", FileStatus::Added)];
    let tree = build_file_tree(&entries);
    assert_eq!(tree.len(), 1);
    assert_eq!(tree[0].path, "a");
    assert_eq!(tree[0].children[0].path, "a/b");
    assert_eq!(names(&tree[0].children[0].children), vec!["c.txt", "d.txt"]);
}

#[test]
fn summary_counts_changes() {
    let entries = vec![
        entry("a", FileStatus::Added),
        entry("b", FileStatus::Deleted),
        entry("c", FileStatus::Modified),
        entry("d", FileStatus::Renamed),
        entry("e", FileStatus::Unchanged),
        entry("f", FileStatus::Added),
    ];
    let r = file_tree_result(entries);
    assert_eq!(r.added, 2);
    assert_eq!(r.deleted, 1);
    assert_eq!(r.modified, 1);
    assert_eq!(r.total_changes, 4);
    assert_eq!(r.files.len(), 5);
    assert!(r.files.iter().all(|e| e.status != FileStatus::Unchanged));
    assert_eq!(r.tree.len(), 5);
}

#[test]
fn diff_error_messages() {
    assert_eq!(DiffError::Io("boom".to_string()).message(), "IO error: boom");
    assert_eq!(DiffError::Walk("w".to_string()).message(), "Walk error: w");
    assert_eq!(DiffError::Path("p".to_string()).message(), "Path error: p");
}
