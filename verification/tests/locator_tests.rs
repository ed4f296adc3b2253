use parquet_consolidator::locator::{locate, LocateError, RootKind, WalkEntry};
use parquet_consolidator::paths::is_parquet_file;

fn entry(path: &str, is_file: bool) -> WalkEntry {
    WalkEntry { path: path.to_string(), is_file }
}

fn paths_of(v: &[String]) -> Vec<&str> {
    v.iter().map(|s| s.as_str()).collect()
}

#[test]
fn test_is_parquet_file() {
    // Valid parquet files
    assert!(is_parquet_file("test.parquet"));
    assert!(is_parquet_file("test.PARQUET"));
    assert!(is_parquet_file("/path/to/file.parquet"));

    // Invalid files
    assert!(!is_parquet_file("test.txt"));
    assert!(!is_parquet_file("test.csv"));
    assert!(!is_parquet_file("test"));
    assert!(!is_parquet_file("test."));
}

#[test]
fn test_is_parquet_file_mixed_case() {
    assert!(is_parquet_file("data.Parquet"));
    assert!(is_parquet_file("data.pArQuEt"));
    assert!(is_parquet_file("UPPER.PARQUET"));
    assert!(!is_parquet_file("data.parquett"));
    assert!(!is_parquet_file("data.parque"));
    assert!(!is_parquet_file(""));
    assert!(!is_parquet_file(".parquet"));
    assert!(!is_parquet_file("dir.parquet/file"));
    assert!(is_parquet_file("dir.csv/file.parquet"));
    assert!(!is_parquet_file("archive.parquet.gz"));
}

#[test]
fn test_locate_missing_root() {
    let r = locate("no/such/path", RootKind::Missing, Vec::new());
    assert!(matches!(r, Err(LocateError::PathNotFound { .. })));
}

#[test]
fn test_locate_single_text_file() {
    let r = locate("single_text_file.txt", RootKind::File, Vec::new());
    match r {
        Err(LocateError::NotTargetFormat { path }) => assert_eq!(path, "single_text_file.txt"),
        _ => panic!("expected NotTargetFormat"),
    }
}

#[test]
fn test_find_parquet_files_single_file() {
    let r = locate("test.parquet", RootKind::File, Vec::new()).unwrap();
    assert_eq!(r.len(), 1);
    assert_eq!(r[0], "test.parquet");
}

#[test]
fn test_find_parquet_files_non_parquet_file() {
    let r = locate("test.txt", RootKind::File, Vec::new());
    assert!(r.is_err());
    assert!(matches!(r, Err(LocateError::NotTargetFormat { .. })));
}

#[test]
fn test_find_parquet_files_directory_non_recursive() {
    // A non-recursive walk reports only the root's immediate children.
    let entries = vec![
        entry("root/file1.parquet", true),
        entry("root/file2.parquet", true),
        entry("root/file3.txt", true),
        entry("root/subdir", false),
    ];
    let r = locate("root", RootKind::Directory, entries).unwrap();
    let names = paths_of(&r);
    assert_eq!(names.len(), 2);
    assert!(names.contains(&"root/file1.parquet"));
    assert!(names.contains(&"root/file2.parquet"));
    assert!(!names.contains(&"root/subdir/file4.parquet"));
}

#[test]
fn test_find_parquet_files_directory_recursive() {
    // A recursive walk reports the whole subtree.
    let entries = vec![
        entry("root/file1.parquet", true),
        entry("root/file2.parquet", true),
        entry("root/subdir", false),
        entry("root/subdir/file3.parquet", true),
        entry("root/subdir/nested", false),
        entry("root/subdir/nested/file4.parquet", true),
    ];
    let r = locate("root", RootKind::Directory, entries).unwrap();
    let names = paths_of(&r);
    assert_eq!(names.len(), 4);
    assert!(names.contains(&"root/file1.parquet"));
    assert!(names.contains(&"root/file2.parquet"));
    assert!(names.contains(&"root/subdir/file3.parquet"));
    assert!(names.contains(&"root/subdir/nested/file4.parquet"));
}

#[test]
fn test_find_parquet_files_empty_directory() {
    let r = locate("root", RootKind::Directory, Vec::new()).unwrap();
    assert_eq!(r.len(), 0);
}

#[test]
fn test_locate_result_is_sorted() {
    let entries = vec![
        entry("root/c.parquet", true),
        entry("root/a.parquet", true),
        entry("root/b.parquet", true),
    ];
    let r = locate("root", RootKind::Directory, entries).unwrap();
    assert_eq!(paths_of(&r), vec!["root/a.parquet", "root/b.parquet", "root/c.parquet"]);
}

#[test]
fn test_locate_deterministic_across_walk_orders() {
    // The same tree reported in two different enumeration orders.
    let first = vec![
        entry("root/b.parquet", true),
        entry("root/sub", false),
        entry("root/sub/c.parquet", true),
        entry("root/a.parquet", true),
        entry("root/notes.txt", true),
    ];
    let second = vec![
        entry("root/notes.txt", true),
        entry("root/a.parquet", true),
        entry("root/sub/c.parquet", true),
        entry("root/b.parquet", true),
        entry("root/sub", false),
    ];
    let r1 = locate("root", RootKind::Directory, first).unwrap();
    let r2 = locate("root", RootKind::Directory, second).unwrap();
    assert_eq!(r1, r2);
    assert_eq!(
        paths_of(&r1),
        vec!["root/a.parquet", "root/b.parquet", "root/sub/c.parquet"]
    );
}

#[test]
fn test_locate_recursive_superset() {
    let shallow = vec![
        entry("root/a.parquet", true),
        entry("root/sub", false),
    ];
    let deep = vec![
        entry("root/a.parquet", true),
        entry("root/sub", false),
        entry("root/sub/b.parquet", true),
    ];
    let rs = locate("root", RootKind::Directory, shallow).unwrap();
    let rd = locate("root", RootKind::Directory, deep).unwrap();
    for p in &rs {
        assert!(rd.contains(p));
    }
}
