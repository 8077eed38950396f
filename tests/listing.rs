use my_drive::classify::{Category, FileType};
use std::cmp::Ordering;
use my_drive::listing::{list_files, order_entries, FileInfo, FileMetadata};
use my_drive::path_guard::{DrivePath, PathError};

fn file(name: &str) -> FileInfo {
    FileInfo {
        name: name.to_string(),
        is_dir: false,
        file_type: Some(FileType::default()),
        metadata: Some(FileMetadata { created_at: Some(1), modified_at: Some(2), size: Some(3) }),
    }
}

fn dir(name: &str) -> FileInfo {
    FileInfo { name: name.to_string(), is_dir: true, file_type: None, metadata: None }
}

fn names(v: &[FileInfo]) -> Vec<String> {
    v.iter().map(|e| e.name.clone()).collect()
}

fn path(s: &str) -> DrivePath {
    DrivePath::from_absolute(s).unwrap()
}

#[test]
fn listing_order_of_fixture() {
    let out = order_entries(&vec![file("b.txt"), file("a.txt"), dir("Z_dir")]);
    assert_eq!(names(&out), vec!["Z_dir", "b.txt", "a.txt"]);
}

#[test]
fn listing_order_directories_then_files_names_descending() {
    let out = order_entries(&vec![dir("a"), file("c"), dir("b"), file("A"), file("ab"), file("é")]);
    assert_eq!(names(&out), vec!["b", "a", "é", "c", "ab", "A"]);
}

#[test]
fn hidden_entries_are_left_out() {
    let out = order_entries(&vec![file(".foo"), dir(".git"), file("foo"), file("."), file("x.y")]);
    assert_eq!(names(&out), vec!["x.y", "foo"]);
}

#[test]
fn empty_listing() {
    assert!(order_entries(&vec![]).is_empty());
}

#[test]
fn equal_names_are_all_kept() {
    let out = order_entries(&vec![file("same"), dir("same"), file("same")]);
    assert_eq!(out.len(), 3);
    assert!(out[0].is_dir);
    assert!(!out[1].is_dir && !out[2].is_dir);
}

#[test]
fn entry_fields_are_kept() {
    let out = order_entries(&vec![file("f")]);
    assert_eq!(out[0].metadata, Some(FileMetadata { created_at: Some(1), modified_at: Some(2), size: Some(3) }));
    let t = out[0].file_type.as_ref().unwrap();
    assert_eq!(t.mime, "application/octet-stream");
    assert_eq!(t.f_type, Category::Unknown);
}

#[test]
fn compare_entries() {
    assert_eq!(file("a").cmp(&dir("a")), Ordering::Less);
    assert_eq!(dir("a").cmp(&file("z")), Ordering::Greater);
    assert_eq!(file("a").cmp(&file("b")), Ordering::Less);
    assert_eq!(file("ab").cmp(&file("a")), Ordering::Greater);
    assert_eq!(file("a").cmp(&file("a")), Ordering::Equal);
    assert!(file("a").comes_before(&file("b")));
    assert!(!file("b").comes_before(&file("b")));
    assert!(file(".x").is_hidden());
    assert!(!file("x.").is_hidden());
}

#[test]
fn listing_paths_below_root() {
    let res = list_files(&path("/data/x/y"), &path("/data"), vec![file("b.txt"), file(".foo")]).unwrap();
    assert_eq!(res.path, "/x/y");
    assert_eq!(res.parent, Some("/x".to_string()));
    assert_eq!(names(&res.files), vec!["b.txt"]);
}

#[test]
fn listing_paths_at_root() {
    let res = list_files(&path("/data"), &path("/data"), vec![]).unwrap();
    assert_eq!(res.path, "");
    assert_eq!(res.parent, None);
}

#[test]
fn listing_paths_one_below_root() {
    let res = list_files(&path("/data/x"), &path("/data"), vec![]).unwrap();
    assert_eq!(res.path, "/x");
    assert_eq!(res.parent, Some(String::new()));
}

#[test]
fn listing_outside_root_fails() {
    let err = list_files(&path("/etc"), &path("/data"), vec![file("passwd")]).unwrap_err();
    assert_eq!(err, PathError::OutsideRoot("/etc".to_string()));
}

#[test]
fn listing_after_delete_lacks_the_entry() {
    let before = list_files(&path("/data"), &path("/data"), vec![dir("gone"), file("kept")]).unwrap();
    assert_eq!(names(&before.files), vec!["gone", "kept"]);
    let after = list_files(&path("/data"), &path("/data"), vec![file("kept")]).unwrap();
    assert_eq!(names(&after.files), vec!["kept"]);
}

#[test]
fn shown_path_resolves_back_to_the_listed_directory() {
    let root = path("/data");
    let res = list_files(&path("/data/x/y"), &root, vec![]).unwrap();
    let again = my_drive::path_guard::resolve(&root, &res.path[1..]).unwrap();
    assert_eq!(again.to_path_string(), "/data/x/y");
    let top = list_files(&root, &root, vec![]).unwrap();
    assert_eq!(my_drive::path_guard::resolve(&root, &top.path).unwrap().to_path_string(), "/data");
}

#[test]
fn large_listing_matches_reverse_of_ascending_order() {
    let mut input = Vec::new();
    let mut expected: Vec<(bool, String)> = Vec::new();
    for i in 0..300u32 {
        let name = format!("n{}", (i * 7919) % 1009);
        let is_dir = i % 3 == 0;
        input.push(if is_dir { dir(&name) } else { file(&name) });
        expected.push((is_dir, name));
    }
    expected.sort();
    expected.reverse();
    let out = order_entries(&input);
    let got: Vec<(bool, String)> = out.iter().map(|e| (e.is_dir, e.name.clone())).collect();
    assert_eq!(got, expected);
}
