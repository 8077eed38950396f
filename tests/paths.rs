use my_drive::path_guard::{relative_path, resolve, DrivePath, PathError};

fn root() -> DrivePath {
    DrivePath::from_absolute("/data").unwrap()
}

fn shown(r: Result<DrivePath, PathError>) -> String {
    r.unwrap().to_path_string()
}

#[test]
fn resolve_plain_relative_path() {
    assert_eq!(shown(resolve(&root(), "x/y")), "/data/x/y");
}

#[test]
fn resolve_empty_path_is_root() {
    assert_eq!(shown(resolve(&root(), "")), "/data");
}

#[test]
fn resolve_normalises_dots_and_repeated_separators() {
    assert_eq!(shown(resolve(&root(), "./a//b/.")), "/data/a/b");
    assert_eq!(shown(resolve(&root(), "a/../b")), "/data/b");
}

#[test]
fn resolve_rejects_parent_traversal() {
    assert_eq!(resolve(&root(), "../etc").unwrap_err(), PathError::OutsideRoot("../etc".to_string()));
    assert!(resolve(&root(), "x/../../etc/passwd").is_err());
    assert!(resolve(&root(), "..").is_err());
    assert!(resolve(&root(), "a/b/../../..").is_err());
}

#[test]
fn resolve_accepts_traversal_that_comes_back_inside() {
    assert_eq!(shown(resolve(&root(), "x/../../data/y")), "/data/y");
}

#[test]
fn resolve_absolute_paths() {
    assert_eq!(resolve(&root(), "/etc/passwd").unwrap_err(), PathError::OutsideRoot("/etc/passwd".to_string()));
    assert_eq!(shown(resolve(&root(), "/data/z")), "/data/z");
    assert!(resolve(&root(), "/database").is_err());
}

#[test]
fn resolve_never_leaves_root() {
    let attempts = ["../", "../../..", "a/../../b", "/", "//etc", "/data/../etc", "....", "...//x", "%2e%2e/x"];
    for a in attempts.iter() {
        if let Ok(p) = resolve(&root(), a) {
            assert!(p.starts_with(&root()), "{} escaped", a);
        }
    }
    assert_eq!(shown(resolve(&root(), "....")), "/data/....");
}

#[test]
fn from_absolute_requires_leading_separator() {
    assert!(DrivePath::from_absolute("data").is_none());
    assert!(DrivePath::from_absolute("").is_none());
    assert_eq!(DrivePath::from_absolute("/").unwrap().to_path_string(), "/");
    assert_eq!(DrivePath::from_absolute("/a/./b/../c/").unwrap().to_path_string(), "/a/c");
    assert_eq!(DrivePath::from_absolute("/..").unwrap().to_path_string(), "/");
}

#[test]
fn relative_path_display() {
    let dir = DrivePath::from_absolute("/data/x/y").unwrap();
    assert_eq!(relative_path(&dir, &root()).unwrap(), "/x/y");
    assert_eq!(relative_path(&root(), &root()).unwrap(), "");
    let outside = DrivePath::from_absolute("/other").unwrap();
    assert_eq!(relative_path(&outside, &root()).unwrap_err(), PathError::OutsideRoot("/other".to_string()));
}

#[test]
fn parent_child_and_file_name() {
    let dir = DrivePath::from_absolute("/data/x").unwrap();
    assert_eq!(dir.parent().unwrap().to_path_string(), "/data");
    assert!(DrivePath::top().parent().is_none());
    assert_eq!(dir.file_name().unwrap(), "x");
    assert!(DrivePath::top().file_name().is_none());
    assert_eq!(dir.child("new").unwrap().to_path_string(), "/data/x/new");
    assert_eq!(dir.child("a/b").unwrap_err(), PathError::InvalidName("a/b".to_string()));
    assert!(dir.child("..").is_err());
    assert!(dir.child(".").is_err());
    assert!(dir.child("").is_err());
    assert_eq!(dir.child(".hidden").unwrap().to_path_string(), "/data/x/.hidden");
    assert_eq!(dir.clone().to_path_string(), "/data/x");
}

#[test]
fn error_messages_name_the_path() {
    assert_eq!(PathError::OutsideRoot("../x".to_string()).message(), "Invalid path: ../x");
    assert_eq!(PathError::InvalidName("a/b".to_string()).message(), "Invalid name: a/b");
}
