use gitlet::filesystem::{child_path, clone_path, same_path, FileSystem, Kind, Node};

fn path(parts: &[&str]) -> Vec<String> {
    parts.iter().map(|s| s.to_string()).collect()
}

#[test]
fn new_tree_holds_the_root_only() {
    let fs = FileSystem::new();
    assert_eq!(fs.len(), 0);
    assert_eq!(fs.kind(&Vec::new()), Kind::Dir);
    assert_eq!(fs.kind(&path(&["a"])), Kind::Missing);
    assert_eq!(fs.read(&path(&["a"])), None);
    assert_eq!(fs.read(&Vec::new()), None);
}

#[test]
fn create_dir_all_makes_the_chain() {
    let mut fs = FileSystem::new();
    assert!(fs.create_dir_all(&path(&["a", "b", "c"])));
    assert_eq!(fs.kind(&path(&["a"])), Kind::Dir);
    assert_eq!(fs.kind(&path(&["a", "b"])), Kind::Dir);
    assert_eq!(fs.kind(&path(&["a", "b", "c"])), Kind::Dir);
    assert_eq!(fs.kind(&path(&["a", "c"])), Kind::Missing);
    assert_eq!(fs.kind(&path(&["b"])), Kind::Missing);
    assert_eq!(fs.len(), 3);
    assert_eq!(fs.record(0).path, path(&["a"]));
    assert_eq!(fs.record(1).path, path(&["a", "b"]));
    assert_eq!(fs.record(2).path, path(&["a", "b", "c"]));
    assert_eq!(fs.record(2).node, Node::Dir);
}

#[test]
fn create_dir_all_makes_only_what_is_missing() {
    let mut fs = FileSystem::new();
    assert!(fs.create_dir_all(&path(&["a", "b"])));
    assert!(fs.create_dir_all(&path(&["a", "b", "c"])));
    assert_eq!(fs.len(), 3);
    assert!(fs.create_dir_all(&path(&["a", "b", "c"])));
    assert!(fs.create_dir_all(&Vec::new()));
    assert_eq!(fs.len(), 3);
}

#[test]
fn create_dir_all_fails_below_a_file() {
    let mut fs = FileSystem::new();
    assert!(fs.write(&path(&["f"]), vec![1]));
    assert!(!fs.create_dir_all(&path(&["f", "x", "y"])));
    assert!(!fs.create_dir_all(&path(&["f"])));
    assert_eq!(fs.len(), 1);
    assert_eq!(fs.kind(&path(&["f", "x"])), Kind::Missing);
}

#[test]
fn write_then_read() {
    let mut fs = FileSystem::new();
    assert!(fs.create_dir_all(&path(&["a"])));
    assert!(fs.write(&path(&["a", "f"]), vec![1, 2, 3]));
    assert_eq!(fs.kind(&path(&["a", "f"])), Kind::File);
    assert_eq!(fs.read(&path(&["a", "f"])), Some(&vec![1u8, 2, 3]));
    assert_eq!(fs.read(&path(&["a"])), None);
}

#[test]
fn write_replaces_a_file() {
    let mut fs = FileSystem::new();
    assert!(fs.write(&path(&["f"]), vec![1]));
    assert!(fs.write(&path(&["f"]), vec![2, 2]));
    assert_eq!(fs.read(&path(&["f"])), Some(&vec![2u8, 2]));
    assert_eq!(fs.len(), 2);
    assert_eq!(fs.record(1).node, Node::File(vec![2, 2]));
}

#[test]
fn write_needs_a_parent_directory() {
    let mut fs = FileSystem::new();
    assert!(!fs.write(&path(&["a", "f"]), vec![1]));
    assert!(fs.write(&path(&["g"]), vec![1]));
    assert!(!fs.write(&path(&["g", "f"]), vec![1]));
    assert_eq!(fs.len(), 1);
}

#[test]
fn write_does_not_replace_a_directory() {
    let mut fs = FileSystem::new();
    assert!(fs.create_dir_all(&path(&["a"])));
    assert!(!fs.write(&path(&["a"]), vec![1]));
    assert!(!fs.write(&Vec::new(), vec![1]));
    assert_eq!(fs.kind(&path(&["a"])), Kind::Dir);
}

#[test]
fn paths_are_compared_by_components() {
    assert!(same_path(&path(&["a", "b"]), &path(&["a", "b"])));
    assert!(!same_path(&path(&["a", "b"]), &path(&["a"])));
    assert!(!same_path(&path(&["a", "b"]), &path(&["a", "c"])));
    assert!(!same_path(&path(&["ab"]), &path(&["a", "b"])));
    assert!(same_path(&Vec::new(), &Vec::new()));
}

#[test]
fn child_and_clone() {
    assert_eq!(child_path(&path(&["a"]), "b"), path(&["a", "b"]));
    assert_eq!(child_path(&Vec::new(), ".git"), path(&[".git"]));
    assert_eq!(clone_path(&path(&["a", "b"])), path(&["a", "b"]));
}
