use media_uploader::file_traversal::{self, order_candidates, FsEntry};
use media_uploader::tree_node::{
    self, dir_contains_file, find_unique_files_in_directory, flatten_directory, get_newest_files,
    get_node_path, DirectoryNode, FileNode, TreeNode,
};

fn file(p: &str) -> FsEntry {
    FsEntry::File(p.to_string())
}

fn dir(p: &str, entries: Vec<FsEntry>) -> FsEntry {
    FsEntry::Directory(p.to_string(), entries)
}

fn listing() -> FsEntry {
    dir(
        "/r",
        vec![
            file("/r/a.mp4"),
            file("/r/notes.txt"),
            dir("/r/x", vec![file("/r/x/b.avi"), file("/r/x/c.MOV")]),
            dir("/r/y", vec![file("/r/y/d.webm")]),
            FsEntry::Unreadable("/r/locked".to_string()),
            FsEntry::Other("/r/socket".to_string()),
        ],
    )
}

fn paths(v: &[FileNode]) -> Vec<String> {
    v.iter().map(|f| f.path.clone()).collect()
}

fn strings(v: &[&str]) -> Vec<String> {
    v.iter().map(|s| s.to_string()).collect()
}

#[test]
fn scan_lists_media_depth_first() {
    let r = file_traversal::get_files_in_directory(&listing());
    assert_eq!(r.files, strings(&["/r/a.mp4", "/r/x/b.avi", "/r/x/c.MOV", "/r/y/d.webm"]));
    assert_eq!(r.unreadable, strings(&["/r/locked"]));
}

#[test]
fn scan_of_unreadable_root() {
    let r = file_traversal::get_files_in_directory(&FsEntry::Unreadable("/r".to_string()));
    assert!(r.files.is_empty());
    assert_eq!(r.unreadable, strings(&["/r"]));
}

#[test]
fn snapshot_counts_descendants() {
    let t = tree_node::get_files_in_directory(&listing()).unwrap();
    match &t {
        TreeNode::Directory(d) => {
            assert_eq!(d.path, "/r");
            assert_eq!(d.children_count, 4);
            assert_eq!(d.children.len(), 3);
            assert_eq!(TreeNode::count_descendants(&d.children), 4);
            match &d.children[1] {
                TreeNode::Directory(x) => {
                    assert_eq!(x.path, "/r/x");
                    assert_eq!(x.children_count, 2);
                }
                TreeNode::File(_) => panic!("expected a directory"),
            }
        }
        TreeNode::File(_) => panic!("expected a directory"),
    }
    assert_eq!(paths(&flatten_directory(&t)), strings(&["/r/a.mp4", "/r/x/b.avi", "/r/x/c.MOV", "/r/y/d.webm"]));
    assert_eq!(get_node_path(&t), "/r");
}

#[test]
fn snapshot_needs_directory_root() {
    assert!(tree_node::get_files_in_directory(&file("/r/a.mp4")).is_none());
    assert!(tree_node::get_files_in_directory(&FsEntry::Unreadable("/r".to_string())).is_none());
}

#[test]
fn unchanged_tree_has_no_new_files() {
    let first = tree_node::get_files_in_directory(&listing()).unwrap();
    let second = tree_node::get_files_in_directory(&listing()).unwrap();
    assert!(find_unique_files_in_directory(&second, &first).is_empty());
    assert!(get_newest_files(Some(&first), &second).is_empty());
}

#[test]
fn added_file_is_found_and_siblings_skipped() {
    let before = tree_node::get_files_in_directory(&listing()).unwrap();
    let changed = dir(
        "/r",
        vec![
            file("/r/a.mp4"),
            dir("/r/x", vec![file("/r/x/b.avi"), file("/r/x/c.MOV"), file("/r/x/new.mp4")]),
            dir("/r/y", vec![file("/r/y/d.webm")]),
        ],
    );
    let after = tree_node::get_files_in_directory(&changed).unwrap();
    assert_eq!(paths(&find_unique_files_in_directory(&after, &before)), strings(&["/r/x/new.mp4"]));
    assert_eq!(get_newest_files(Some(&before), &after), strings(&["/r/x/new.mp4"]));
}

#[test]
fn renamed_file_in_same_count_directory_is_not_found() {
    let before = tree_node::get_files_in_directory(&listing()).unwrap();
    let changed = dir(
        "/r",
        vec![
            file("/r/a.mp4"),
            dir("/r/x", vec![file("/r/x/b.avi"), file("/r/x/renamed.mov")]),
            dir("/r/y", vec![file("/r/y/d.webm")]),
        ],
    );
    let after = tree_node::get_files_in_directory(&changed).unwrap();
    assert!(find_unique_files_in_directory(&after, &before).is_empty());
}

#[test]
fn new_directory_contributes_all_its_files() {
    let before = tree_node::get_files_in_directory(&listing()).unwrap();
    let changed = dir(
        "/r",
        vec![
            file("/r/a.mp4"),
            dir("/r/x", vec![file("/r/x/b.avi"), file("/r/x/c.MOV")]),
            dir("/r/y", vec![file("/r/y/d.webm")]),
            dir("/r/z", vec![file("/r/z/e.mp4"), dir("/r/z/w", vec![file("/r/z/w/f.ogv")])]),
        ],
    );
    let after = tree_node::get_files_in_directory(&changed).unwrap();
    assert_eq!(paths(&find_unique_files_in_directory(&after, &before)), strings(&["/r/z/e.mp4", "/r/z/w/f.ogv"]));
}

#[test]
fn no_previous_snapshot_means_no_hints() {
    let t = tree_node::get_files_in_directory(&listing()).unwrap();
    assert!(get_newest_files(None, &t).is_empty());
    let not_a_dir = TreeNode::File(FileNode::new("/r/a.mp4".to_string()));
    assert!(get_newest_files(Some(&not_a_dir), &t).is_empty());
}

#[test]
fn add_node_updates_count() {
    let mut t = TreeNode::Directory(DirectoryNode::new("/r".to_string(), Vec::new(), 0));
    t.add_node(TreeNode::File(FileNode::new("/r/a.mp4".to_string())));
    let mut sub = TreeNode::Directory(DirectoryNode::new("/r/s".to_string(), Vec::new(), 0));
    sub.add_node(TreeNode::File(FileNode::new("/r/s/b.mp4".to_string())));
    sub.add_node(TreeNode::File(FileNode::new("/r/s/c.mp4".to_string())));
    t.add_node(sub);
    match &t {
        TreeNode::Directory(d) => {
            assert_eq!(d.children_count, 3);
            assert!(dir_contains_file(d, &FileNode::new("/r/a.mp4".to_string())));
            assert!(!dir_contains_file(d, &FileNode::new("/r/s/b.mp4".to_string())));
        }
        TreeNode::File(_) => panic!("expected a directory"),
    }
    let mut leaf = TreeNode::File(FileNode::new("/r/a.mp4".to_string()));
    leaf.add_node(TreeNode::File(FileNode::new("/r/b.mp4".to_string())));
    assert_eq!(get_node_path(&leaf), "/r/a.mp4");
}

#[test]
fn candidates_put_priority_first() {
    let scanned = strings(&["/r/a.mp4", "/r/x/b.avi", "/r/x/new.mp4", "/r/y/d.webm"]);
    let priority = strings(&["/r/x/new.mp4"]);
    assert_eq!(
        order_candidates(&scanned, &priority),
        strings(&["/r/x/new.mp4", "/r/a.mp4", "/r/x/b.avi", "/r/y/d.webm"])
    );
    assert_eq!(order_candidates(&scanned, &Vec::new()), scanned);
}
