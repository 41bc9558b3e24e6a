//! Snapshot of the media tree under the root, and the diff between two runs'
//! snapshots that finds files that are likely new.
use vstd::prelude::*;
use crate::file_extension::{is_media_path, FileExtension};
use crate::file_traversal::{entries_media, entry_media, lemma_entries_media_monotonic, strings_view, FsEntry};

verus! {

#[derive(Debug)]
pub struct FileNode {
    pub path: String,
}

#[derive(Debug)]
pub struct DirectoryNode {
    pub path: String,
    pub children_count: usize,
    pub children: Vec<TreeNode>,
}

#[derive(Debug)]
pub enum TreeNode {
    File(FileNode),
    Directory(DirectoryNode),
}

/// The paths of a sequence of file nodes.
pub open spec fn file_paths(v: Seq<FileNode>) -> Seq<Seq<char>> {
    v.map_values(|f: FileNode| f.path@)
}

/// The files under the first `i` children, depth-first, in order.
pub open spec fn files_of_children(v: Vec<TreeNode>, i: int) -> Seq<Seq<char>>
    decreases v, i,
{
    if i <= 0 || i > v.len() {
        Seq::empty()
    } else {
        files_of_children(v, i - 1) + match v[i - 1] {
            TreeNode::File(f) => seq![f.path@],
            TreeNode::Directory(d) => files_of_children(d.children, d.children.len() as int),
        }
    }
}

/// Every file of a node, depth-first, in order.
pub open spec fn node_files(n: TreeNode) -> Seq<Seq<char>> {
    match n {
        TreeNode::File(f) => seq![f.path@],
        TreeNode::Directory(d) => files_of_children(d.children, d.children.len() as int),
    }
}

/// The number of files below a sequence of children.
pub open spec fn descendants(v: Vec<TreeNode>) -> nat {
    files_of_children(v, v.len() as int).len()
}

/// The first `i` children, and every directory below them, record their true
/// number of descendant files.
pub open spec fn children_wf(v: Vec<TreeNode>, i: int) -> bool
    decreases v, i,
{
    if i <= 0 || i > v.len() {
        true
    } else {
        children_wf(v, i - 1) && match v[i - 1] {
            TreeNode::File(_) => true,
            TreeNode::Directory(d) => d.children_count == descendants(d.children)
                && children_wf(d.children, d.children.len() as int),
        }
    }
}

/// Every directory of the node records its true number of descendant files.
pub open spec fn node_wf(n: TreeNode) -> bool {
    match n {
        TreeNode::File(_) => true,
        TreeNode::Directory(d) => d.children_count == descendants(d.children)
            && children_wf(d.children, d.children.len() as int),
    }
}

pub open spec fn is_directory(n: TreeNode) -> bool {
    n is Directory
}

pub open spec fn node_path_of(n: TreeNode) -> Seq<char> {
    match n {
        TreeNode::File(f) => f.path@,
        TreeNode::Directory(d) => d.path@,
    }
}

pub open spec fn is_file_named(n: TreeNode, p: Seq<char>) -> bool {
    match n {
        TreeNode::File(f) => f.path@ == p,
        TreeNode::Directory(_) => false,
    }
}

/// Whether a directory holds, as a direct child, a file with this path.
pub open spec fn holds_file(d: DirectoryNode, p: Seq<char>) -> bool {
    exists|j: int| 0 <= j < d.children.len() && is_file_named(#[trigger] d.children[j], p)
}

pub open spec fn is_dir_named(n: TreeNode, p: Seq<char>) -> bool {
    match n {
        TreeNode::Directory(d) => d.path@ == p,
        TreeNode::File(_) => false,
    }
}

/// The first index at or after `k` of a directory child with this path.
pub open spec fn first_dir_from(s: Seq<TreeNode>, p: Seq<char>, k: int) -> Option<int>
    decreases s.len() - k,
{
    if k < 0 || k >= s.len() {
        None
    } else if is_dir_named(s[k], p) {
        Some(k)
    } else {
        first_dir_from(s, p, k + 1)
    }
}

/// Files that are likely new among the first `i` children of a directory of the
/// new tree, against its counterpart `prev` in the previous tree.
///
/// A file child is new when `prev` has no file child of the same path. A
/// directory child is matched with the first directory child of `prev` of the
/// same path: it is searched only when the two descendant counts differ, and
/// when there is no such counterpart, every file below it is new.
pub open spec fn diff_children(v: Vec<TreeNode>, prev: DirectoryNode, i: int) -> Seq<Seq<char>>
    decreases v, i,
{
    if i <= 0 || i > v.len() {
        Seq::empty()
    } else {
        diff_children(v, prev, i - 1) + match v[i - 1] {
            TreeNode::File(f) => if holds_file(prev, f.path@) {
                Seq::empty()
            } else {
                seq![f.path@]
            },
            TreeNode::Directory(c) => match first_dir_from(prev.children@, c.path@, 0) {
                Some(j) => match prev.children[j] {
                    TreeNode::Directory(m) => if c.children_count != m.children_count {
                        diff_children(c.children, m, c.children.len() as int)
                    } else {
                        Seq::empty()
                    },
                    TreeNode::File(_) => Seq::empty(),
                },
                None => files_of_children(c.children, c.children.len() as int),
            },
        }
    }
}

/// Files of the new tree that are likely new against the old one: none when the
/// two roots record the same number of descendant files.
pub open spec fn diff_nodes(current: TreeNode, previous: TreeNode) -> Seq<Seq<char>> {
    match (current, previous) {
        (TreeNode::Directory(d1), TreeNode::Directory(d2)) => if d1.children_count
            != d2.children_count {
            diff_children(d1.children, d2, d1.children.len() as int)
        } else {
            Seq::empty()
        },
        _ => Seq::empty(),
    }
}

pub proof fn lemma_first_dir_from(s: Seq<TreeNode>, p: Seq<char>, k: int)
    ensures
        first_dir_from(s, p, k) matches Some(j) ==> k <= j < s.len() && is_dir_named(s[j], p),
    decreases s.len() - k,
{
    if 0 <= k < s.len() && !is_dir_named(s[k], p) {
        lemma_first_dir_from(s, p, k + 1);
    }
}

pub proof fn lemma_files_of_children_monotonic(v: Vec<TreeNode>, i: int, j: int)
    requires
        0 <= i <= j <= v.len(),
    ensures
        files_of_children(v, i).len() <= files_of_children(v, j).len(),
    decreases j,
{
    if i < j {
        lemma_files_of_children_monotonic(v, i, j - 1);
    }
}

/// The files and the well-formedness of the first `i` children depend on those
/// children alone.
pub proof fn lemma_children_prefix(v1: Vec<TreeNode>, v2: Vec<TreeNode>, i: int)
    requires
        0 <= i <= v1.len(),
        i <= v2.len(),
        forall|k: int| 0 <= k < i ==> v1[k] == v2[k],
    ensures
        files_of_children(v1, i) == files_of_children(v2, i),
        children_wf(v1, i) == children_wf(v2, i),
    decreases i,
{
    if i > 0 {
        lemma_children_prefix(v1, v2, i - 1);
    }
}

impl FileNode {
    pub fn new(path: String) -> (r: FileNode)
        ensures
            r.path == path,
    {
        FileNode { path }
    }
}

impl DirectoryNode {
    pub fn new(path: String, children: Vec<TreeNode>, children_count: usize) -> (r: DirectoryNode)
        ensures
            r.path == path,
            r.children == children,
            r.children_count == children_count,
    {
        DirectoryNode { path, children_count, children }
    }
}

fn copy_file_node(f: &FileNode) -> (r: FileNode)
    ensures
        r.path@ == f.path@,
{
    FileNode { path: f.path.clone() }
}

impl TreeNode {
    /// Appends `node` to a directory's children and records the new number of
    /// descendant files; a file node is left as it is.
    pub fn add_node(&mut self, node: TreeNode)
        requires
            is_directory(*old(self)) ==> descendants((*old(self))->Directory_0.children)
                + node_files(node).len() <= usize::MAX,
        ensures
            match *old(self) {
                TreeNode::Directory(d) => is_directory(*final(self))
                    && (*final(self))->Directory_0.path == d.path
                    && (*final(self))->Directory_0.children@ == d.children@.push(node)
                    && (*final(self))->Directory_0.children_count == descendants(
                    (*final(self))->Directory_0.children,
                ),
                TreeNode::File(_) => *final(self) == *old(self),
            },
    {
        match self {
            TreeNode::Directory(directory_node) => {
                let ghost before = directory_node.children;
                directory_node.children.push(node);
                proof {
                    let after = directory_node.children;
                    lemma_children_prefix(before, after, before.len() as int);
                    assert(files_of_children(after, after.len() as int) == files_of_children(
                        before,
                        before.len() as int,
                    ) + node_files(node));
                }
                directory_node.children_count = TreeNode::count_descendants(&directory_node.children);
            },
            TreeNode::File(_) => {},
        }
    }

    /// The number of files below `children`, at any depth.
    pub fn count_descendants(children: &Vec<TreeNode>) -> (r: usize)
        requires
            descendants(*children) <= usize::MAX,
        ensures
            r == descendants(*children),
        decreases children,
    {
        let mut acc: usize = 0;
        let mut i: usize = 0;
        while i < children.len()
            invariant
                i <= children.len(),
                acc == files_of_children(*children, i as int).len(),
                descendants(*children) <= usize::MAX,
            decreases children.len() - i,
        {
            proof {
                lemma_files_of_children_monotonic(*children, i + 1, children.len() as int);
            }
            match &children[i] {
                TreeNode::File(_) => {
                    acc = acc + 1;
                },
                TreeNode::Directory(node) => {
                    let n = TreeNode::count_descendants(&node.children);
                    acc = acc + n;
                },
            }
            i = i + 1;
        }
        acc
    }
}

/// The path of a node, file or directory.
pub fn get_node_path(node: &TreeNode) -> (r: &String)
    ensures
        r@ == node_path_of(*node),
{
    match node {
        TreeNode::File(file_node) => &file_node.path,
        TreeNode::Directory(dir_node) => &dir_node.path,
    }
}

/// Whether `dir` holds, as a direct child, a file with the path of `file_node`.
pub fn dir_contains_file(dir: &DirectoryNode, file_node: &FileNode) -> (r: bool)
    ensures
        r == holds_file(*dir, file_node.path@),
{
    let mut i: usize = 0;
    while i < dir.children.len()
        invariant
            i <= dir.children.len(),
            forall|j: int| 0 <= j < i ==> !is_file_named(#[trigger] dir.children[j], file_node.path@),
        decreases dir.children.len() - i,
    {
        match &dir.children[i] {
            TreeNode::File(f) => {
                if f.path == file_node.path {
                    return true;
                }
            },
            TreeNode::Directory(_) => {},
        }
        i = i + 1;
    }
    false
}

/// The index of the first directory child of `dir` with the path `p`.
fn find_directory(dir: &DirectoryNode, p: &String) -> (r: Option<usize>)
    ensures
        match r {
            Some(j) => first_dir_from(dir.children@, p@, 0) == Some(j as int),
            None => first_dir_from(dir.children@, p@, 0) is None,
        },
{
    let mut k: usize = 0;
    while k < dir.children.len()
        invariant
            k <= dir.children.len(),
            first_dir_from(dir.children@, p@, 0) == first_dir_from(dir.children@, p@, k as int),
        decreases dir.children.len() - k,
    {
        match &dir.children[k] {
            TreeNode::Directory(d) => {
                if d.path == *p {
                    return Some(k);
                }
            },
            TreeNode::File(_) => {},
        }
        k = k + 1;
    }
    None
}

/// Appends every file below the first children to `out`, depth-first.
fn flatten_children(children: &Vec<TreeNode>, out: &mut Vec<FileNode>)
    ensures
        file_paths(final(out)@) == file_paths(old(out)@) + files_of_children(
            *children,
            children.len() as int,
        ),
    decreases children,
{
    let mut i: usize = 0;
    while i < children.len()
        invariant
            i <= children.len(),
            file_paths(out@) == file_paths(old(out)@) + files_of_children(*children, i as int),
        decreases children.len() - i,
    {
        let ghost before = out@;
        match &children[i] {
            TreeNode::File(f) => {
                out.push(copy_file_node(f));
                assert(file_paths(out@) =~= file_paths(before) + seq![f.path@]);
            },
            TreeNode::Directory(d) => {
                flatten_children(&d.children, out);
            },
        }
        assert(file_paths(out@) =~= file_paths(old(out)@) + files_of_children(*children, i + 1));
        i = i + 1;
    }
}

/// Every file of `node`, depth-first.
pub fn flatten_directory(node: &TreeNode) -> (r: Vec<FileNode>)
    ensures
        file_paths(r@) == node_files(*node),
{
    let mut files: Vec<FileNode> = Vec::new();
    match node {
        TreeNode::File(file_node) => {
            files.push(copy_file_node(file_node));
            assert(file_paths(files@) =~= node_files(*node));
        },
        TreeNode::Directory(dir_node) => {
            flatten_children(&dir_node.children, &mut files);
            assert(file_paths(files@) =~= node_files(*node));
        },
    }
    files
}

/// Appends the likely new files among `children` against `prev` to `unique_files`.
fn compare_children(children: &Vec<TreeNode>, prev: &DirectoryNode, unique_files: &mut Vec<FileNode>)
    ensures
        file_paths(final(unique_files)@) == file_paths(old(unique_files)@) + diff_children(
            *children,
            *prev,
            children.len() as int,
        ),
    decreases children,
{
    let mut i: usize = 0;
    while i < children.len()
        invariant
            i <= children.len(),
            file_paths(unique_files@) == file_paths(old(unique_files)@) + diff_children(
                *children,
                *prev,
                i as int,
            ),
        decreases children.len() - i,
    {
        let ghost before = unique_files@;
        let child = &children[i];
        match child {
            TreeNode::File(file_node) => {
                if !dir_contains_file(prev, file_node) {
                    unique_files.push(copy_file_node(file_node));
                    assert(file_paths(unique_files@) =~= file_paths(before) + seq![file_node.path@]);
                } else {
                    assert(file_paths(unique_files@) =~= file_paths(before) + Seq::empty());
                }
            },
            TreeNode::Directory(c) => {
                let found = find_directory(prev, &c.path);
                proof {
                    lemma_first_dir_from(prev.children@, c.path@, 0);
                }
                match found {
                    Some(j) => {
                        match &prev.children[j] {
                            TreeNode::Directory(m) => {
                                if c.children_count != m.children_count {
                                    compare_children(&c.children, m, unique_files);
                                }
                            },
                            TreeNode::File(_) => {},
                        }
                    },
                    None => {
                        flatten_children(&c.children, unique_files);
                    },
                }
            },
        }
        assert(file_paths(unique_files@) =~= file_paths(old(unique_files)@) + diff_children(
            *children,
            *prev,
            i + 1,
        ));
        i = i + 1;
    }
}

/// Appends to `unique_files` the files of `tn1` that are likely new against the
/// previous snapshot `tn2`.
pub fn compare_directory_nodes(tn1: &TreeNode, tn2: &TreeNode, unique_files: &mut Vec<FileNode>)
    requires
        is_directory(*tn1),
        is_directory(*tn2),
    ensures
        file_paths(final(unique_files)@) == file_paths(old(unique_files)@) + diff_nodes(*tn1, *tn2),
{
    match (tn1, tn2) {
        (TreeNode::Directory(dir1), TreeNode::Directory(dir2)) => {
            if dir1.children_count != dir2.children_count {
                compare_children(&dir1.children, dir2, unique_files);
            } else {
                assert(file_paths(unique_files@) =~= file_paths(old(unique_files)@) + diff_nodes(
                    *tn1,
                    *tn2,
                ));
            }
        },
        _ => {},
    }
}

/// The files of the new snapshot `tn1` that are likely new against the previous
/// snapshot `tn2`, in traversal order.
pub fn find_unique_files_in_directory(tn1: &TreeNode, tn2: &TreeNode) -> (r: Vec<FileNode>)
    requires
        is_directory(*tn1),
        is_directory(*tn2),
    ensures
        file_paths(r@) == diff_nodes(*tn1, *tn2),
{
    let mut unique_files: Vec<FileNode> = Vec::new();
    compare_directory_nodes(tn1, tn2, &mut unique_files);
    assert(file_paths(unique_files@) =~= diff_nodes(*tn1, *tn2));
    unique_files
}

/// The first `ti` nodes of `tv` stand, in order, for what the snapshot keeps of
/// the first `ei` entries of a listing: a node for each media file, and a
/// directory node of the same path, standing in turn for its entries, for each
/// readable directory. Other entries leave no node.
pub open spec fn mirrors_children(tv: Vec<TreeNode>, ti: int, ev: Vec<FsEntry>, ei: int) -> bool
    decreases ev, ei,
{
    if ei <= 0 || ei > ev.len() {
        ti == 0
    } else {
        match ev[ei - 1] {
            FsEntry::File(p) => if is_media_path(p@) {
                &&& 0 < ti <= tv.len()
                &&& is_file_named(tv[ti - 1], p@)
                &&& mirrors_children(tv, ti - 1, ev, ei - 1)
            } else {
                mirrors_children(tv, ti, ev, ei - 1)
            },
            FsEntry::Directory(p, es) => {
                &&& 0 < ti <= tv.len()
                &&& match tv[ti - 1] {
                    TreeNode::Directory(d) => d.path@ == p@ && mirrors_children(
                        d.children,
                        d.children.len() as int,
                        es,
                        es.len() as int,
                    ),
                    TreeNode::File(_) => false,
                }
                &&& mirrors_children(tv, ti - 1, ev, ei - 1)
            },
            _ => mirrors_children(tv, ti, ev, ei - 1),
        }
    }
}

proof fn lemma_mirrors_prefix(tv1: Vec<TreeNode>, tv2: Vec<TreeNode>, ti: int, ev: Vec<FsEntry>, ei: int)
    requires
        0 <= ti <= tv1.len(),
        ti <= tv2.len(),
        forall|k: int| 0 <= k < ti ==> tv1[k] == tv2[k],
    ensures
        mirrors_children(tv1, ti, ev, ei) == mirrors_children(tv2, ti, ev, ei),
    decreases ei,
{
    if 0 < ei <= ev.len() {
        match ev[ei - 1] {
            FsEntry::File(p) => if is_media_path(p@) {
                if ti > 0 {
                    lemma_mirrors_prefix(tv1, tv2, ti - 1, ev, ei - 1);
                }
            } else {
                lemma_mirrors_prefix(tv1, tv2, ti, ev, ei - 1);
            },
            FsEntry::Directory(_, _) => {
                if ti > 0 {
                    lemma_mirrors_prefix(tv1, tv2, ti - 1, ev, ei - 1);
                }
            },
            _ => {
                lemma_mirrors_prefix(tv1, tv2, ti, ev, ei - 1);
            },
        }
    }
}

/// The snapshot of one readable directory: its media files and readable
/// subdirectories, each directory with its count of descendant files.
fn build_directory(path: &String, entries: &Vec<FsEntry>) -> (r: TreeNode)
    requires
        entries_media(*entries, entries.len() as int).len() <= usize::MAX,
    ensures
        is_directory(r),
        node_wf(r),
        node_path_of(r) == path@,
        node_files(r) == entries_media(*entries, entries.len() as int),
        r matches TreeNode::Directory(d) && mirrors_children(
            d.children,
            d.children.len() as int,
            *entries,
            entries.len() as int,
        ),
    decreases entries,
{
    let mut node = TreeNode::Directory(DirectoryNode::new(path.clone(), Vec::new(), 0));
    assert(node_files(node) =~= entries_media(*entries, 0));
    let mut i: usize = 0;
    while i < entries.len()
        invariant
            i <= entries.len(),
            entries_media(*entries, entries.len() as int).len() <= usize::MAX,
            is_directory(node),
            node_wf(node),
            node_path_of(node) == path@,
            node_files(node) == entries_media(*entries, i as int),
            node matches TreeNode::Directory(d) && mirrors_children(
                d.children,
                d.children.len() as int,
                *entries,
                i as int,
            ),
        decreases entries.len() - i,
    {
        proof {
            lemma_entries_media_monotonic(*entries, i + 1, entries.len() as int);
        }
        let ghost before = node;
        match &entries[i] {
            FsEntry::File(p) => {
                if FileExtension::from(p.as_str()) != FileExtension::Unknown {
                    let leaf = TreeNode::File(FileNode::new(p.clone()));
                    node.add_node(leaf);
                    proof {
                        let c0 = before->Directory_0.children;
                        let c1 = node->Directory_0.children;
                        lemma_children_prefix(c0, c1, c0.len() as int);
                        lemma_mirrors_prefix(c0, c1, c0.len() as int, *entries, i as int);
                    }
                }
            },
            FsEntry::Directory(sub_path, sub_entries) => {
                let sub_tree = build_directory(sub_path, sub_entries);
                node.add_node(sub_tree);
                proof {
                    let c0 = before->Directory_0.children;
                    let c1 = node->Directory_0.children;
                    lemma_children_prefix(c0, c1, c0.len() as int);
                    lemma_mirrors_prefix(c0, c1, c0.len() as int, *entries, i as int);
                }
            },
            _ => {},
        }
        i = i + 1;
    }
    node
}

/// The snapshot of a listing whose root is a readable directory; `None` for any
/// other root. Unreadable subdirectories, other entries and files that are not
/// media files are left out.
pub fn get_files_in_directory(listing: &FsEntry) -> (r: Option<TreeNode>)
    requires
        entry_media(*listing).len() <= usize::MAX,
    ensures
        r is Some <==> listing is Directory,
        r matches Some(t) ==> is_directory(t) && node_wf(t) && node_path_of(t)
            == listing->Directory_0@ && node_files(t) == entry_media(*listing) && mirrors_children(
            t->Directory_0.children,
            t->Directory_0.children.len() as int,
            listing->Directory_1,
            listing->Directory_1.len() as int,
        ),
{
    match listing {
        FsEntry::Directory(path, entries) => Some(build_directory(path, entries)),
        _ => None,
    }
}

/// The likely new files of this run: those of `current` that are likely new
/// against the snapshot of the previous run. With no previous snapshot, or one
/// whose root is not a directory, there are no hints.
pub fn get_newest_files(previous: Option<&TreeNode>, current: &TreeNode) -> (r: Vec<String>)
    requires
        is_directory(*current),
    ensures
        strings_view(r@) == match previous {
            Some(p) => if is_directory(*p) {
                diff_nodes(*current, *p)
            } else {
                Seq::empty()
            },
            None => Seq::empty(),
        },
{
    let mut paths: Vec<String> = Vec::new();
    match previous {
        Some(p) => {
            if let TreeNode::Directory(_) = p {
                let unique = find_unique_files_in_directory(current, p);
                let mut i: usize = 0;
                while i < unique.len()
                    invariant
                        i <= unique@.len(),
                        strings_view(paths@) == file_paths(unique@.subrange(0, i as int)),
                    decreases unique@.len() - i,
                {
                    let ghost before = paths@;
                    paths.push(unique[i].path.clone());
                    assert(strings_view(paths@) =~= strings_view(before).push(
                        unique@[i as int].path@,
                    ));
                    assert(file_paths(unique@.subrange(0, i + 1)) =~= file_paths(
                        unique@.subrange(0, i as int),
                    ).push(unique@[i as int].path@));
                    i = i + 1;
                }
                assert(unique@.subrange(0, unique@.len() as int) =~= unique@);
            } else {
                assert(strings_view(paths@) =~= Seq::<Seq<char>>::empty());
            }
        },
        None => {
            assert(strings_view(paths@) =~= Seq::<Seq<char>>::empty());
        },
    }
    paths
}

/// A second run over an unmodified tree finds no likely new files: two
/// snapshots that hold the same files, each recording true descendant counts,
/// differ in nothing that the diff looks at.
pub proof fn lemma_unchanged_tree_has_no_new_files(current: TreeNode, previous: TreeNode)
    requires
        is_directory(current),
        is_directory(previous),
        node_wf(current),
        node_wf(previous),
        node_files(current) == node_files(previous),
    ensures
        diff_nodes(current, previous) == Seq::<Seq<char>>::empty(),
{
}

/// No two directory children of `d` have the same path, as in any real
/// directory.
pub open spec fn dir_paths_unique(d: DirectoryNode) -> bool {
    forall|i: int, j: int|
        0 <= i < j < d.children.len() && is_directory(#[trigger] d.children[i]) && is_directory(
            #[trigger] d.children[j],
        ) ==> node_path_of(d.children[i]) != node_path_of(d.children[j])
}

/// `current` is `previous` with one file, of path `f`, added in the directory
/// that `route` leads to (a sequence of child indices), all else untouched.
/// Along the way, directories of `previous` have distinct paths, and the target
/// directory had no file of that path.
pub open spec fn one_file_added(
    current: DirectoryNode,
    previous: DirectoryNode,
    route: Seq<int>,
    f: Seq<char>,
) -> bool
    decreases route.len(),
{
    &&& current.path@ == previous.path@
    &&& dir_paths_unique(previous)
    &&& if route.len() == 0 {
        &&& current.children.len() == previous.children.len() + 1
        &&& forall|j: int| 0 <= j < previous.children.len() ==> current.children[j] == previous.children[j]
        &&& is_file_named(current.children[previous.children.len() as int], f)
        &&& !holds_file(previous, f)
    } else {
        let k = route[0];
        &&& 0 <= k < previous.children.len()
        &&& current.children.len() == previous.children.len()
        &&& forall|j: int| 0 <= j < previous.children.len() && j != k ==> current.children[j] == previous.children[j]
        &&& current.children[k] is Directory
        &&& previous.children[k] is Directory
        &&& one_file_added(
            current.children[k]->Directory_0,
            previous.children[k]->Directory_0,
            route.drop_first(),
            f,
        )
    }
}

proof fn lemma_first_dir_upto(s: Seq<TreeNode>, p: Seq<char>, k: int, j: int)
    requires
        0 <= k <= j < s.len(),
        is_dir_named(s[j], p),
        forall|i: int| k <= i < j ==> !is_dir_named(#[trigger] s[i], p),
    ensures
        first_dir_from(s, p, k) == Some(j),
    decreases j - k,
{
    if k < j {
        lemma_first_dir_upto(s, p, k + 1, j);
    }
}

/// In a directory whose directory children have distinct paths, the
/// counterpart search finds a directory child by its own path.
proof fn lemma_first_dir_unique(d: DirectoryNode, j: int)
    requires
        dir_paths_unique(d),
        0 <= j < d.children.len(),
        is_directory(d.children[j]),
    ensures
        first_dir_from(d.children@, node_path_of(d.children[j]), 0) == Some(j),
{
    let p = node_path_of(d.children[j]);
    assert forall|i: int| 0 <= i < j implies !is_dir_named(#[trigger] d.children@[i], p) by {
        if is_dir_named(d.children@[i], p) {
            assert(is_directory(d.children[i]));
            assert(node_path_of(d.children[i]) == p);
        }
    }
    lemma_first_dir_upto(d.children@, p, 0, j);
}

/// Children that `v` shares with `prev` at the same index contribute nothing
/// to the diff.
proof fn lemma_diff_shared_children(v: Vec<TreeNode>, prev: DirectoryNode, a: int, i: int)
    requires
        0 <= a <= i <= v.len(),
        i <= prev.children.len(),
        dir_paths_unique(prev),
        forall|j: int| a <= j < i ==> v[j] == prev.children[j],
    ensures
        diff_children(v, prev, i) == diff_children(v, prev, a),
    decreases i - a,
{
    if a < i {
        lemma_diff_shared_children(v, prev, a, i - 1);
        let x = v[i - 1];
        match x {
            TreeNode::File(fnode) => {
                assert(is_file_named(prev.children[i - 1], fnode.path@));
                assert(holds_file(prev, fnode.path@));
            },
            TreeNode::Directory(c) => {
                lemma_first_dir_unique(prev, i - 1);
            },
        }
        assert(diff_children(v, prev, i) =~= diff_children(v, prev, i - 1));
    }
}

/// Well-formed children record true counts at every index.
proof fn lemma_children_wf_at(v: Vec<TreeNode>, i: int, j: int)
    requires
        children_wf(v, i),
        0 <= j < i <= v.len(),
    ensures
        v[j] matches TreeNode::Directory(d) ==> d.children_count == descendants(d.children)
            && children_wf(d.children, d.children.len() as int),
    decreases i,
{
    if j < i - 1 {
        lemma_children_wf_at(v, i - 1, j);
    }
}

/// Children that differ from `w` at index `k` alone, where they hold one file
/// more, hold one file more in all.
proof fn lemma_one_more_file(v: Vec<TreeNode>, w: Vec<TreeNode>, k: int, i: int)
    requires
        v.len() == w.len(),
        0 <= k < i <= v.len(),
        forall|j: int| 0 <= j < v.len() && j != k ==> v[j] == w[j],
        v[k] is Directory,
        w[k] is Directory,
        descendants(v[k]->Directory_0.children) == descendants(w[k]->Directory_0.children) + 1,
    ensures
        files_of_children(v, i).len() == files_of_children(w, i).len() + 1,
    decreases i,
{
    if i - 1 > k {
        lemma_one_more_file(v, w, k, i - 1);
    } else {
        lemma_children_prefix(v, w, k);
    }
}

/// After one file is added below a directory, the directory holds one file
/// more, and the diff against its previous state reports exactly that file.
proof fn lemma_added_file_found(
    current: DirectoryNode,
    previous: DirectoryNode,
    route: Seq<int>,
    f: Seq<char>,
)
    requires
        one_file_added(current, previous, route, f),
        children_wf(current.children, current.children.len() as int),
        children_wf(previous.children, previous.children.len() as int),
    ensures
        descendants(current.children) == descendants(previous.children) + 1,
        diff_children(current.children, previous, current.children.len() as int) == seq![f],
    decreases route.len(),
{
    let v = current.children;
    let n = previous.children.len() as int;
    if route.len() == 0 {
        lemma_children_prefix(v, previous.children, n);
        lemma_diff_shared_children(v, previous, 0, n);
        assert(diff_children(v, previous, n + 1) =~= seq![f]);
    } else {
        let k = route[0];
        let c = v[k]->Directory_0;
        let m = previous.children[k]->Directory_0;
        lemma_children_wf_at(v, v.len() as int, k);
        lemma_children_wf_at(previous.children, n, k);
        lemma_added_file_found(c, m, route.drop_first(), f);
        lemma_one_more_file(v, previous.children, k, n);
        lemma_diff_shared_children(v, previous, 0, k);
        lemma_first_dir_unique(previous, k);
        assert(c.path@ == m.path@) by {
            reveal_with_fuel(one_file_added, 2);
        }
        assert(node_path_of(previous.children[k]) == c.path@);
        assert(diff_children(v, previous, k + 1) =~= seq![f]);
        lemma_diff_shared_children(v, previous, k + 1, n);
    }
}

/// Adding one file under a subdirectory raises the descendant count of that
/// directory and of every ancestor, so the diff descends into exactly that
/// path and reports the new file, and nothing else: sibling directories with
/// unchanged counts are skipped.
pub proof fn lemma_added_file_is_reported(
    current: TreeNode,
    previous: TreeNode,
    route: Seq<int>,
    f: Seq<char>,
)
    requires
        current is Directory,
        previous is Directory,
        node_wf(current),
        node_wf(previous),
        one_file_added(current->Directory_0, previous->Directory_0, route, f),
    ensures
        diff_nodes(current, previous) == seq![f],
{
    lemma_added_file_found(current->Directory_0, previous->Directory_0, route, f);
}

} // verus!
