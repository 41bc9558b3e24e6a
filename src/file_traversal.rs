//! The candidate files of a run: the media files of a directory listing, and
//! the order in which they are handed out.
use vstd::prelude::*;
use crate::file_extension::{is_media_path, kind_of_path, mime_of, FileExtension};
use crate::path_data::{chars_view, lower_all, owner_of, segments, split_segments, tags_of, PathData};
use crate::remote_index::{class_of, DedupClass, RemoteIndex};
use crate::text::{chars_of, lowercase, slice_chars, string_of};
use crate::upload_status::{outcome_of, UploadStatus};

verus! {

/// One entry of a recursive directory listing, as the file system gave it.
#[derive(Debug)]
pub enum FsEntry {
    /// A regular file.
    File(String),
    /// A directory that could be read, with its entries in listing order.
    Directory(String, Vec<FsEntry>),
    /// A directory whose entries could not be read.
    Unreadable(String),
    /// Anything else: a socket, a device, a dangling link.
    Other(String),
}

/// The views of a sequence of strings.
pub open spec fn strings_view(v: Seq<String>) -> Seq<Seq<char>> {
    v.map_values(|s: String| s@)
}

/// The media files below the first `i` entries, depth-first, in listing order.
pub open spec fn entries_media(v: Vec<FsEntry>, i: int) -> Seq<Seq<char>>
    decreases v, i,
{
    if i <= 0 || i > v.len() {
        Seq::empty()
    } else {
        entries_media(v, i - 1) + match v[i - 1] {
            FsEntry::File(p) => if is_media_path(p@) {
                seq![p@]
            } else {
                Seq::empty()
            },
            FsEntry::Directory(_, es) => entries_media(es, es.len() as int),
            _ => Seq::empty(),
        }
    }
}

/// The media files of a listing, depth-first, in listing order.
pub open spec fn entry_media(e: FsEntry) -> Seq<Seq<char>> {
    match e {
        FsEntry::File(p) => if is_media_path(p@) {
            seq![p@]
        } else {
            Seq::empty()
        },
        FsEntry::Directory(_, es) => entries_media(es, es.len() as int),
        _ => Seq::empty(),
    }
}

/// The unreadable directories below the first `i` entries, in listing order.
pub open spec fn entries_unreadable(v: Vec<FsEntry>, i: int) -> Seq<Seq<char>>
    decreases v, i,
{
    if i <= 0 || i > v.len() {
        Seq::empty()
    } else {
        entries_unreadable(v, i - 1) + match v[i - 1] {
            FsEntry::Unreadable(p) => seq![p@],
            FsEntry::Directory(_, es) => entries_unreadable(es, es.len() as int),
            _ => Seq::empty(),
        }
    }
}

/// The unreadable directories of a listing, the listing's own root included.
pub open spec fn entry_unreadable(e: FsEntry) -> Seq<Seq<char>> {
    match e {
        FsEntry::Unreadable(p) => seq![p@],
        FsEntry::Directory(_, es) => entries_unreadable(es, es.len() as int),
        _ => Seq::empty(),
    }
}

pub proof fn lemma_entries_media_monotonic(v: Vec<FsEntry>, i: int, j: int)
    requires
        0 <= i <= j <= v.len(),
    ensures
        entries_media(v, i).len() <= entries_media(v, j).len(),
    decreases j,
{
    if i < j {
        lemma_entries_media_monotonic(v, i, j - 1);
    }
}

/// The outcome of a scan: the media files found, and the directories that could
/// not be read (their subtrees were skipped).
pub struct ScanResult {
    pub files: Vec<String>,
    pub unreadable: Vec<String>,
}

fn scan_entries(entries: &Vec<FsEntry>, files: &mut Vec<String>, unreadable: &mut Vec<String>)
    ensures
        strings_view(final(files)@) == strings_view(old(files)@) + entries_media(
            *entries,
            entries.len() as int,
        ),
        strings_view(final(unreadable)@) == strings_view(old(unreadable)@) + entries_unreadable(
            *entries,
            entries.len() as int,
        ),
    decreases entries,
{
    let mut i: usize = 0;
    while i < entries.len()
        invariant
            i <= entries.len(),
            strings_view(files@) == strings_view(old(files)@) + entries_media(*entries, i as int),
            strings_view(unreadable@) == strings_view(old(unreadable)@) + entries_unreadable(
                *entries,
                i as int,
            ),
        decreases entries.len() - i,
    {
        let ghost files_before = files@;
        let ghost unreadable_before = unreadable@;
        match &entries[i] {
            FsEntry::File(p) => {
                if FileExtension::from(p.as_str()) != FileExtension::Unknown {
                    files.push(p.clone());
                    assert(strings_view(files@) =~= strings_view(files_before) + seq![p@]);
                } else {
                    assert(strings_view(files@) =~= strings_view(files_before) + Seq::empty());
                }
                assert(strings_view(unreadable@) =~= strings_view(unreadable_before)
                    + Seq::empty());
            },
            FsEntry::Directory(_, es) => {
                scan_entries(es, files, unreadable);
            },
            FsEntry::Unreadable(p) => {
                unreadable.push(p.clone());
                assert(strings_view(unreadable@) =~= strings_view(unreadable_before) + seq![p@]);
                assert(strings_view(files@) =~= strings_view(files_before) + Seq::empty());
            },
            FsEntry::Other(_) => {
                assert(strings_view(unreadable@) =~= strings_view(unreadable_before)
                    + Seq::empty());
                assert(strings_view(files@) =~= strings_view(files_before) + Seq::empty());
            },
        }
        assert(strings_view(files@) =~= strings_view(old(files)@) + entries_media(
            *entries,
            i + 1,
        ));
        assert(strings_view(unreadable@) =~= strings_view(old(unreadable)@) + entries_unreadable(
            *entries,
            i + 1,
        ));
        i = i + 1;
    }
}

/// The media files of a listing, depth-first in listing order, and the
/// directories that could not be read. An unreadable directory costs only its
/// own subtree.
pub fn get_files_in_directory(listing: &FsEntry) -> (r: ScanResult)
    ensures
        strings_view(r.files@) == entry_media(*listing),
        strings_view(r.unreadable@) == entry_unreadable(*listing),
{
    let mut files: Vec<String> = Vec::new();
    let mut unreadable: Vec<String> = Vec::new();
    match listing {
        FsEntry::File(p) => {
            if FileExtension::from(p.as_str()) != FileExtension::Unknown {
                files.push(p.clone());
            }
        },
        FsEntry::Directory(_, es) => {
            scan_entries(es, &mut files, &mut unreadable);
        },
        FsEntry::Unreadable(p) => {
            unreadable.push(p.clone());
        },
        FsEntry::Other(_) => {},
    }
    assert(strings_view(files@) =~= entry_media(*listing));
    assert(strings_view(unreadable@) =~= entry_unreadable(*listing));
    ScanResult { files, unreadable }
}

/// Why a path could not be read as a file below the root.
#[derive(Debug, PartialEq, Eq, Structural, Clone, Copy)]
pub enum PathError {
    /// The path does not start with the root.
    OutsideRoot,
    /// Nothing but separators follows the root: there is no file name.
    NoFileName,
}

pub open spec fn under_root(path: Seq<char>, root: Seq<char>) -> bool {
    root.len() <= path.len() && path.subrange(0, root.len() as int) == root
}

/// The part of a path that follows the root.
pub open spec fn relative_of(path: Seq<char>, root: Seq<char>) -> Seq<char> {
    path.subrange(root.len() as int, path.len() as int)
}

fn starts_with(p: &Vec<char>, prefix: &Vec<char>) -> (r: bool)
    ensures
        r == under_root(p@, prefix@),
{
    if prefix.len() > p.len() {
        return false;
    }
    let mut i: usize = 0;
    while i < prefix.len()
        invariant
            prefix@.len() <= p@.len(),
            i <= prefix@.len(),
            forall|j: int| 0 <= j < i ==> p@[j] == prefix@[j],
        decreases prefix@.len() - i,
    {
        if p[i] != prefix[i] {
            assert(p@.subrange(0, prefix@.len() as int)[i as int] != prefix@[i as int]);
            return false;
        }
        i = i + 1;
    }
    assert(p@.subrange(0, prefix@.len() as int) =~= prefix@);
    true
}

/// Whether `name` is one of `users`.
pub fn contains_string(users: &[String], name: &String) -> (r: bool)
    ensures
        r == strings_view(users@).contains(name@),
{
    let mut i: usize = 0;
    while i < users.len()
        invariant
            i <= users@.len(),
            forall|j: int| 0 <= j < i ==> users@[j]@ != name@,
        decreases users@.len() - i,
    {
        if users[i] == *name {
            assert(strings_view(users@)[i as int] == name@);
            return true;
        }
        i = i + 1;
    }
    assert forall|j: int| 0 <= j < strings_view(users@).len() implies strings_view(users@)[j]
        != name@ by {
        assert(users@[j]@ != name@);
    }
    false
}

/// Describes the file at `path` below `root`, with its content `file_buffer`.
///
/// The segments below the root give the file name (the last one), the owner
/// (the first one, when it is a directory named in `acceptable_users`; else
/// the default owner) and the tags (the directories between the two, lower-cased).
pub fn read_file(path: &str, root: &str, acceptable_users: &[String], file_buffer: Vec<u8>) -> (r:
    Result<PathData, PathError>)
    ensures
        !under_root(path@, root@) ==> r == Err::<PathData, PathError>(PathError::OutsideRoot),
        under_root(path@, root@) && segments(relative_of(path@, root@)).len() == 0 ==> r == Err::<
            PathData,
            PathError,
        >(PathError::NoFileName),
        under_root(path@, root@) && segments(relative_of(path@, root@)).len() > 0 ==> r is Ok,
        r matches Ok(d) ==> {
            let segs = segments(relative_of(path@, root@));
            &&& d.absolute_path@ == path@
            &&& d.relative_path@ == relative_of(path@, root@)
            &&& d.filename@ == segs.last()
            &&& d.username@ == owner_of(segs, strings_view(acceptable_users@))
            &&& strings_view(d.tags@) == tags_of(segs)
            &&& d.mime_type@ == mime_of(kind_of_path(path@))
            &&& d.file_buffer@ == file_buffer@
        },
{
    let p = chars_of(path);
    let rt = chars_of(root);
    if !starts_with(&p, &rt) {
        return Err(PathError::OutsideRoot);
    }
    let rel = slice_chars(&p, rt.len(), p.len());
    let segs = split_segments(&rel);
    let n = segs.len();
    if n == 0 {
        return Err(PathError::NoFileName);
    }
    let ghost sv = chars_view(segs@);
    assert(sv[n - 1] == segs@[n - 1]@);
    let filename = string_of(&segs[n - 1]);
    let username = if n >= 2 {
        let candidate = string_of(&segs[0]);
        assert(sv[0] == segs@[0]@);
        if contains_string(acceptable_users, &candidate) {
            candidate
        } else {
            String::from_str("Default_Uploader")
        }
    } else {
        String::from_str("Default_Uploader")
    };
    let mut tags: Vec<String> = Vec::new();
    if n >= 2 {
        let mut j: usize = 1;
        while j < n - 1
            invariant
                n == segs@.len(),
                n >= 2,
                sv == chars_view(segs@),
                1 <= j <= n - 1,
                strings_view(tags@) == lower_all(sv.subrange(1, j as int)),
            decreases n - 1 - j,
        {
            assert(sv[j as int] == segs@[j as int]@);
            let piece = string_of(&segs[j]);
            let tag = lowercase(piece.as_str());
            let ghost before = tags@;
            let ghost tag_view = tag@;
            tags.push(tag);
            assert(strings_view(tags@) =~= strings_view(before).push(tag_view));
            assert(lower_all(sv.subrange(1, j + 1)) =~= lower_all(sv.subrange(1, j as int)).push(
                crate::text::lower_of(sv[j as int]),
            ));
            j = j + 1;
        }
    } else {
        assert(strings_view(tags@) =~= tags_of(sv));
    }
    let mime_type = String::from_str(FileExtension::from(path).mime_type());
    Ok(
        PathData {
            absolute_path: String::from_str(path),
            relative_path: string_of(&rel),
            filename,
            username,
            tags,
            mime_type,
            file_buffer,
        },
    )
}

/// `s` without the strings that `excluded` holds, in order.
pub open spec fn without(s: Seq<Seq<char>>, excluded: Seq<Seq<char>>) -> Seq<Seq<char>>
    decreases s.len(),
{
    if s.len() == 0 {
        Seq::empty()
    } else if excluded.contains(s.last()) {
        without(s.drop_last(), excluded)
    } else {
        without(s.drop_last(), excluded).push(s.last())
    }
}

/// The order in which the files of a run are handed out: the priority files
/// first, in their order, then the other scanned files in scan order.
pub fn order_candidates(scanned: &Vec<String>, priority: &Vec<String>) -> (r: Vec<String>)
    ensures
        strings_view(r@) == strings_view(priority@) + without(
            strings_view(scanned@),
            strings_view(priority@),
        ),
{
    let mut paths: Vec<String> = Vec::new();
    let mut i: usize = 0;
    while i < priority.len()
        invariant
            i <= priority@.len(),
            strings_view(paths@) == strings_view(priority@.subrange(0, i as int)),
        decreases priority@.len() - i,
    {
        let ghost before = paths@;
        paths.push(priority[i].clone());
        assert(strings_view(paths@) =~= strings_view(before).push(priority@[i as int]@));
        assert(strings_view(priority@.subrange(0, i + 1)) =~= strings_view(
            priority@.subrange(0, i as int),
        ).push(priority@[i as int]@));
        i = i + 1;
    }
    assert(priority@.subrange(0, priority@.len() as int) =~= priority@);
    let ghost pv = strings_view(priority@);
    let mut k: usize = 0;
    while k < scanned.len()
        invariant
            k <= scanned@.len(),
            pv == strings_view(priority@),
            strings_view(paths@) == pv + without(strings_view(scanned@.subrange(0, k as int)), pv),
        decreases scanned@.len() - k,
    {
        let ghost sub = strings_view(scanned@.subrange(0, k + 1));
        assert(sub.drop_last() =~= strings_view(scanned@.subrange(0, k as int)));
        assert(sub.last() == scanned@[k as int]@);
        if !contains_string(priority.as_slice(), &scanned[k]) {
            let ghost before = paths@;
            paths.push(scanned[k].clone());
            assert(strings_view(paths@) =~= strings_view(before).push(scanned@[k as int]@));
        }
        k = k + 1;
    }
    assert(scanned@.subrange(0, scanned@.len() as int) =~= scanned@);
    paths
}

/// Where the processing of one file stands.
#[derive(Debug, PartialEq, Eq, Structural, Clone, Copy)]
pub enum FileStage {
    /// Nothing is known of the file yet: its size is needed.
    Discovered,
    /// The catalog knows files of this size: the file's fingerprint is needed.
    SizeMatched(u64),
    /// The file is new to the catalog: its integrity check is needed.
    IntegrityPending,
    /// The file passed its integrity check: it is to be uploaded.
    UploadPending,
    /// The file's processing has ended with this outcome.
    Finished(UploadStatus),
}

/// What was learnt of a file by the step that its stage called for.
#[derive(Debug)]
pub enum FileEvent {
    Size(u64),
    Fingerprint(String),
    Integrity(bool),
    /// The status the upload was answered with; `None` when there was no answer.
    Response(Option<u16>),
}

/// The stage that follows `stage` once `event` is known. A file whose size no
/// catalog entry has is new; one whose size and fingerprint match an entry is
/// skipped; a new file that fails its integrity check is corrupt; an upload
/// ends in the outcome of its response. An event that the stage did not call
/// for leaves the stage as it is.
pub open spec fn stage_after(index: Map<u64, Seq<Seq<char>>>, stage: FileStage, event: FileEvent) -> FileStage {
    match (stage, event) {
        (FileStage::Discovered, FileEvent::Size(size)) => if index.contains_key(size) {
            FileStage::SizeMatched(size)
        } else {
            FileStage::IntegrityPending
        },
        (FileStage::SizeMatched(size), FileEvent::Fingerprint(f)) => match class_of(index, size, f@) {
            DedupClass::Duplicate => FileStage::Finished(UploadStatus::Skipped),
            DedupClass::New => FileStage::IntegrityPending,
        },
        (FileStage::IntegrityPending, FileEvent::Integrity(ok)) => if ok {
            FileStage::UploadPending
        } else {
            FileStage::Finished(UploadStatus::Corrupt)
        },
        (FileStage::UploadPending, FileEvent::Response(status)) => FileStage::Finished(
            outcome_of(status),
        ),
        _ => stage,
    }
}

/// Advances the processing of one file by one step.
pub fn next_stage(index: &RemoteIndex, stage: FileStage, event: &FileEvent) -> (r: FileStage)
    ensures
        r == stage_after(index@, stage, *event),
{
    match (stage, event) {
        (FileStage::Discovered, FileEvent::Size(size)) => {
            if index.contains_size(*size) {
                FileStage::SizeMatched(*size)
            } else {
                FileStage::IntegrityPending
            }
        },
        (FileStage::SizeMatched(size), FileEvent::Fingerprint(f)) => {
            match index.classify(size, f) {
                DedupClass::Duplicate => FileStage::Finished(UploadStatus::Skipped),
                DedupClass::New => FileStage::IntegrityPending,
            }
        },
        (FileStage::IntegrityPending, FileEvent::Integrity(ok)) => {
            if *ok {
                FileStage::UploadPending
            } else {
                FileStage::Finished(UploadStatus::Corrupt)
            }
        },
        (FileStage::UploadPending, FileEvent::Response(status)) => {
            FileStage::Finished(UploadStatus::from_response(*status))
        },
        _ => stage,
    }
}

} // verus!
