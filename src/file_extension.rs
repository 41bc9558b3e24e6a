//! Recognised media file extensions and their MIME types.
use vstd::prelude::*;
use crate::text::{ascii_lower_chars, ascii_lower_seq, chars_of, find_last, last_index_of, lemma_last_index_of_bounds, slice_chars};

verus! {

#[derive(Debug, PartialEq, Eq, Structural, Clone, Copy)]
pub enum FileExtension {
    Mp4,
    Avi,
    Mpeg,
    Ogv,
    Webm,
    Mov,
    Wmv,
    Unknown,
}

/// The last component of a path: everything after its last `/`.
pub open spec fn file_name_of(path: Seq<char>) -> Seq<char> {
    path.subrange(last_index_of(path, '/') + 1, path.len() as int)
}

/// The extension of a file name: what follows its last `.`, provided that dot is
/// not the first character (a leading dot marks a hidden file, not an extension).
pub open spec fn extension_of_name(name: Seq<char>) -> Seq<char> {
    let d = last_index_of(name, '.');
    if d > 0 {
        name.subrange(d + 1, name.len() as int)
    } else {
        Seq::empty()
    }
}

/// The extension of the last component of a path.
pub open spec fn extension_of(path: Seq<char>) -> Seq<char> {
    extension_of_name(file_name_of(path))
}

/// The kind named by an already lower-cased extension.
pub open spec fn kind_of_lower(ext: Seq<char>) -> FileExtension {
    if ext == seq!['m', 'p', '4'] {
        FileExtension::Mp4
    } else if ext == seq!['a', 'v', 'i'] {
        FileExtension::Avi
    } else if ext == seq!['m', 'p', 'e', 'g'] {
        FileExtension::Mpeg
    } else if ext == seq!['o', 'g', 'v'] {
        FileExtension::Ogv
    } else if ext == seq!['w', 'e', 'b', 'm'] {
        FileExtension::Webm
    } else if ext == seq!['m', 'o', 'v'] {
        FileExtension::Mov
    } else if ext == seq!['w', 'm', 'v'] {
        FileExtension::Wmv
    } else {
        FileExtension::Unknown
    }
}

/// The kind of a path, its extension compared without regard to ASCII case.
pub open spec fn kind_of_path(path: Seq<char>) -> FileExtension {
    kind_of_lower(ascii_lower_seq(extension_of(path)))
}

/// Whether a path names a file of a recognised media kind.
pub open spec fn is_media_path(path: Seq<char>) -> bool {
    kind_of_path(path) != FileExtension::Unknown
}

pub open spec fn mime_of(e: FileExtension) -> Seq<char> {
    match e {
        FileExtension::Mp4 => "video/mp4"@,
        FileExtension::Avi => "video/x-msvideo"@,
        FileExtension::Mpeg => "video/mpeg"@,
        FileExtension::Ogv => "video/ogg"@,
        FileExtension::Webm => "video/webm"@,
        FileExtension::Mov => "video/quicktime"@,
        FileExtension::Wmv => "video/x-ms-wmv"@,
        FileExtension::Unknown => ""@,
    }
}

fn is_word3(e: &Vec<char>, a: char, b: char, c: char) -> (r: bool)
    ensures
        r == (e@ == seq![a, b, c]),
{
    if e.len() == 3 && e[0] == a && e[1] == b && e[2] == c {
        assert(e@ =~= seq![a, b, c]);
        true
    } else {
        false
    }
}

fn is_word4(e: &Vec<char>, a: char, b: char, c: char, d: char) -> (r: bool)
    ensures
        r == (e@ == seq![a, b, c, d]),
{
    if e.len() == 4 && e[0] == a && e[1] == b && e[2] == c && e[3] == d {
        assert(e@ =~= seq![a, b, c, d]);
        true
    } else {
        false
    }
}

/// The extension of the last component of `path`.
pub fn extension_chars(path: &Vec<char>) -> (r: Vec<char>)
    ensures
        r@ == extension_of(path@),
{
    proof {
        lemma_last_index_of_bounds(path@, '/');
    }
    let n = path.len();
    let start = match find_last(path, '/') {
        Some(i) => {
            assert(i < n);
            i + 1
        },
        None => 0,
    };
    let name = slice_chars(path, start, n);
    proof {
        lemma_last_index_of_bounds(name@, '.');
    }
    match find_last(&name, '.') {
        Some(d) => {
            if d > 0 {
                slice_chars(&name, d + 1, name.len())
            } else {
                Vec::new()
            }
        },
        None => Vec::new(),
    }
}

impl FileExtension {
    /// The kind of the file that `path` names, going by its extension alone,
    /// compared without regard to ASCII case.
    pub fn from(path: &str) -> (r: FileExtension)
        ensures
            r == kind_of_path(path@),
    {
        let p = chars_of(path);
        let e = ascii_lower_chars(&extension_chars(&p));
        if is_word3(&e, 'm', 'p', '4') {
            FileExtension::Mp4
        } else if is_word3(&e, 'a', 'v', 'i') {
            FileExtension::Avi
        } else if is_word4(&e, 'm', 'p', 'e', 'g') {
            FileExtension::Mpeg
        } else if is_word3(&e, 'o', 'g', 'v') {
            FileExtension::Ogv
        } else if is_word4(&e, 'w', 'e', 'b', 'm') {
            FileExtension::Webm
        } else if is_word3(&e, 'm', 'o', 'v') {
            FileExtension::Mov
        } else if is_word3(&e, 'w', 'm', 'v') {
            FileExtension::Wmv
        } else {
            FileExtension::Unknown
        }
    }

    /// The MIME type of the kind; empty for an unrecognised one.
    pub fn mime_type(&self) -> (r: &'static str)
        ensures
            r@ == mime_of(*self),
    {
        match self {
            FileExtension::Mp4 => "video/mp4",
            FileExtension::Avi => "video/x-msvideo",
            FileExtension::Mpeg => "video/mpeg",
            FileExtension::Ogv => "video/ogg",
            FileExtension::Webm => "video/webm",
            FileExtension::Mov => "video/quicktime",
            FileExtension::Wmv => "video/x-ms-wmv",
            FileExtension::Unknown => "",
        }
    }
}

} // verus!
