//! File names: the final component of a path, its extension, and the class
//! of file that the extension announces.

use crate::text::{
    after_last, lowered, marks, spells, suffix_after_last, to_lowered, Delimiter,
};
use vstd::prelude::*;

verus! {

/// The final component of a path.
pub open spec fn file_name_of(path: Seq<char>) -> Seq<char> {
    after_last(path, marks(Delimiter::Separator))
}

/// The extension of a file name: what follows its last `.`, unless the name
/// has no `.` or its only `.` is its first character.
pub open spec fn extension_of(name: Seq<char>) -> Option<Seq<char>> {
    let tail = after_last(name, marks(Delimiter::Dot));
    if tail.len() + 1 < name.len() {
        Some(tail)
    } else {
        None
    }
}

/// What a scan does with a file, going by its extension alone.
#[derive(Clone, Copy, Debug, PartialEq, Eq, Structural)]
pub enum FileClass {
    /// `.jsonl`: an aggregate of sub-models, one JSON record per line.
    Aggregate,
    /// `.json`: possibly a model descriptor.
    Descriptor,
    /// An image or a video.
    Media,
    /// Anything else.
    Other,
}

/// Whether `ext`, already lower-case, is one of the image and video extensions.
pub open spec fn is_media_extension(ext: Seq<char>) -> bool {
    ext == "png"@ || ext == "jpg"@ || ext == "jpeg"@ || ext == "gif"@ || ext == "bmp"@ || ext
        == "webp"@ || ext == "webm"@
}

/// The class of a file with the given name.  Letter case is ignored.
pub open spec fn class_of(name: Seq<char>) -> FileClass {
    match extension_of(name) {
        None => FileClass::Other,
        Some(ext) => {
            let ext = lowered(ext);
            if ext == "jsonl"@ {
                FileClass::Aggregate
            } else if ext == "json"@ {
                FileClass::Descriptor
            } else if is_media_extension(ext) {
                FileClass::Media
            } else {
                FileClass::Other
            }
        },
    }
}

/// Whether a directory entry of this name is visited before its siblings:
/// the entries named `*.json` and `*.jsonl` are.
pub open spec fn is_manifest_name(name: Seq<char>) -> bool {
    class_of(name) == FileClass::Aggregate || class_of(name) == FileClass::Descriptor
}

/// Computes [`file_name_of`].
pub fn file_name(path: &Vec<char>) -> (name: Vec<char>)
    ensures
        name@ == file_name_of(path@),
{
    suffix_after_last(path, Delimiter::Separator)
}

/// Computes [`extension_of`].
pub fn extension(name: &Vec<char>) -> (ext: Option<Vec<char>>)
    ensures
        match ext {
            Some(e) => extension_of(name@) == Some(e@),
            None => extension_of(name@) is None,
        },
{
    let tail = suffix_after_last(name, Delimiter::Dot);
    if tail.len() < name.len() && tail.len() + 1 < name.len() {
        Some(tail)
    } else {
        None
    }
}

/// Computes [`class_of`].
pub fn classify_name(name: &Vec<char>) -> (class: FileClass)
    ensures
        class == class_of(name@),
{
    match extension(name) {
        None => FileClass::Other,
        Some(ext) => {
            let ext = to_lowered(&ext);
            if spells(&ext, "jsonl") {
                FileClass::Aggregate
            } else if spells(&ext, "json") {
                FileClass::Descriptor
            } else if spells(&ext, "png") || spells(&ext, "jpg") || spells(&ext, "jpeg") || spells(
                &ext,
                "gif",
            ) || spells(&ext, "bmp") || spells(&ext, "webp") || spells(&ext, "webm") {
                FileClass::Media
            } else {
                FileClass::Other
            }
        },
    }
}

/// Computes [`is_manifest_name`].
pub fn has_manifest_name(name: &Vec<char>) -> (first: bool)
    ensures
        first == is_manifest_name(name@),
{
    let class = classify_name(name);
    class == FileClass::Aggregate || class == FileClass::Descriptor
}

} // verus!
