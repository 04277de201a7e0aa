//! The content type under which a file is served.

use crate::names::{extension, extension_of, file_name, file_name_of};
use crate::text::{chars_of, lowered, spells, to_lowered};
use vstd::prelude::*;

verus! {

/// The content type of a file with the given extension.  Letter case is
/// ignored.  Images and videos get their media type, JSON and line-delimited
/// JSON theirs; model, physics, motion and expression binaries, and every
/// unknown or missing extension, are served as plain bytes.
pub open spec fn mime_of_extension(ext: Option<Seq<char>>) -> Seq<char> {
    match ext {
        None => "application/octet-stream"@,
        Some(ext) => {
            let ext = lowered(ext);
            if ext == "png"@ {
                "image/png"@
            } else if ext == "jpg"@ || ext == "jpeg"@ {
                "image/jpeg"@
            } else if ext == "gif"@ {
                "image/gif"@
            } else if ext == "webp"@ {
                "image/webp"@
            } else if ext == "bmp"@ {
                "image/bmp"@
            } else if ext == "webm"@ {
                "video/webm"@
            } else if ext == "json"@ {
                "application/json"@
            } else if ext == "jsonl"@ {
                "application/x-ndjson"@
            } else {
                "application/octet-stream"@
            }
        },
    }
}

/// The content type of the file at `path`: that of the extension of its
/// final component.
pub open spec fn mime_of_path(path: Seq<char>) -> Seq<char> {
    mime_of_extension(extension_of(file_name_of(path)))
}

/// Computes [`mime_of_extension`].
pub fn mime_for_extension(ext: Option<&Vec<char>>) -> (mime: String)
    ensures
        mime@ == mime_of_extension(
            match ext {
                Some(e) => Some(e@),
                None => None,
            },
        ),
{
    let kind: &str = match ext {
        None => "application/octet-stream",
        Some(ext) => {
            let ext = to_lowered(ext);
            if spells(&ext, "png") {
                "image/png"
            } else if spells(&ext, "jpg") || spells(&ext, "jpeg") {
                "image/jpeg"
            } else if spells(&ext, "gif") {
                "image/gif"
            } else if spells(&ext, "webp") {
                "image/webp"
            } else if spells(&ext, "bmp") {
                "image/bmp"
            } else if spells(&ext, "webm") {
                "video/webm"
            } else if spells(&ext, "json") {
                "application/json"
            } else if spells(&ext, "jsonl") {
                "application/x-ndjson"
            } else {
                "application/octet-stream"
            }
        },
    };
    kind.to_owned()
}

/// The content type under which the file at `path` is served.  This never
/// fails: a path without a known extension is served as plain bytes.
pub fn guess_mime_type(path: &str) -> (mime: String)
    ensures
        mime@ == mime_of_path(path@),
{
    let chars = chars_of(path);
    let name = file_name(&chars);
    match extension(&name) {
        Some(ext) => mime_for_extension(Some(&ext)),
        None => mime_for_extension(None),
    }
}

} // verus!
