//! Media types: the content type guessed from a file's extension, and the
//! coarse kind that decides whether a file gets a preview.

use crate::text::{chars_of, starts_with};
use vstd::prelude::*;

verus! {

/// The coarse kind of a file, as far as previews are concerned.
#[derive(Clone, Copy, Debug, PartialEq, Eq, Structural)]
pub enum MimeKind {
    Image,
    Video,
    Other,
}

/// The content type that `mime_guess` gives for a path: the first entry of its
/// table for the path's extension, looked up without regard to case, or
/// `application/octet-stream` where the path has no extension or the table
/// does not know it.
pub uninterp spec fn guessed_content_type(path: Seq<char>) -> Seq<char>;

/// Calls `mime_guess::from_path(path).first_or_octet_stream()` and writes the
/// media type out as text. The guess reads nothing but the path's text, so
/// the same path always gives the same content type.
#[verifier::external_body]
pub(crate) fn guess_content_type(path: &str) -> (content_type: String)
    ensures
        content_type@ == guessed_content_type(path@),
{
    mime_guess::from_path(path).first_or_octet_stream().to_string()
}

/// The kind of a content type: decided by its top-level type, the part before
/// the first `/`.
pub open spec fn kind_of(content_type: Seq<char>) -> MimeKind {
    if "image/"@.is_prefix_of(content_type) {
        MimeKind::Image
    } else if "video/"@.is_prefix_of(content_type) {
        MimeKind::Video
    } else {
        MimeKind::Other
    }
}

impl MimeKind {
    /// Whether files of this kind get a preview.
    pub open spec fn previewable(self) -> bool {
        self != MimeKind::Other
    }

    /// The kind of a content type such as `image/png`.
    pub fn of_content_type(content_type: &str) -> (kind: MimeKind)
        ensures
            kind == kind_of(content_type@),
    {
        let chars = chars_of(content_type);
        if starts_with(&chars, "image/") {
            MimeKind::Image
        } else if starts_with(&chars, "video/") {
            MimeKind::Video
        } else {
            MimeKind::Other
        }
    }

    /// The kind of the file at `path`, judged by its extension alone.
    pub fn of_path(path: &str) -> (kind: MimeKind)
        ensures
            kind == kind_of(guessed_content_type(path@)),
    {
        let content_type = guess_content_type(path);
        MimeKind::of_content_type(content_type.as_str())
    }

    /// Whether files of this kind get a preview.
    pub fn wants_preview(self) -> (wanted: bool)
        ensures
            wanted == self.previewable(),
    {
        match self {
            MimeKind::Image => true,
            MimeKind::Video => true,
            MimeKind::Other => false,
        }
    }
}

} // verus!
