//! The policy for attached media: which uploads the board takes, and under
//! which name it stores them.
//!
//! The board goes by the content type that came with the upload, not by the
//! name that the client gave the file: a name is easy to forge. It takes
//! JPEG, PNG, GIF and WebP images of at most 20 MiB and stores each under
//! the display id of its thread.

use vstd::prelude::*;
use vstd::string::*;
use crate::text::{matches_ignoring_case, same_ignoring_case};

verus! {

/// The greatest size of an upload that the board takes, in bytes: 20 MiB.
pub const MAX_ATTACHMENT_BYTES: u64 = 20 * 1024 * 1024;

/// A media type, such as `image/png`: the top-level type and the subtype.
/// Letter case makes no difference in either.
#[derive(Debug)]
pub struct ContentType {
    pub top: String,
    pub sub: String,
}

/// An upload as it is proposed: the name and the size that the client
/// declared, and the content type, where one came with it.
#[derive(Debug)]
pub struct Upload {
    pub file_name: String,
    pub size: u64,
    pub content_type: Option<ContentType>,
}

/// Where an accepted upload goes: the name of its file in the upload
/// directory, and the path that its post records.
#[derive(Debug)]
pub struct StoredFile {
    pub file_name: String,
    pub path: String,
}

/// Why an upload was not taken.
#[derive(Debug, Clone, Copy, PartialEq, Eq, Structural)]
pub enum AttachmentRejected {
    /// The content type is missing or is none of the accepted ones.
    BadType,
    /// The upload is larger than [`MAX_ATTACHMENT_BYTES`].
    Oversize,
    /// The bytes of the upload could not be read or stored.
    Unreadable,
}

/// The extension under which a file of this media type is stored: `jpg`,
/// `png`, `gif` or `webp` for the four accepted image types, none for any
/// other type.
pub open spec fn extension_of(top: Seq<char>, sub: Seq<char>) -> Option<Seq<char>> {
    if !same_ignoring_case(top, "image"@) {
        None
    } else if same_ignoring_case(sub, "jpeg"@) {
        Some("jpg"@)
    } else if same_ignoring_case(sub, "png"@) {
        Some("png"@)
    } else if same_ignoring_case(sub, "gif"@) {
        Some("gif"@)
    } else if same_ignoring_case(sub, "webp"@) {
        Some("webp"@)
    } else {
        None
    }
}

/// The name of the stored file of a thread: the display id of the thread, a
/// dot and the extension.
pub open spec fn stored_name(display_id: Seq<char>, extension: Seq<char>) -> Seq<char> {
    display_id + "."@ + extension
}

/// The path that a post records for a stored file.
pub open spec fn stored_path(file_name: Seq<char>) -> Seq<char> {
    "/static/uploads/"@ + file_name
}

/// The characters of an optional string slice.
pub open spec fn slice_text(s: Option<&str>) -> Option<Seq<char>> {
    match s {
        Some(t) => Some(t@),
        None => None,
    }
}

/// The verdict on an upload of `size` bytes whose content type, where it has
/// one, is `top/sub`: too large a file is refused whatever its type, then a
/// file without an accepted type; any other is stored under the extension
/// of its type.
pub open spec fn verdict(size: nat, kind: Option<(Seq<char>, Seq<char>)>) -> Result<
    Seq<char>,
    AttachmentRejected,
> {
    if size > MAX_ATTACHMENT_BYTES {
        Err(AttachmentRejected::Oversize)
    } else {
        match kind {
            Some((top, sub)) => match extension_of(top, sub) {
                Some(extension) => Ok(extension),
                None => Err(AttachmentRejected::BadType),
            },
            None => Err(AttachmentRejected::BadType),
        }
    }
}

impl ContentType {
    /// The media type `top/sub`.
    pub fn new(top: &str, sub: &str) -> (kind: ContentType)
        ensures
            kind.top@ == top@,
            kind.sub@ == sub@,
    {
        ContentType { top: String::from_str(top), sub: String::from_str(sub) }
    }
}

impl Upload {
    /// The content type of the upload as a pair of texts.
    pub open spec fn kind(&self) -> Option<(Seq<char>, Seq<char>)> {
        match self.content_type {
            Some(kind) => Some((kind.top@, kind.sub@)),
            None => None,
        }
    }

    /// The verdict on this upload.
    pub open spec fn verdict(&self) -> Result<Seq<char>, AttachmentRejected> {
        verdict(self.size as nat, self.kind())
    }
}

/// The verdict on the upload of a post, where the post came with one.
pub open spec fn verdict_of(upload: Option<&Upload>) -> Option<
    Result<Seq<char>, AttachmentRejected>,
> {
    match upload {
        Some(u) => Some(u.verdict()),
        None => None,
    }
}

/// The extension under which a file of this content type is stored, where
/// the type is an accepted one.
pub fn get_extension(content_type: &ContentType) -> (extension: Option<&'static str>)
    ensures
        slice_text(extension) == extension_of(content_type.top@, content_type.sub@),
{
    if !matches_ignoring_case(content_type.top.as_str(), "image") {
        None
    } else if matches_ignoring_case(content_type.sub.as_str(), "jpeg") {
        Some("jpg")
    } else if matches_ignoring_case(content_type.sub.as_str(), "png") {
        Some("png")
    } else if matches_ignoring_case(content_type.sub.as_str(), "gif") {
        Some("gif")
    } else if matches_ignoring_case(content_type.sub.as_str(), "webp") {
        Some("webp")
    } else {
        None
    }
}

/// Decides whether the board takes an upload, and under which extension it
/// stores it.
pub fn validate_attachment(upload: &Upload) -> (outcome: Result<&'static str, AttachmentRejected>)
    ensures
        match outcome {
            Ok(extension) => upload.verdict() == Ok::<Seq<char>, AttachmentRejected>(extension@),
            Err(reason) => upload.verdict() == Err::<Seq<char>, AttachmentRejected>(reason),
        },
{
    if upload.size > MAX_ATTACHMENT_BYTES {
        return Err(AttachmentRejected::Oversize);
    }
    match &upload.content_type {
        Some(kind) => match get_extension(kind) {
            Some(extension) => Ok(extension),
            None => Err(AttachmentRejected::BadType),
        },
        None => Err(AttachmentRejected::BadType),
    }
}

/// Where the upload of the thread with this display id goes, once the
/// upload has been found acceptable under `extension`.
pub fn stored_file(display_id: &str, extension: &str) -> (file: StoredFile)
    ensures
        file.file_name@ == stored_name(display_id@, extension@),
        file.path@ == stored_path(file.file_name@),
{
    let file_name = String::from_str(display_id).concat(".").concat(extension);
    let path = String::from_str("/static/uploads/").concat(file_name.as_str());
    StoredFile { file_name, path }
}

} // verus!
