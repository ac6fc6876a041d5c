use vstd::prelude::*;

verus! {

/// The failure cases of the library.
///
/// Storage and configuration failures are raised by the surrounding
/// application code; the library itself reports path, image and format
/// problems.
#[derive(Debug, Clone, Copy, PartialEq, Eq, Structural)]
pub enum Error {
    /// The storage backend failed.
    Storage,
    /// A path is malformed: an empty, `.` or `..` segment, or a control
    /// character.
    Path,
    /// The specification source could not be read.
    Config,
    /// The image bytes could not be decoded, or encoding failed.
    Image,
    /// The image format is not JPEG or PNG, or a file extension was not
    /// recognised.
    NotSupported,
    /// A path segment is not valid UTF-8.
    Utf,
}

pub type ThumbsResult<T> = Result<T, Error>;

} // verus!
