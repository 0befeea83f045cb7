//! The failures that opening, indexing and reading a file can end in.

use vstd::prelude::*;

verus! {

/// What was wrong with the bytes of a file.
#[derive(Clone, Copy, Debug, PartialEq, Eq, Structural)]
pub enum FormatFault {
    /// The first four bytes are not the magic.
    StartMagic,
    /// The last four bytes are not the magic.
    EndMagic,
    /// No metadata record was decoded, or the record does not end where the
    /// length field begins.
    Footer,
    /// The schema of the metadata record is not a tree.
    Schema,
    /// An offset or a size is negative, or the end of a range cannot be
    /// represented.
    Overflow,
    /// No page header was decoded at the read cursor.
    PageHeader,
    /// A region ends behind the boundary of the region that holds it.
    Overshoot,
    /// A region shares a byte with a region beside it.
    Overlap,
}

/// What kept bytes from being read.
#[derive(Clone, Copy, Debug, PartialEq, Eq, Structural)]
pub enum IoFault {
    /// The file ends before the bytes asked for.
    ShortRead,
    /// The position to read from lies before the first byte of the file.
    Seek,
}

/// A failure of the library.
#[derive(Clone, Copy, Debug, PartialEq, Eq, Structural)]
pub enum ParkhayError {
    /// The file cannot be read to the expected length.
    Io(IoFault),
    /// The file is not a valid container.
    Format(FormatFault),
    /// The reader and its requester no longer agree.
    Protocol,
}

impl ParkhayError {
    /// Whether the failure says that the file is not a valid container, and
    /// not that it is unreadable.
    pub fn is_format(&self) -> (r: bool)
        ensures
            r == (*self is Format),
    {
        match self {
            ParkhayError::Format(_) => true,
            _ => false,
        }
    }

    /// A message for the user, which tells an unreadable file from an
    /// invalid one.
    pub fn message(&self) -> (r: &'static str)
        ensures
            r@ == message_of(*self),
    {
        match self {
            ParkhayError::Io(IoFault::ShortRead) => "unreadable file: it ends before the bytes asked for",
            ParkhayError::Io(IoFault::Seek) => "unreadable file: it is shorter than its footer claims",
            ParkhayError::Format(FormatFault::StartMagic) => "not a valid container: wrong start magic",
            ParkhayError::Format(FormatFault::EndMagic) => "not a valid container: wrong end magic",
            ParkhayError::Format(FormatFault::Footer) => "corrupt footer: the metadata does not decode",
            ParkhayError::Format(FormatFault::Schema) => "corrupt footer: the schema is malformed",
            ParkhayError::Format(FormatFault::Overflow) => "corrupt footer: an offset or size is out of range",
            ParkhayError::Format(FormatFault::PageHeader) => "corrupt column chunk: a page header does not decode",
            ParkhayError::Format(FormatFault::Overshoot) => "corrupt column chunk: a page ends behind its chunk",
            ParkhayError::Format(FormatFault::Overlap) => "corrupt footer: two regions share a byte",
            ParkhayError::Protocol => "the region reader is gone",
        }
    }
}

/// The message that belongs to each failure.
pub open spec fn message_of(e: ParkhayError) -> Seq<char> {
    match e {
        ParkhayError::Io(IoFault::ShortRead) => "unreadable file: it ends before the bytes asked for"@,
        ParkhayError::Io(IoFault::Seek) => "unreadable file: it is shorter than its footer claims"@,
        ParkhayError::Format(FormatFault::StartMagic) => "not a valid container: wrong start magic"@,
        ParkhayError::Format(FormatFault::EndMagic) => "not a valid container: wrong end magic"@,
        ParkhayError::Format(FormatFault::Footer) => "corrupt footer: the metadata does not decode"@,
        ParkhayError::Format(FormatFault::Schema) => "corrupt footer: the schema is malformed"@,
        ParkhayError::Format(FormatFault::Overflow) => "corrupt footer: an offset or size is out of range"@,
        ParkhayError::Format(FormatFault::PageHeader) => "corrupt column chunk: a page header does not decode"@,
        ParkhayError::Format(FormatFault::Overshoot) => "corrupt column chunk: a page ends behind its chunk"@,
        ParkhayError::Format(FormatFault::Overlap) => "corrupt footer: two regions share a byte"@,
        ParkhayError::Protocol => "the region reader is gone"@,
    }
}

} // verus!
