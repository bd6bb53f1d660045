use vstd::prelude::*;

verus! {

/// Reasons for which a header block cannot be read.
#[derive(Debug, Clone, Copy, PartialEq, Eq, Structural)]
pub enum HeaderError {
    /// The stream ended in the middle of a block.
    ShortRead,
    /// A text field holds bytes that are not UTF-8.
    BadEncoding,
    /// A numeric field holds something else than octal digits.
    BadOctal,
    /// The stored checksum differs from the one computed over the block.
    BadChecksum,
    /// A decimal number of an attribute record cannot be read.
    BadNumber,
    /// The attribute data are larger than the machine's integers can count.
    TooLarge,
}

impl HeaderError {
    /// The description of the error.
    pub open spec fn text(self) -> Seq<char> {
        match self {
            HeaderError::ShortRead => "unexpected end of stream"@,
            HeaderError::BadEncoding => "invalid UTF-8 in text field"@,
            HeaderError::BadOctal => "invalid octal number"@,
            HeaderError::BadChecksum => "invalid checksum"@,
            HeaderError::BadNumber => "invalid decimal number"@,
            HeaderError::TooLarge => "attribute data too large"@,
        }
    }

    /// A short description of the error.
    pub fn message(&self) -> (text: &'static str)
        ensures
            text@ == self.text(),
    {
        match self {
            HeaderError::ShortRead => "unexpected end of stream",
            HeaderError::BadEncoding => "invalid UTF-8 in text field",
            HeaderError::BadOctal => "invalid octal number",
            HeaderError::BadChecksum => "invalid checksum",
            HeaderError::BadNumber => "invalid decimal number",
            HeaderError::TooLarge => "attribute data too large",
        }
    }
}

/// Reasons for which an operation on the index fails.
#[derive(Debug, Clone, Copy, PartialEq, Eq, Structural)]
pub enum IndexError {
    /// A header of the page chain cannot be read.
    Header(HeaderError),
    /// A page's table is unusable or does not hold the expected number of rows.
    CorruptPage,
    /// The page chain is broken: a page header is not a regular file of the page size.
    CorruptIndex,
    /// The path is already present in the index.
    Duplicate,
    /// The slot does not exist.
    OutOfBounds,
}

impl IndexError {
    /// The description of the error.
    pub open spec fn text(self) -> Seq<char> {
        match self {
            IndexError::Header(e) => e.text(),
            IndexError::CorruptPage => "invalid index page"@,
            IndexError::CorruptIndex => "the index is corrupted"@,
            IndexError::Duplicate => "entry already exists"@,
            IndexError::OutOfBounds => "index out of bounds"@,
        }
    }

    /// A short description of the error.
    pub fn message(&self) -> (text: &'static str)
        ensures
            text@ == self.text(),
    {
        match self {
            IndexError::Header(e) => e.message(),
            IndexError::CorruptPage => "invalid index page",
            IndexError::CorruptIndex => "the index is corrupted",
            IndexError::Duplicate => "entry already exists",
            IndexError::OutOfBounds => "index out of bounds",
        }
    }
}

} // verus!
