//! Error values reported by the container, index and synthesis layers.

use vstd::prelude::*;

verus! {

/// A malformed or unsupported container preamble, naming the field at fault.
#[derive(Clone, Copy, Debug, PartialEq, Eq, Structural)]
pub enum FormatError {
    /// The first two bytes are not the container magic number.
    BadMagic,
    /// The storage mode byte names a mode other than fixed-width two-bit.
    UnsupportedStorageMode,
    /// The flags byte is not the single supported bit pattern.
    UnsupportedFlags,
    /// The preamble ends before the field that was being read.
    Truncated,
}

/// A metadata file that does not agree with the container or the request.
#[derive(Clone, Copy, Debug, PartialEq, Eq, Structural)]
pub enum ConsistencyError {
    /// The number of rows scanned differs from the container's declared count.
    RowCount { expected: u64, observed: u64 },
    /// The number of retained rows differs from the number of requested ids.
    Selection { expected: u64, observed: u64 },
    /// A data row (counted from zero) has too few columns to hold an id.
    MissingColumn { row: u64 },
    /// The variant file does not start with a column-header line.
    MissingHeader,
    /// The first column of the line that heads the sample file is not the
    /// `#IID` sentinel.
    SampleHeader,
}

/// A read that could not be served from the bytes at hand.
#[derive(Clone, Copy, Debug, PartialEq, Eq, Structural)]
pub enum IoError {
    /// The byte that holds the requested genotype lies past the end of the data.
    UnexpectedEof { variant_row: u32, sample_row: u32 },
}

/// Any failure of a whole conversion.
#[derive(Clone, Copy, Debug, PartialEq, Eq, Structural)]
pub enum ConversionError {
    Consistency(ConsistencyError),
    Io(IoError),
}

} // verus!
