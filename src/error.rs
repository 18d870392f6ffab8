//! The ways in which decoding can fail.

use vstd::prelude::*;

verus! {

/// Why a header, page, cell, record or value could not be decoded.
#[derive(Debug, Clone, Copy, PartialEq, Eq, Structural)]
pub enum DecodeError {
    /// The bytes end before the structure being read does.
    Truncated,
    /// A page-type byte that names none of the four page kinds.
    UnknownPageType(u8),
    /// A serial-type code that names no value (10 or 11).
    InvalidSerialType(u64),
    /// Bytes declared as text that are not valid UTF-8.
    InvalidText,
    /// A record whose declared header length is shorter than the varint that
    /// states it, or longer than the record.
    BadRecordHeader,
    /// A database header that gives a page size of zero.
    ZeroPageSize,
    /// Page number zero: pages are numbered from one.
    BadPageNumber,
    /// A request that only table-leaf pages can answer, made of another page.
    UnsupportedPageType,
    /// A page buffer whose length is not the database's page size.
    WrongPageLength,
}

} // verus!
