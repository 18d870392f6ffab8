//! The database header, pages and the cells of table-leaf pages.

use crate::error::DecodeError;
use crate::record::{record_decodes, record_error, Record};
use crate::util::{as_u16_be, as_u32_be, be_uint};
use crate::varint::{is_varint, read_varint, varint_len, varint_value};
use vstd::prelude::*;
use vstd::slice::slice_subrange;

verus! {

/// Length of the file header at the start of the file, which is also the
/// start of page 1.
pub const DB_HEADER_LEN: usize = 100;

/// What the file header says of the layout: the page size and the number
/// of pages.
#[derive(Debug, Clone, Copy, PartialEq, Eq, Structural)]
pub struct DBHeader {
    pub page_size_in_bytes: u16,
    pub size_of_db_in_pages: u32,
}

/// The big-endian `u16` at `at` in `s`.
pub open spec fn be_u16_at(s: Seq<u8>, at: int) -> nat {
    be_uint(s.subrange(at, at + 2))
}

/// The big-endian `u32` at `at` in `s`.
pub open spec fn be_u32_at(s: Seq<u8>, at: int) -> nat {
    be_uint(s.subrange(at, at + 4))
}

impl DBHeader {
    /// Reads the file header from the first bytes of the file: the page size
    /// at offset 16 and the page count at offset 28, both big-endian.
    pub fn from_bytes(bytes: &[u8]) -> (r: Result<DBHeader, DecodeError>)
        ensures
            bytes@.len() < 100 ==> r == Err::<DBHeader, DecodeError>(DecodeError::Truncated),
            bytes@.len() >= 100 && be_u16_at(bytes@, 16) == 0 ==> r == Err::<
                DBHeader,
                DecodeError,
            >(DecodeError::ZeroPageSize),
            bytes@.len() >= 100 && be_u16_at(bytes@, 16) != 0 ==> (r matches Ok(h)
                && h.page_size_in_bytes == be_u16_at(bytes@, 16) && h.size_of_db_in_pages
                == be_u32_at(bytes@, 28)),
    {
        if bytes.len() < DB_HEADER_LEN {
            return Err(DecodeError::Truncated);
        }
        let size_bytes: [u8; 2] = [bytes[16], bytes[17]];
        let count_bytes: [u8; 4] = [bytes[28], bytes[29], bytes[30], bytes[31]];
        assert(size_bytes@ =~= bytes@.subrange(16, 18));
        assert(count_bytes@ =~= bytes@.subrange(28, 32));
        let page_size_in_bytes = as_u16_be(&size_bytes);
        if page_size_in_bytes == 0 {
            return Err(DecodeError::ZeroPageSize);
        }
        Ok(DBHeader { page_size_in_bytes, size_of_db_in_pages: as_u32_be(&count_bytes) })
    }
}

/// The role of a page, given by the first byte of its page header.
#[derive(Debug, Clone, Copy, PartialEq, Eq, Structural)]
pub enum DBPageType {
    IndexInteriorPage,
    TableInteriorPage,
    IndexLeafPage,
    TableLeafPage,
}

/// The page type that the byte `b` names, if any.
pub open spec fn page_type_of(b: u8) -> Option<DBPageType> {
    if b == 0x02 {
        Some(DBPageType::IndexInteriorPage)
    } else if b == 0x05 {
        Some(DBPageType::TableInteriorPage)
    } else if b == 0x0A {
        Some(DBPageType::IndexLeafPage)
    } else if b == 0x0D {
        Some(DBPageType::TableLeafPage)
    } else {
        None
    }
}

impl DBPageType {
    /// The page type that the byte `b` names; an error for any other byte.
    pub fn from_u8(b: u8) -> (r: Result<DBPageType, DecodeError>)
        ensures
            match page_type_of(b) {
                Some(t) => r == Ok::<DBPageType, DecodeError>(t),
                None => r == Err::<DBPageType, DecodeError>(DecodeError::UnknownPageType(b)),
            },
    {
        match b {
            0x02 => Ok(DBPageType::IndexInteriorPage),
            0x05 => Ok(DBPageType::TableInteriorPage),
            0x0A => Ok(DBPageType::IndexLeafPage),
            0x0D => Ok(DBPageType::TableLeafPage),
            _ => Err(DecodeError::UnknownPageType(b)),
        }
    }
}

/// Where the page header starts in a page: page 1 shares its first bytes
/// with the file header.
pub open spec fn page_header_start(is_first_page: bool) -> nat {
    if is_first_page {
        100
    } else {
        0
    }
}

/// Where the cell-pointer array starts: after a page header of 12 bytes on
/// interior pages and 8 bytes on leaf pages.
pub open spec fn cell_array_start(t: DBPageType, is_first_page: bool) -> nat {
    page_header_start(is_first_page) + match t {
        DBPageType::IndexInteriorPage | DBPageType::TableInteriorPage => 12nat,
        DBPageType::IndexLeafPage | DBPageType::TableLeafPage => 8nat,
    }
}

/// The `i`th entry of the cell-pointer array that starts at `start` in `raw`.
pub open spec fn cell_pointer_at(raw: Seq<u8>, start: nat, i: int) -> nat {
    be_u16_at(raw, start + 2 * i)
}

/// One page of the database file, with its page header decoded.
#[derive(Debug, Clone, PartialEq, Eq)]
pub struct DBPage {
    pub page_no: u32,
    pub page_type: DBPageType,
    pub number_of_cells: u16,
    pub cell_pointer_array: Vec<u16>,
    pub raw_bytes: Vec<u8>,
}

/// Why the bytes `raw` cannot be page `page_no` of a database with header
/// `header`; `None` when they can.
pub open spec fn page_error(raw: Seq<u8>, header: DBHeader, page_no: u32) -> Option<DecodeError> {
    let hs = page_header_start(page_no == 1);
    if page_no == 0 {
        Some(DecodeError::BadPageNumber)
    } else if raw.len() != header.page_size_in_bytes {
        Some(DecodeError::WrongPageLength)
    } else if raw.len() < hs + 8 {
        Some(DecodeError::Truncated)
    } else {
        match page_type_of(raw[hs as int]) {
            None => Some(DecodeError::UnknownPageType(raw[hs as int])),
            Some(t) => if raw.len() < cell_array_start(t, page_no == 1) + 2 * be_u16_at(
                raw,
                hs + 3int,
            ) {
                Some(DecodeError::Truncated)
            } else {
                None
            },
        }
    }
}

/// A page whose page-type byte is none of 0x02, 0x05, 0x0A and 0x0D is
/// never decoded; once its number and length are right, the error names
/// that byte.
pub proof fn lemma_unknown_page_type_refused(raw: Seq<u8>, header: DBHeader, page_no: u32)
    requires
        page_header_start(page_no == 1) < raw.len(),
        ({
            let b = raw[page_header_start(page_no == 1) as int];
            b != 0x02 && b != 0x05 && b != 0x0A && b != 0x0D
        }),
    ensures
        page_error(raw, header, page_no) is Some,
        page_no >= 1 && raw.len() == header.page_size_in_bytes && raw.len() >= page_header_start(
            page_no == 1,
        ) + 8 ==> page_error(raw, header, page_no) == Some(
            DecodeError::UnknownPageType(raw[page_header_start(page_no == 1) as int]),
        ),
{
}

/// The cell that starts at the front of `bytes`, on a table-leaf page: why
/// it cannot be decoded, or `None` when it can.
pub open spec fn table_leaf_cell_error(bytes: Seq<u8>) -> Option<DecodeError> {
    let rest = bytes.skip(varint_len(bytes) as int);
    if !is_varint(bytes) || !is_varint(rest) {
        Some(DecodeError::Truncated)
    } else {
        record_error(rest.skip(varint_len(rest) as int))
    }
}

/// A decoded cell of a page.
#[derive(Debug, Clone, PartialEq, Eq)]
pub enum PageCell {
    TableLeafPageCell { length: u64, row_id: u64, values: Record },
}

/// Whether `c` is the table-leaf cell at the front of `bytes`: payload
/// length, then row id, then the record.
pub open spec fn table_leaf_cell_decodes(c: PageCell, bytes: Seq<u8>) -> bool {
    let rest = bytes.skip(varint_len(bytes) as int);
    match c {
        PageCell::TableLeafPageCell { length, row_id, values } => {
            &&& length == varint_value(bytes)
            &&& row_id == varint_value(rest)
            &&& record_decodes(values.0@, rest.skip(varint_len(rest) as int))
        },
    }
}

impl PageCell {
    /// Decodes the cell at the front of `bytes` on a page of type
    /// `page_type`. Only table-leaf cells are decoded: for other page types
    /// the answer is `Ok(None)`.
    pub fn from_bytes(page_type: &DBPageType, bytes: &[u8]) -> (r: Result<
        Option<PageCell>,
        DecodeError,
    >)
        ensures
            *page_type != DBPageType::TableLeafPage ==> r == Ok::<Option<PageCell>, DecodeError>(
                None,
            ),
            *page_type == DBPageType::TableLeafPage ==> match table_leaf_cell_error(bytes@) {
                Some(e) => r == Err::<Option<PageCell>, DecodeError>(e),
                None => r matches Ok(Some(c)) && table_leaf_cell_decodes(c, bytes@),
            },
    {
        match page_type {
            DBPageType::TableLeafPage => {
                let (length, length_size) = match read_varint(bytes) {
                    Some(p) => p,
                    None => return Err(DecodeError::Truncated),
                };
                let rest = slice_subrange(bytes, length_size, bytes.len());
                assert(rest@ =~= bytes@.skip(varint_len(bytes@) as int));
                let (row_id, row_id_size) = match read_varint(rest) {
                    Some(p) => p,
                    None => return Err(DecodeError::Truncated),
                };
                let payload = slice_subrange(rest, row_id_size, rest.len());
                assert(payload@ =~= rest@.skip(varint_len(rest@) as int));
                match Record::from_cell_bytes(payload) {
                    Ok(values) => Ok(Some(PageCell::TableLeafPageCell { length, row_id, values })),
                    Err(e) => Err(e),
                }
            },
            _ => Ok(None),
        }
    }
}

impl DBPage {
    /// Whether the page's fields agree with its bytes: a known page type at
    /// the start of its page header, the cell count after it, and a complete
    /// cell-pointer array of that many entries.
    pub open spec fn wf(&self) -> bool {
        let raw = self.raw_bytes@;
        let first = self.page_no == 1;
        let hs = page_header_start(first);
        let start = cell_array_start(self.page_type, first);
        &&& self.page_no >= 1
        &&& raw.len() >= hs + 8
        &&& page_type_of(raw[hs as int]) == Some(self.page_type)
        &&& self.number_of_cells == be_u16_at(raw, hs + 3int)
        &&& raw.len() >= start + 2 * self.number_of_cells
        &&& self.cell_pointer_array@.len() == self.number_of_cells
        &&& forall|i: int|
            0 <= i < self.number_of_cells ==> #[trigger] self.cell_pointer_array@[i]
                == cell_pointer_at(raw, start, i)
    }

    /// The bytes from the start of cell `cell_no` to the end of the page;
    /// empty when its pointer lies past the page.
    pub open spec fn cell_bytes(&self, cell_no: int) -> Seq<u8> {
        let p = self.cell_pointer_array@[cell_no] as int;
        if p <= self.raw_bytes@.len() {
            self.raw_bytes@.skip(p)
        } else {
            Seq::empty()
        }
    }

    /// The byte offset in the file at which page `page_no` starts; `None`
    /// for page number zero.
    pub fn page_offset(header: &DBHeader, page_no: u32) -> (r: Option<u64>)
        ensures
            page_no == 0 ==> r is None,
            page_no >= 1 ==> r == Some(((page_no - 1) * header.page_size_in_bytes) as u64),
    {
        if page_no == 0 {
            return None;
        }
        let index = (page_no - 1) as u64;
        let size = header.page_size_in_bytes as u64;
        assert(index * size <= 0xffff_ffffu64 * 0xffffu64) by (nonlinear_arith)
            requires
                index <= 0xffff_ffffu64,
                size <= 0xffffu64,
        ;
        Some(index * size)
    }

    /// Decodes the cell-pointer array of a page: `number_of_cells`
    /// big-endian `u16` entries right after the page header.
    pub fn get_cell_pointer_array(
        raw_data: &[u8],
        page_type: DBPageType,
        number_of_cells: u16,
        is_first_page: bool,
    ) -> (r: Vec<u16>)
        requires
            raw_data@.len() >= cell_array_start(page_type, is_first_page) + 2 * number_of_cells,
        ensures
            r@.len() == number_of_cells,
            forall|i: int|
                0 <= i < number_of_cells ==> #[trigger] r@[i] == cell_pointer_at(
                    raw_data@,
                    cell_array_start(page_type, is_first_page),
                    i,
                ),
    {
        let mut start_offset: usize = match page_type {
            DBPageType::IndexInteriorPage => 12,
            DBPageType::TableInteriorPage => 12,
            DBPageType::IndexLeafPage => 8,
            DBPageType::TableLeafPage => 8,
        };
        if is_first_page {
            start_offset = start_offset + DB_HEADER_LEN;
        }
        let ghost start = cell_array_start(page_type, is_first_page);
        let mut cell_pointer_array: Vec<u16> = Vec::new();
        let mut i: u16 = 0;
        while i < number_of_cells
            invariant
                start_offset == start,
                i <= number_of_cells,
                raw_data@.len() >= start + 2 * number_of_cells,
                cell_pointer_array@.len() == i,
                forall|k: int|
                    0 <= k < i ==> #[trigger] cell_pointer_array@[k] == cell_pointer_at(
                        raw_data@,
                        start,
                        k,
                    ),
            decreases number_of_cells - i,
        {
            assert(start_offset + 2 * (i as usize) + 2 <= raw_data.len());
            let at = start_offset + 2 * (i as usize);
            let entry: [u8; 2] = [raw_data[at], raw_data[at + 1]];
            assert(entry@ =~= raw_data@.subrange(at as int, at + 2));
            let value = as_u16_be(&entry);
            cell_pointer_array.push(value);
            i = i + 1;
        }
        cell_pointer_array
    }

    /// Decodes page `page_no` from its bytes `raw_bytes`, which must be
    /// exactly one page long.
    pub fn parse(raw_bytes: Vec<u8>, header: &DBHeader, page_no: u32) -> (r: Result<
        DBPage,
        DecodeError,
    >)
        ensures
            match page_error(raw_bytes@, *header, page_no) {
                Some(e) => r == Err::<DBPage, DecodeError>(e),
                None => r matches Ok(p) && p.wf() && p.page_no == page_no && p.raw_bytes@
                    == raw_bytes@,
            },
    {
        if page_no == 0 {
            return Err(DecodeError::BadPageNumber);
        }
        if raw_bytes.len() != header.page_size_in_bytes as usize {
            return Err(DecodeError::WrongPageLength);
        }
        let hs: usize = if page_no == 1 {
            DB_HEADER_LEN
        } else {
            0
        };
        if raw_bytes.len() < hs + 8 {
            return Err(DecodeError::Truncated);
        }
        let page_type = match DBPageType::from_u8(raw_bytes[hs]) {
            Ok(t) => t,
            Err(e) => return Err(e),
        };
        let count_bytes: [u8; 2] = [raw_bytes[hs + 3], raw_bytes[hs + 4]];
        assert(count_bytes@ =~= raw_bytes@.subrange(hs + 3, hs + 5));
        let number_of_cells = as_u16_be(&count_bytes);
        let header_size: usize = match page_type {
            DBPageType::IndexInteriorPage | DBPageType::TableInteriorPage => 12,
            DBPageType::IndexLeafPage | DBPageType::TableLeafPage => 8,
        };
        if raw_bytes.len() < hs + header_size + 2 * (number_of_cells as usize) {
            return Err(DecodeError::Truncated);
        }
        let cell_pointer_array = DBPage::get_cell_pointer_array(
            raw_bytes.as_slice(),
            page_type,
            number_of_cells,
            page_no == 1,
        );
        Ok(DBPage { page_no, page_type, number_of_cells, cell_pointer_array, raw_bytes })
    }

    /// The payload length of cell `cell_no`, read without decoding the cell.
    /// Only table-leaf pages have one; a cell number past the last cell gives
    /// `Ok(None)`.
    pub fn get_cell_length(&self, cell_no: u16) -> (r: Result<Option<u64>, DecodeError>)
        requires
            self.wf(),
        ensures
            self.page_type != DBPageType::TableLeafPage ==> r == Err::<Option<u64>, DecodeError>(
                DecodeError::UnsupportedPageType,
            ),
            self.page_type == DBPageType::TableLeafPage && cell_no >= self.number_of_cells ==> r
                == Ok::<Option<u64>, DecodeError>(None),
            self.page_type == DBPageType::TableLeafPage && cell_no < self.number_of_cells ==> {
                let bytes = self.cell_bytes(cell_no as int);
                if is_varint(bytes) {
                    r == Ok::<Option<u64>, DecodeError>(Some(varint_value(bytes) as u64))
                } else {
                    r == Err::<Option<u64>, DecodeError>(DecodeError::Truncated)
                }
            },
    {
        match self.page_type {
            DBPageType::TableLeafPage => {},
            _ => return Err(DecodeError::UnsupportedPageType),
        }
        if cell_no >= self.number_of_cells {
            return Ok(None);
        }
        let bytes = self.cell_slice(cell_no);
        match read_varint(bytes) {
            Some((length, _)) => Ok(Some(length)),
            None => Err(DecodeError::Truncated),
        }
    }

    /// The bytes from the start of cell `cell_no` to the end of the page.
    fn cell_slice(&self, cell_no: u16) -> (r: &[u8])
        requires
            self.wf(),
            cell_no < self.number_of_cells,
        ensures
            r@ == self.cell_bytes(cell_no as int),
    {
        let start = self.cell_pointer_array[cell_no as usize] as usize;
        if start <= self.raw_bytes.len() {
            let r = slice_subrange(self.raw_bytes.as_slice(), start, self.raw_bytes.len());
            assert(r@ =~= self.raw_bytes@.skip(start as int));
            r
        } else {
            let r = slice_subrange(self.raw_bytes.as_slice(), 0, 0);
            assert(r@ =~= Seq::<u8>::empty());
            r
        }
    }

    /// Decodes cell `cell_no` of a table-leaf page. A cell number past the
    /// last cell, or a page of another type, gives `Ok(None)`.
    pub fn get_cell(&self, cell_no: u16) -> (r: Result<Option<PageCell>, DecodeError>)
        requires
            self.wf(),
        ensures
            cell_no >= self.number_of_cells || self.page_type != DBPageType::TableLeafPage ==> r
                == Ok::<Option<PageCell>, DecodeError>(None),
            cell_no < self.number_of_cells && self.page_type == DBPageType::TableLeafPage ==> {
                let bytes = self.cell_bytes(cell_no as int);
                match table_leaf_cell_error(bytes) {
                    Some(e) => r == Err::<Option<PageCell>, DecodeError>(e),
                    None => r matches Ok(Some(c)) && table_leaf_cell_decodes(c, bytes),
                }
            },
    {
        if cell_no >= self.number_of_cells {
            return Ok(None);
        }
        PageCell::from_bytes(&self.page_type, self.cell_slice(cell_no))
    }
}

} // verus!
