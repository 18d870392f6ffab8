//! Read path of the SQLite on-disk format: database header, pages, cells,
//! records and typed values, each decoded from raw bytes.

pub mod db_page;
pub mod error;
pub mod record;
pub mod util;
pub mod value;
pub mod varint;
