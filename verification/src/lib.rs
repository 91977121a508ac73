//! A reader for Unreal Engine `.pak` archives held in memory.
//!
//! The archive is a byte buffer. Its trailer and index are decoded into a
//! [`Pak`], which lists the entries and extracts them: the body of an entry
//! is decrypted with AES-256 in ECB mode and unpacked block by block.
//! Every function is stated against a mathematical model of the bytes that
//! it reads, and proved against it.
//!
//! - [`reader`], [`bytes`], [`text`]: a cursor over bytes, and the
//!   primitive values of the format
//! - [`version`], [`footer`]: the revisions of the format and the trailer
//! - [`entry`], [`index`], [`table`]: the records of the entries, in their
//!   two forms, and the index that lists them
//! - [`crypt`], [`inflate`], [`extract`]: decryption, decompression, and
//!   the way from a record to the content of its entry
//! - [`pak`]: the archive as a whole, opened as a known revision or as the
//!   latest that fits
//! - [`encode`], [`records`], [`listing`], [`laws`]: models of the bytes
//!   that stand for a trailer or a record, of what an index lists, and what
//!   is proved of the reader with them

pub mod bytes;
pub mod compression;
pub mod crypt;
pub mod encode;
pub mod entry;
pub mod error;
pub mod extract;
pub mod footer;
pub mod index;
pub mod inflate;
pub mod laws;
pub mod listing;
pub mod pak;
pub mod reader;
pub mod records;
pub mod table;
pub mod text;
pub mod version;

pub use crate::compression::Compression;
pub use crate::crypt::decrypt;
pub use crate::entry::{Block, Entry};
pub use crate::error::{Error, IoKind};
pub use crate::footer::Footer;
pub use crate::pak::Pak;
pub use crate::reader::Reader;
pub use crate::version::{Version, MAGIC};
