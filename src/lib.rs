//! Read and index Id PAK archives: a fixed header, a table of contents of
//! fixed-size records, and the concatenated payloads those records point at.

pub mod errors;
pub mod fileentry;
pub mod header;
pub mod index;
pub mod pak;

pub use crate::fileentry::{IdPakFileEntry, IdPakFileEntryError, FILE_ENTRY_SIZE, NAME_LEN};
pub use crate::header::{IdPakHeader, IdPakHeaderError, HEADER_SIZE, PAK_SIG};
pub use crate::pak::{IdPak, IdPakReader};
pub use crate::errors::IdPakLoadResult;
