//! PAK table-of-contents record decoding.

use crate::header::{le_u32, read_le_u32};
use vstd::prelude::*;

verus! {

/// PAK file entry size in bytes.
pub const FILE_ENTRY_SIZE: usize = 64;

/// Width of the NUL-padded name field at the start of a record.
pub const NAME_LEN: usize = 56;

/// Length of the name held in `raw`, counted from index `i`: the index of
/// the first zero byte at or after `i`, or the whole length if there is none.
pub open spec fn name_end_from(raw: Seq<u8>, i: int) -> int
    decreases raw.len() - i,
{
    if i < 0 || i >= raw.len() || raw[i] == 0 {
        if i < 0 { 0 } else { i }
    } else {
        name_end_from(raw, i + 1)
    }
}

/// The name a NUL-terminated byte field stands for: the bytes before the
/// first zero byte, each read as the character of the same code.
pub open spec fn name_of(raw: Seq<u8>) -> Seq<char> {
    raw.subrange(0, name_end_from(raw, 0)).map_values(|b: u8| b as char)
}

/// A decoded table-of-contents record.
pub struct EntryView {
    pub raw_name: Seq<u8>,
    pub offset: u32,
    pub size: u32,
}

impl EntryView {
    /// The path this record is indexed under.
    pub open spec fn name(self) -> Seq<char> {
        name_of(self.raw_name)
    }
}

/// The record that the `FILE_ENTRY_SIZE` bytes of `b` at `at` encode.
pub open spec fn entry_at(b: Seq<u8>, at: int) -> EntryView {
    EntryView {
        raw_name: b.subrange(at, at + NAME_LEN),
        offset: le_u32(b, at + NAME_LEN) as u32,
        size: le_u32(b, at + NAME_LEN + 4) as u32,
    }
}

/// Why an entry buffer could not be decoded.
#[derive(Debug, Clone, Copy, PartialEq, Eq, Structural)]
pub enum IdPakFileEntryError {
    /// Fewer than `FILE_ENTRY_SIZE` bytes were supplied.
    InsufficientData,
}

impl IdPakFileEntryError {
    /// A human-readable description of the error.
    pub fn as_str(&self) -> (r: &'static str)
        ensures
            *self == IdPakFileEntryError::InsufficientData ==> r@
                == "Not enough data for file entry."@,
    {
        match self {
            IdPakFileEntryError::InsufficientData => "Not enough data for file entry.",
        }
    }
}

/// The error that decoding `b` as a record gives, if any.
pub open spec fn entry_error(b: Seq<u8>) -> Option<IdPakFileEntryError> {
    if b.len() < FILE_ENTRY_SIZE {
        Some(IdPakFileEntryError::InsufficientData)
    } else {
        None
    }
}

/// PAK file entry.
#[derive(Debug, Clone, Copy)]
pub struct IdPakFileEntry {
    /// File path: a 56-byte NUL-terminated string, e.g. "maps/e1m1.bsp".
    pub name: [u8; 56],
    /// Offset from the start of the data to this file's contents.
    pub offset: u32,
    /// Size of this file's contents in bytes.
    pub size: u32,
}

impl View for IdPakFileEntry {
    type V = EntryView;

    open spec fn view(&self) -> EntryView {
        EntryView { raw_name: self.name@, offset: self.offset, size: self.size }
    }
}

/// Relies on `String::push`: appends one character.
#[verifier::external_body]
fn push_char(s: &mut String, c: char)
    ensures
        final(s)@ == old(s)@.push(c),
{
    s.push(c);
}

impl IdPakFileEntry {
    /// The path stored in the name field: its bytes up to the first zero
    /// byte, each read as one character.
    pub fn get_name(&self) -> (r: String)
        ensures
            r@ == self@.name(),
    {
        let mut result = String::new();
        let mut i: usize = 0;
        while i < NAME_LEN && self.name[i] != 0
            invariant
                i <= NAME_LEN,
                self.name@.len() == NAME_LEN,
                name_end_from(self.name@, i as int) == name_end_from(self.name@, 0),
                result@ =~= self.name@.subrange(0, i as int).map_values(|b: u8| b as char),
            decreases NAME_LEN - i,
        {
            push_char(&mut result, self.name[i] as char);
            i = i + 1;
        }
        result
    }

    /// Decodes a record from the first `FILE_ENTRY_SIZE` bytes: the name
    /// field, then the little-endian payload offset and payload size. Bytes
    /// after those are not read.
    pub fn try_from(bytes: &[u8]) -> (r: Result<IdPakFileEntry, IdPakFileEntryError>)
        ensures
            bytes@.len() < FILE_ENTRY_SIZE ==> r == Err::<IdPakFileEntry, _>(
                IdPakFileEntryError::InsufficientData,
            ),
            bytes@.len() >= FILE_ENTRY_SIZE ==> r is Ok,
            match r {
                Ok(e) => entry_error(bytes@) is None && e@ == entry_at(bytes@, 0),
                Err(e) => entry_error(bytes@) == Some(e),
            },
    {
        if bytes.len() < FILE_ENTRY_SIZE {
            return Err(IdPakFileEntryError::InsufficientData);
        }
        let mut path: [u8; 56] = [0; 56];
        let mut i: usize = 0;
        while i < NAME_LEN
            invariant
                i <= NAME_LEN,
                bytes@.len() >= FILE_ENTRY_SIZE,
                path@.len() == NAME_LEN,
                forall|j: int| 0 <= j < i ==> path@[j] == bytes@[j],
            decreases NAME_LEN - i,
        {
            path[i] = bytes[i];
            i = i + 1;
        }
        assert(path@ =~= bytes@.subrange(0, NAME_LEN as int));
        Ok(
            IdPakFileEntry {
                name: path,
                offset: read_le_u32(bytes, NAME_LEN),
                size: read_le_u32(bytes, NAME_LEN + 4),
            },
        )
    }
}

} // verus!
