//! PAK header decoding.

use vstd::prelude::*;

verus! {

/// PAK header size in bytes.
pub const HEADER_SIZE: usize = 12;

/// PAK file signature: the ASCII bytes of "PACK".
pub const PAK_SIG: [u8; 4] = [0x50, 0x41, 0x43, 0x4B];

/// The signature as a sequence of bytes.
pub open spec fn pak_sig() -> Seq<u8> {
    seq![0x50u8, 0x41u8, 0x43u8, 0x4Bu8]
}

/// Whether the first four bytes of `b` are the ASCII bytes of "PACK".
pub open spec fn has_pak_signature(b: Seq<u8>) -> bool {
    &&& b.len() >= 4
    &&& b[0] == 0x50
    &&& b[1] == 0x41
    &&& b[2] == 0x43
    &&& b[3] == 0x4B
}

/// The little-endian unsigned 32-bit integer stored in `b[at..at + 4]`.
pub open spec fn le_u32(b: Seq<u8>, at: int) -> int {
    b[at] as int + 0x100 * (b[at + 1] as int) + 0x1_0000 * (b[at + 2] as int) + 0x100_0000 * (
    b[at + 3] as int)
}

/// Reads the little-endian `u32` at `b[at..at + 4]`.
pub fn read_le_u32(b: &[u8], at: usize) -> (r: u32)
    requires
        at + 4 <= b@.len(),
    ensures
        r as int == le_u32(b@, at as int),
{
    let b0 = b[at] as u32;
    let b1 = b[at + 1] as u32;
    let b2 = b[at + 2] as u32;
    let b3 = b[at + 3] as u32;
    b0 + 0x100 * b1 + 0x1_0000 * b2 + 0x100_0000 * b3
}

/// Why a header buffer could not be decoded.
#[derive(Debug, Clone, Copy, PartialEq, Eq, Structural)]
pub enum IdPakHeaderError {
    /// Fewer than `HEADER_SIZE` bytes were supplied.
    InsufficientData,
    /// The first four bytes are not "PACK".
    InvalidSignature,
}

impl IdPakHeaderError {
    /// A human-readable description of the error.
    pub fn as_str(&self) -> (r: &'static str)
        ensures
            *self == IdPakHeaderError::InsufficientData ==> r@ == "Not enough data for header."@,
            *self == IdPakHeaderError::InvalidSignature ==> r@ == "Invalid signature."@,
    {
        match self {
            IdPakHeaderError::InsufficientData => "Not enough data for header.",
            IdPakHeaderError::InvalidSignature => "Invalid signature.",
        }
    }
}

/// PAK file header.
#[derive(Debug, Clone, Copy)]
pub struct IdPakHeader {
    /// "PACK", not null-terminated.
    pub id: [u8; 4],
    /// Offset from the start of the data to the table of contents.
    pub offset: u32,
    /// Size of the table of contents in bytes.
    pub size: u32,
}

/// The error that decoding `b` as a header gives, if any.
pub open spec fn header_error(b: Seq<u8>) -> Option<IdPakHeaderError> {
    if b.len() < HEADER_SIZE {
        Some(IdPakHeaderError::InsufficientData)
    } else if !has_pak_signature(b) {
        Some(IdPakHeaderError::InvalidSignature)
    } else {
        None
    }
}

impl Default for IdPakHeader {
    /// The header of an archive with an empty table of contents placed
    /// right after the header.
    fn default() -> (r: IdPakHeader)
        ensures
            r.id@ == pak_sig(),
            r.offset == HEADER_SIZE,
            r.size == 0,
    {
        let r = IdPakHeader { id: [0x50, 0x41, 0x43, 0x4B], offset: 12, size: 0 };
        assert(r.id@ =~= pak_sig());
        r
    }
}

impl IdPakHeader {
    /// Whether this header holds exactly the fields that `b` encodes.
    pub open spec fn decoded_from(&self, b: Seq<u8>) -> bool {
        &&& self.id@ == b.subrange(0, 4)
        &&& self.offset as int == le_u32(b, 4)
        &&& self.size as int == le_u32(b, 8)
    }

    /// Decodes a header from the first `HEADER_SIZE` bytes: the signature,
    /// then the little-endian table offset and table size. Bytes after
    /// those are not read.
    pub fn try_from(bytes: &[u8]) -> (r: Result<IdPakHeader, IdPakHeaderError>)
        ensures
            bytes@.len() < HEADER_SIZE ==> r == Err::<IdPakHeader, _>(
                IdPakHeaderError::InsufficientData,
            ),
            bytes@.len() >= HEADER_SIZE && !has_pak_signature(bytes@) ==> r == Err::<
                IdPakHeader,
                _,
            >(IdPakHeaderError::InvalidSignature),
            bytes@.len() >= HEADER_SIZE && has_pak_signature(bytes@) ==> r is Ok,
            match r {
                Ok(h) => header_error(bytes@) is None && h.decoded_from(bytes@) && h.id@
                    == pak_sig(),
                Err(e) => header_error(bytes@) == Some(e),
            },
    {
        if bytes.len() < HEADER_SIZE {
            return Err(IdPakHeaderError::InsufficientData);
        }
        if !(bytes[0] == 0x50 && bytes[1] == 0x41 && bytes[2] == 0x43 && bytes[3] == 0x4B) {
            return Err(IdPakHeaderError::InvalidSignature);
        }
        let id: [u8; 4] = [bytes[0], bytes[1], bytes[2], bytes[3]];
        assert(id@ =~= bytes@.subrange(0, 4));
        assert(id@ =~= pak_sig());
        Ok(IdPakHeader { id, offset: read_le_u32(bytes, 4), size: read_le_u32(bytes, 8) })
    }
}

/// The four little-endian bytes of `x`.
pub open spec fn le_bytes(x: u32) -> Seq<u8> {
    seq![
        (x % 0x100) as u8,
        (x / 0x100 % 0x100) as u8,
        (x / 0x1_0000 % 0x100) as u8,
        (x / 0x100_0000) as u8,
    ]
}

/// The header bytes that encode `offset` and `size`.
pub open spec fn encode_header(offset: u32, size: u32) -> Seq<u8> {
    pak_sig() + le_bytes(offset) + le_bytes(size)
}

/// Reading back the four little-endian bytes of `x` gives `x`.
pub proof fn lemma_le_round_trip(x: u32)
    ensures
        le_u32(le_bytes(x), 0) == x,
{
    let b = le_bytes(x);
    assert(b[0] as int == x % 0x100);
    assert(b[1] as int == x / 0x100 % 0x100);
    assert(b[2] as int == x / 0x1_0000 % 0x100);
    assert(b[3] as int == x / 0x100_0000);
    assert((x as int) == x % 0x100 + 0x100 * (x / 0x100 % 0x100) + 0x1_0000 * (x / 0x1_0000
        % 0x100) + 0x100_0000 * (x / 0x100_0000)) by (nonlinear_arith)
        requires
            0 <= x < 0x1_0000_0000,
    ;
}

/// Every header that encodes some table offset and size decodes without
/// error, carries the "PACK" signature, and gives back that offset and size.
pub proof fn lemma_header_round_trip(offset: u32, size: u32)
    ensures
        header_error(encode_header(offset, size)) is None,
        has_pak_signature(encode_header(offset, size)),
        encode_header(offset, size).subrange(0, 4) == pak_sig(),
        le_u32(encode_header(offset, size), 4) == offset,
        le_u32(encode_header(offset, size), 8) == size,
{
    let b = encode_header(offset, size);
    lemma_le_round_trip(offset);
    lemma_le_round_trip(size);
    assert(b.subrange(0, 4) =~= pak_sig());
    assert(b.subrange(4, 8) =~= le_bytes(offset));
    assert(b.subrange(8, 12) =~= le_bytes(size));
    assert(le_u32(b, 4) == le_u32(b.subrange(4, 8), 0));
    assert(le_u32(b, 8) == le_u32(b.subrange(8, 12), 0));
}

} // verus!
