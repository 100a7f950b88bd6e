//! The two on-disk layouts of an index record, and a uniform view of both.
use vstd::prelude::*;
use crate::bytes::{be_bytes, be_value, lemma_be_round_trip, read_be_u16, read_be_u32, read_be_u48};
use crate::error::RevlogError;

verus! {

/// Size in bytes of a legacy (version 0) index record.
pub const V0_SIZE: usize = 76;

/// Size in bytes of a modern (version 1) index record.
pub const NG_SIZE: usize = 64;

/// A legacy index record: 32-bit fields and 20-byte node identifiers.
#[derive(Debug, Clone, Copy)]
pub struct IndexV0 {
    pub offset: u32,
    pub length: u32,
    pub baserev: u32,
    pub linkrev: u32,
    pub parent1: [u8; 20],
    pub parent2: [u8; 20],
    pub nodeid: [u8; 20],
}

/// A modern index record: a 48-bit offset, flags, two lengths, parents as
/// revision numbers and a 32-byte node identifier.
#[derive(Debug, Clone, Copy)]
pub struct IndexNG {
    pub offset: u64,
    pub flags: u16,
    pub length_compressed: u32,
    pub length: u32,
    pub baserev: u32,
    pub linkrev: u32,
    pub parent1: u32,
    pub parent2: u32,
    pub nodeid: [u8; 32],
}

/// One index record, in whichever layout the file uses.
#[derive(Debug, Clone, Copy)]
pub enum Index {
    V0(IndexV0),
    NG(IndexNG),
}

/// `r` holds the fields that the 76-byte window `w` encodes.
pub open spec fn v0_decodes(w: Seq<u8>, r: IndexV0) -> bool {
    &&& r.offset as nat == be_value(w.subrange(0, 4))
    &&& r.length as nat == be_value(w.subrange(4, 8))
    &&& r.baserev as nat == be_value(w.subrange(8, 12))
    &&& r.linkrev as nat == be_value(w.subrange(12, 16))
    &&& r.parent1@ == w.subrange(16, 36)
    &&& r.parent2@ == w.subrange(36, 56)
    &&& r.nodeid@ == w.subrange(56, 76)
}

/// `r` holds the fields that the 64-byte window `w` encodes; the offset
/// field of the record at the very start of the file overlaps the version
/// word and reads as zero.
pub open spec fn ng_decodes(w: Seq<u8>, first: bool, r: IndexNG) -> bool {
    &&& r.offset as nat == (if first { 0 } else { be_value(w.subrange(0, 6)) })
    &&& r.flags as nat == be_value(w.subrange(6, 8))
    &&& r.length_compressed as nat == be_value(w.subrange(8, 12))
    &&& r.length as nat == be_value(w.subrange(12, 16))
    &&& r.baserev as nat == be_value(w.subrange(16, 20))
    &&& r.linkrev as nat == be_value(w.subrange(20, 24))
    &&& r.parent1 as nat == be_value(w.subrange(24, 28))
    &&& r.parent2 as nat == be_value(w.subrange(28, 32))
    &&& r.nodeid@ == w.subrange(32, 64)
}

/// The 76 bytes that store a legacy record.
pub open spec fn v0_bytes(r: IndexV0) -> Seq<u8> {
    be_bytes(r.offset as nat, 4) + be_bytes(r.length as nat, 4) + be_bytes(r.baserev as nat, 4)
        + be_bytes(r.linkrev as nat, 4) + r.parent1@ + r.parent2@ + r.nodeid@
}

/// The 64 bytes that store a modern record.
pub open spec fn ng_bytes(r: IndexNG) -> Seq<u8> {
    be_bytes(r.offset as nat, 6) + be_bytes(r.flags as nat, 2) + be_bytes(
        r.length_compressed as nat,
        4,
    ) + be_bytes(r.length as nat, 4) + be_bytes(r.baserev as nat, 4) + be_bytes(
        r.linkrev as nat,
        4,
    ) + be_bytes(r.parent1 as nat, 4) + be_bytes(r.parent2 as nat, 4) + r.nodeid@
}

/// Encoding a decoded legacy record gives back the window it was read from.
pub proof fn lemma_v0_round_trip(w: Seq<u8>, r: IndexV0)
    requires
        w.len() == 76,
        v0_decodes(w, r),
    ensures
        v0_bytes(r) == w,
{
    lemma_be_round_trip(w.subrange(0, 4));
    lemma_be_round_trip(w.subrange(4, 8));
    lemma_be_round_trip(w.subrange(8, 12));
    lemma_be_round_trip(w.subrange(12, 16));
    assert(v0_bytes(r) =~= w);
}

/// Encoding a decoded modern record gives back the window it was read from,
/// wherever the offset field is not the file's version word.
pub proof fn lemma_ng_round_trip(w: Seq<u8>, r: IndexNG)
    requires
        w.len() == 64,
        ng_decodes(w, false, r),
    ensures
        ng_bytes(r) == w,
{
    lemma_be_round_trip(w.subrange(0, 6));
    lemma_be_round_trip(w.subrange(6, 8));
    lemma_be_round_trip(w.subrange(8, 12));
    lemma_be_round_trip(w.subrange(12, 16));
    lemma_be_round_trip(w.subrange(16, 20));
    lemma_be_round_trip(w.subrange(20, 24));
    lemma_be_round_trip(w.subrange(24, 28));
    lemma_be_round_trip(w.subrange(28, 32));
    assert(ng_bytes(r) =~= w);
}

/// Copies the `N` bytes at `at` into an array.
fn copy_bytes<const N: usize>(d: &[u8], at: usize) -> (r: [u8; N])
    requires
        at + N <= d@.len(),
    ensures
        r@ == d@.subrange(at as int, at + N),
{
    let len: usize = d.len();
    let mut r = [0u8; N];
    let mut i: usize = 0;
    while i < N
        invariant
            len == d@.len(),
            at + N <= d@.len(),
            i <= N,
            r@.len() == N,
            forall|j: int| 0 <= j < i ==> r@[j] == d@[at + j],
        decreases N - i,
    {
        r[i] = d[at + i];
        i = i + 1;
    }
    assert(r@ =~= d@.subrange(at as int, at + N));
    r
}

impl IndexV0 {
    /// Decodes the legacy record stored at `pos`.
    pub fn from_file(d: &[u8], pos: usize) -> (r: Result<IndexV0, RevlogError>)
        ensures
            r is Ok <==> pos + V0_SIZE <= d@.len(),
            r matches Ok(e) ==> v0_decodes(d@.subrange(pos as int, pos + V0_SIZE), e),
            r matches Err(e) ==> e == RevlogError::TruncatedIndex,
    {
        if d.len() < V0_SIZE || pos > d.len() - V0_SIZE {
            return Err(RevlogError::TruncatedIndex);
        }
        let ghost w = d@.subrange(pos as int, pos + V0_SIZE);
        let r = IndexV0 {
            offset: read_be_u32(d, pos),
            length: read_be_u32(d, pos + 4),
            baserev: read_be_u32(d, pos + 8),
            linkrev: read_be_u32(d, pos + 12),
            parent1: copy_bytes(d, pos + 16),
            parent2: copy_bytes(d, pos + 36),
            nodeid: copy_bytes(d, pos + 56),
        };
        proof {
            assert(w.subrange(0, 4) =~= d@.subrange(pos as int, pos + 4));
            assert(w.subrange(4, 8) =~= d@.subrange(pos + 4, pos + 8));
            assert(w.subrange(8, 12) =~= d@.subrange(pos + 8, pos + 12));
            assert(w.subrange(12, 16) =~= d@.subrange(pos + 12, pos + 16));
            assert(w.subrange(16, 36) =~= d@.subrange(pos + 16, pos + 36));
            assert(w.subrange(36, 56) =~= d@.subrange(pos + 36, pos + 56));
            assert(w.subrange(56, 76) =~= d@.subrange(pos + 56, pos + 76));
        }
        Ok(r)
    }
}

impl IndexNG {
    /// Decodes the modern record stored at `pos`. At position 0 the offset
    /// field holds the file's version word and is read as zero.
    pub fn from_file(d: &[u8], pos: usize) -> (r: Result<IndexNG, RevlogError>)
        ensures
            r is Ok <==> pos + NG_SIZE <= d@.len(),
            r matches Ok(e) ==> ng_decodes(d@.subrange(pos as int, pos + NG_SIZE), pos == 0, e),
            r matches Err(e) ==> e == RevlogError::TruncatedIndex,
    {
        if d.len() < NG_SIZE || pos > d.len() - NG_SIZE {
            return Err(RevlogError::TruncatedIndex);
        }
        let ghost w = d@.subrange(pos as int, pos + NG_SIZE);
        let offset = if pos == 0 {
            0
        } else {
            read_be_u48(d, pos)
        };
        let r = IndexNG {
            offset,
            flags: read_be_u16(d, pos + 6),
            length_compressed: read_be_u32(d, pos + 8),
            length: read_be_u32(d, pos + 12),
            baserev: read_be_u32(d, pos + 16),
            linkrev: read_be_u32(d, pos + 20),
            parent1: read_be_u32(d, pos + 24),
            parent2: read_be_u32(d, pos + 28),
            nodeid: copy_bytes(d, pos + 32),
        };
        proof {
            assert(w.subrange(0, 6) =~= d@.subrange(pos as int, pos + 6));
            assert(w.subrange(6, 8) =~= d@.subrange(pos + 6, pos + 8));
            assert(w.subrange(8, 12) =~= d@.subrange(pos + 8, pos + 12));
            assert(w.subrange(12, 16) =~= d@.subrange(pos + 12, pos + 16));
            assert(w.subrange(16, 20) =~= d@.subrange(pos + 16, pos + 20));
            assert(w.subrange(20, 24) =~= d@.subrange(pos + 20, pos + 24));
            assert(w.subrange(24, 28) =~= d@.subrange(pos + 24, pos + 28));
            assert(w.subrange(28, 32) =~= d@.subrange(pos + 28, pos + 32));
            assert(w.subrange(32, 64) =~= d@.subrange(pos + 32, pos + 64));
        }
        Ok(r)
    }
}

/// The lower-case hexadecimal digit for a value below 16.
pub open spec fn hex_digit(n: u8) -> char {
    seq!['0', '1', '2', '3', '4', '5', '6', '7', '8', '9', 'a', 'b', 'c', 'd', 'e', 'f'][n as int]
}

/// Lower-case hexadecimal text of `b`: two digits per byte, high half first.
pub open spec fn hex_text(b: Seq<u8>) -> Seq<char> {
    Seq::new(
        2 * b.len(),
        |i: int|
            if i % 2 == 0 {
                hex_digit(b[i / 2] / 16)
            } else {
                hex_digit(b[i / 2] % 16)
            },
    )
}

/// Relies on hex::encode: two lower-case digits for each byte, the high
/// half of the byte first.
#[verifier::external_body]
fn hex_encode(b: &[u8]) -> (r: String)
    ensures
        r@ == hex_text(b@),
{
    hex::encode(b)
}

impl Index {
    /// Where the payload starts, widened to 64 bits.
    pub open spec fn spec_offset(&self) -> u64 {
        match self {
            Index::V0(e) => e.offset as u64,
            Index::NG(e) => e.offset,
        }
    }

    /// The record's flags; legacy records have none.
    pub open spec fn spec_flags(&self) -> u16 {
        match self {
            Index::V0(_) => 0,
            Index::NG(e) => e.flags,
        }
    }

    /// The stored (for modern records: compressed) payload length.
    pub open spec fn spec_length(&self) -> u32 {
        match self {
            Index::V0(e) => e.length,
            Index::NG(e) => e.length_compressed,
        }
    }

    pub open spec fn spec_baserev(&self) -> u32 {
        match self {
            Index::V0(e) => e.baserev,
            Index::NG(e) => e.baserev,
        }
    }

    pub open spec fn spec_linkrev(&self) -> u32 {
        match self {
            Index::V0(e) => e.linkrev,
            Index::NG(e) => e.linkrev,
        }
    }

    /// The node identifier at the canonical width of 32 bytes: a legacy
    /// 20-byte identifier is zero-extended on the left, so it fills the low
    /// 20 bytes and the high 12 are zero.
    pub open spec fn spec_nodeid(&self) -> Seq<u8> {
        match self {
            Index::V0(e) => Seq::new(12, |i: int| 0u8) + e.nodeid@,
            Index::NG(e) => e.nodeid@,
        }
    }

    /// Size in bytes of one record in this record's layout.
    pub open spec fn spec_size(&self) -> u64 {
        match self {
            Index::V0(_) => V0_SIZE as u64,
            Index::NG(_) => NG_SIZE as u64,
        }
    }

    /// Returns the offset of the payload as a `u64`, whichever width the
    /// layout stores.
    pub fn offset(&self) -> (r: u64)
        ensures
            r == self.spec_offset(),
    {
        match self {
            Index::V0(e) => e.offset as u64,
            Index::NG(e) => e.offset,
        }
    }

    /// Returns the record's flags; a legacy record has none and gives zero.
    pub fn flags(&self) -> (r: u16)
        ensures
            r == self.spec_flags(),
    {
        match self {
            Index::NG(e) => e.flags,
            _ => 0,
        }
    }

    /// Returns the length of the stored payload (compressed, for modern
    /// records).
    pub fn length(&self) -> (r: u32)
        ensures
            r == self.spec_length(),
    {
        match self {
            Index::V0(e) => e.length,
            Index::NG(e) => e.length_compressed,
        }
    }

    /// Base revision.
    pub fn baserev(&self) -> (r: u32)
        ensures
            r == self.spec_baserev(),
    {
        match self {
            Index::V0(e) => e.baserev,
            Index::NG(e) => e.baserev,
        }
    }

    /// Link revision.
    pub fn linkrev(&self) -> (r: u32)
        ensures
            r == self.spec_linkrev(),
    {
        match self {
            Index::V0(e) => e.linkrev,
            Index::NG(e) => e.linkrev,
        }
    }

    /// Size in bytes of one record in this record's layout.
    pub fn size(&self) -> (r: u64)
        ensures
            r == self.spec_size(),
    {
        match self {
            Index::V0(_) => V0_SIZE as u64,
            Index::NG(_) => NG_SIZE as u64,
        }
    }

    /// Returns the node identifier widened to 32 bytes; the high bytes of a
    /// legacy identifier are zero.
    pub fn nodeid(&self) -> (r: [u8; 32])
        ensures
            r@ == self.spec_nodeid(),
    {
        match self {
            Index::V0(e) => {
                let mut n = [0u8; 32];
                let mut i: usize = 0;
                while i < 20
                    invariant
                        i <= 20,
                        n@.len() == 32,
                        forall|j: int| 0 <= j < i ==> n@[12 + j] == e.nodeid@[j],
                        forall|j: int| 0 <= j < 12 ==> n@[j] == 0,
                    decreases 20 - i,
                {
                    n[12 + i] = e.nodeid[i];
                    i = i + 1;
                }
                assert(n@ =~= self.spec_nodeid());
                n
            },
            Index::NG(e) => e.nodeid,
        }
    }

    /// Returns the node identifier as lower-case hexadecimal text.
    pub fn id(&self) -> (r: String)
        ensures
            r@ == hex_text(self.spec_nodeid()),
    {
        let n = self.nodeid();
        hex_encode(n.as_slice())
    }

    /// Returns the first six bytes of the node identifier as lower-case
    /// hexadecimal text.
    pub fn short_id(&self) -> (r: String)
        ensures
            r@ == hex_text(self.spec_nodeid().subrange(0, 6)),
    {
        let n = self.nodeid();
        let head: [u8; 6] = copy_bytes(n.as_slice(), 0);
        hex_encode(head.as_slice())
    }
}

/// A legacy node identifier widens to 32 bytes: 12 zero bytes, then the
/// stored 20 bytes.
pub proof fn lemma_legacy_nodeid_widened(e: IndexV0)
    ensures
        Index::V0(e).spec_nodeid().len() == 32,
        Index::V0(e).spec_nodeid().subrange(12, 32) == e.nodeid@,
        forall|i: int| 0 <= i < 12 ==> Index::V0(e).spec_nodeid()[i] == 0,
{
    assert(Index::V0(e).spec_nodeid().subrange(12, 32) =~= e.nodeid@);
}

/// The short identifier is the first twelve characters of the full one.
pub proof fn lemma_short_id_prefix(e: Index)
    ensures
        hex_text(e.spec_nodeid().subrange(0, 6)) == hex_text(e.spec_nodeid()).subrange(0, 12),
{
    assert(hex_text(e.spec_nodeid().subrange(0, 6)) =~= hex_text(e.spec_nodeid()).subrange(0, 12));
}

} // verus!
