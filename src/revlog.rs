//! A revlog: its version word and the ordered list of its index records,
//! and the location of each record's payload.
use vstd::prelude::*;
use crate::bytes::{be_value, read_be_u32};
use crate::error::RevlogError;
use crate::index::{ng_decodes, v0_decodes, Index, IndexNG, IndexV0, NG_SIZE, V0_SIZE};

verus! {

/// Payload bytes are stored in the index file, right after each record.
pub const REVLOG_FLAG_INLINE_DATA: u32 = 0x1_0000;

/// Deltas are stored against an arbitrary base revision (not interpreted).
pub const REVLOG_FLAG_GENERALDELTA: u32 = 0x2_0000;

/// The low half of the version word is the layout version.
pub const REVLOG_VERSION_MASK: u32 = 0xffff;

/// The high half of the version word holds the flags.
pub const REVLOG_FLAGS_MASK: u32 = 0xffff_0000;

/// A loaded revlog index. Position in `index` is the revision number.
pub struct Revlog {
    pub version: u32,
    pub flags: u32,
    pub index: Vec<Index>,
}

/// The first four bytes of the file read as a big-endian word.
pub open spec fn header_word(d: Seq<u8>) -> u32 {
    be_value(d.subrange(0, 4)) as u32
}

/// Size of one index record in the layout of `version`.
pub open spec fn layout_size(version: u32) -> nat {
    if version == 0 {
        V0_SIZE as nat
    } else {
        NG_SIZE as nat
    }
}

/// The stored payload length of the record at `pos`.
pub open spec fn stored_length(d: Seq<u8>, version: u32, pos: nat) -> nat {
    if version == 0 {
        be_value(d.subrange(pos + 4int, pos + 8int))
    } else {
        be_value(d.subrange(pos + 8int, pos + 12int))
    }
}

/// Where reading goes on after the record at `pos`: past the record, and
/// past its payload when payloads are inline.
pub open spec fn next_start(d: Seq<u8>, version: u32, inline: bool, pos: nat) -> nat {
    pos + layout_size(version) + if inline {
        stored_length(d, version, pos)
    } else {
        0
    }
}

/// Puts `pre` in front of a successful list of positions.
pub open spec fn prepend(pre: Seq<nat>, r: Result<Seq<nat>, RevlogError>) -> Result<
    Seq<nat>,
    RevlogError,
> {
    match r {
        Ok(s) => Ok(pre + s),
        Err(e) => Err(e),
    }
}

/// The positions of the index records from `pos` on. Reading succeeds only
/// when the last record (with its inline payload) ends exactly at the end
/// of the file.
pub open spec fn record_starts(d: Seq<u8>, version: u32, inline: bool, pos: nat) -> Result<
    Seq<nat>,
    RevlogError,
>
    decreases d.len() - pos,
{
    if pos + layout_size(version) > d.len() {
        Err(
            if pos == 0 {
                RevlogError::TruncatedIndex
            } else {
                RevlogError::CorruptIndex
            },
        )
    } else {
        let next = next_start(d, version, inline, pos);
        if next == d.len() {
            Ok(seq![pos])
        } else if next > d.len() {
            Err(RevlogError::CorruptIndex)
        } else {
            prepend(seq![pos], record_starts(d, version, inline, next))
        }
    }
}

/// `e` is the record of layout `version` stored at `pos`.
pub open spec fn decodes_at(d: Seq<u8>, version: u32, pos: nat, e: Index) -> bool {
    match e {
        Index::V0(r) => version == 0 && v0_decodes(d.subrange(pos as int, pos + V0_SIZE), r),
        Index::NG(r) => version == 1 && ng_decodes(
            d.subrange(pos as int, pos + NG_SIZE),
            pos == 0,
            r,
        ),
    }
}

/// What loading the file `d` yields: its version, its flags and the
/// positions of its records, or the reason it fails.
pub open spec fn spec_load(d: Seq<u8>) -> Result<(u32, u32, Seq<nat>), RevlogError> {
    if d.len() < 4 {
        Err(RevlogError::MalformedHeader)
    } else {
        let w = header_word(d);
        let version = w & REVLOG_VERSION_MASK;
        let flags = w & REVLOG_FLAGS_MASK;
        if version > 1 {
            Err(RevlogError::UnsupportedVersion)
        } else {
            match record_starts(d, version, flags & REVLOG_FLAG_INLINE_DATA != 0, 0) {
                Ok(s) => Ok((version, flags, s)),
                Err(e) => Err(e),
            }
        }
    }
}

proof fn lemma_prepend_assoc(a: Seq<nat>, b: Seq<nat>, r: Result<Seq<nat>, RevlogError>)
    ensures
        prepend(a, prepend(b, r)) == prepend(a + b, r),
{
    if let Ok(s) = r {
        assert(a + (b + s) =~= (a + b) + s);
    }
}

/// Loading succeeds exactly where the last record, with its inline
/// payload, ends at the end of the file: a record that ends there closes
/// the index, and a walk that stops short of the end with less than a
/// record left, or that runs past it, is corrupt.
pub proof fn lemma_index_ends_at_eof(d: Seq<u8>, version: u32, inline: bool, pos: nat)
    ensures
        record_starts(d, version, inline, pos) matches Ok(s) ==> s.len() > 0 && next_start(
            d,
            version,
            inline,
            s.last(),
        ) == d.len(),
        pos > 0 && pos < d.len() && pos + layout_size(version) > d.len() ==> record_starts(
            d,
            version,
            inline,
            pos,
        ) == Err::<Seq<nat>, RevlogError>(RevlogError::CorruptIndex),
        pos + layout_size(version) <= d.len() && next_start(d, version, inline, pos) > d.len()
            ==> record_starts(d, version, inline, pos) == Err::<Seq<nat>, RevlogError>(
            RevlogError::CorruptIndex,
        ),
        pos + layout_size(version) <= d.len() && next_start(d, version, inline, pos) == d.len()
            ==> record_starts(d, version, inline, pos) == Ok::<Seq<nat>, RevlogError>(seq![pos]),
    decreases d.len() - pos,
{
    if pos + layout_size(version) <= d.len() {
        let next = next_start(d, version, inline, pos);
        if next < d.len() {
            lemma_index_ends_at_eof(d, version, inline, next);
            if let Ok(s) = record_starts(d, version, inline, next) {
                assert((seq![pos] + s).last() == s.last());
            }
        }
    }
}

impl Revlog {
    /// Reads the version word: the layout version and the flags.
    fn read_version(d: &[u8]) -> (r: Result<(u32, u32), RevlogError>)
        ensures
            r is Ok <==> d@.len() >= 4,
            r matches Ok((v, f)) ==> v == header_word(d@) & REVLOG_VERSION_MASK && f
                == header_word(d@) & REVLOG_FLAGS_MASK,
            r matches Err(e) ==> e == RevlogError::MalformedHeader,
    {
        if d.len() < 4 {
            return Err(RevlogError::MalformedHeader);
        }
        let number = read_be_u32(d, 0);
        Ok((number & REVLOG_VERSION_MASK, number & REVLOG_FLAGS_MASK))
    }

    /// Decodes the record of layout `version` stored at `pos`.
    fn read_index(d: &[u8], pos: usize, version: u32) -> (r: Result<Index, RevlogError>)
        ensures
            version > 1 ==> r == Err::<Index, RevlogError>(RevlogError::UnsupportedVersion),
            version <= 1 ==> (r is Ok <==> pos + layout_size(version) <= d@.len()),
            version <= 1 && r is Err ==> r == Err::<Index, RevlogError>(
                RevlogError::TruncatedIndex,
            ),
            r matches Ok(e) ==> decodes_at(d@, version, pos as nat, e),
    {
        match version {
            0 => match IndexV0::from_file(d, pos) {
                Ok(e) => Ok(Index::V0(e)),
                Err(e) => Err(e),
            },
            1 => match IndexNG::from_file(d, pos) {
                Ok(e) => Ok(Index::NG(e)),
                Err(e) => Err(e),
            },
            _ => Err(RevlogError::UnsupportedVersion),
        }
    }

    /// Loads the index of the revlog file `d`: the version word, then
    /// every record in order, stepping over inline payloads.
    pub fn from_file(d: &[u8]) -> (r: Result<Revlog, RevlogError>)
        ensures
            spec_load(d@) matches Err(e) ==> r == Err::<Revlog, RevlogError>(e),
            spec_load(d@) matches Ok((v, f, s)) ==> r matches Ok(rl) && rl.version == v
                && rl.flags == f && rl.wf() && rl.index@.len() == s.len() && forall|i: int|
                0 <= i < s.len() ==> decodes_at(d@, v, #[trigger] s[i], rl.index@[i]),
    {
        let (version, flags) = match Revlog::read_version(d) {
            Ok(vf) => vf,
            Err(e) => return Err(e),
        };
        if version > 1 {
            return Err(RevlogError::UnsupportedVersion);
        }
        let inline = flags & REVLOG_FLAG_INLINE_DATA != 0;
        let len: usize = d.len();
        let mut index: Vec<Index> = Vec::new();
        let mut pos: usize = 0;
        let ghost mut starts: Seq<nat> = seq![];
        proof {
            assert(prepend(seq![], record_starts(d@, version, inline, 0)) == record_starts(
                d@,
                version,
                inline,
                0,
            )) by {
                if let Ok(s) = record_starts(d@, version, inline, 0) {
                    assert(Seq::<nat>::empty() + s =~= s);
                }
            }
        }
        loop
            invariant_except_break
                pos == 0 ==> starts.len() == 0,
                record_starts(d@, version, inline, 0) == prepend(
                    starts,
                    record_starts(d@, version, inline, pos as nat),
                ),
            invariant
                len == d@.len(),
                version <= 1,
                spec_load(d@) == match record_starts(d@, version, inline, 0) {
                    Ok(s) => Ok((version, flags, s)),
                    Err(e) => Err(e),
                },
                pos <= len,
                index@.len() == starts.len(),
                forall|i: int|
                    0 <= i < starts.len() ==> decodes_at(
                        d@,
                        version,
                        #[trigger] starts[i],
                        index@[i],
                    ),
            ensures
                record_starts(d@, version, inline, 0) == Ok::<Seq<nat>, RevlogError>(starts),
            decreases len - pos,
        {
            let entry = match Revlog::read_index(d, pos, version) {
                Ok(e) => e,
                Err(_) => {
                    if pos == 0 {
                        return Err(RevlogError::TruncatedIndex);
                    } else {
                        return Err(RevlogError::CorruptIndex);
                    }
                },
            };
            let mut next: u128 = pos as u128 + entry.size() as u128;
            if inline {
                next = next + entry.length() as u128;
            }
            proof {
                let w = d@.subrange(pos as int, pos + layout_size(version));
                if version == 0 {
                    assert(w.subrange(4, 8) =~= d@.subrange(pos + 4int, pos + 8int));
                } else {
                    assert(w.subrange(8, 12) =~= d@.subrange(pos + 8int, pos + 12int));
                }
                assert(next == next_start(d@, version, inline, pos as nat));
                lemma_prepend_assoc(
                    starts,
                    seq![pos as nat],
                    record_starts(d@, version, inline, next as nat),
                );
            }
            index.push(entry);
            proof {
                assert(starts.push(pos as nat) =~= starts + seq![pos as nat]);
                assert(pos + layout_size(version) <= d@.len());
                if next == len {
                    assert(record_starts(d@, version, inline, pos as nat) == Ok::<
                        Seq<nat>,
                        RevlogError,
                    >(seq![pos as nat]));
                } else if next < len {
                    assert(record_starts(d@, version, inline, pos as nat) == prepend(
                        seq![pos as nat],
                        record_starts(d@, version, inline, next as nat),
                    ));
                }
                starts = starts.push(pos as nat);
            }
            if next == len as u128 {
                break ;
            }
            if next > len as u128 {
                return Err(RevlogError::CorruptIndex);
            }
            pos = next as usize;
        }
        assert forall|i: int| 0 <= i < index@.len() implies (#[trigger] index@[i] is V0
            <==> version == 0) by {
            assert(decodes_at(d@, version, starts[i], index@[i]));
        }
        Ok(Revlog { version, flags, index })
    }

    /// A known layout version, and every record in that version's layout:
    /// legacy exactly when the version is 0.
    pub open spec fn wf(&self) -> bool {
        &&& self.version <= 1
        &&& forall|i: int|
            0 <= i < self.index@.len() ==> (#[trigger] self.index@[i] is V0 <==> self.version
                == 0)
    }

    /// The file offset of the payload of record `i`. Inline payloads sit
    /// after the `i + 1` records up to and including their own.
    pub open spec fn payload_offset(&self, i: int) -> int {
        let e = self.index@[i];
        if self.flags & REVLOG_FLAG_INLINE_DATA != 0 {
            e.spec_offset() + layout_size(self.version) * (i + 1)
        } else {
            e.spec_offset() as int
        }
    }

    /// Whether any bit of `flag` is set in the revlog's flags.
    pub fn has_flag(&self, flag: u32) -> (r: bool)
        ensures
            r == (self.flags & flag != 0),
    {
        self.flags & flag != 0
    }

    /// Whether any bit of `flag` is set in the revlog's flags.
    pub fn flag(&self, flag: u32) -> (r: bool)
        ensures
            r == (self.flags & flag != 0),
    {
        self.has_flag(flag)
    }

    /// Returns the stored payload of record `index`. `d` is the index file
    /// when payloads are inline, and the separate data file otherwise.
    pub fn read_data(&self, d: &[u8], index: u64) -> (r: Result<Vec<u8>, RevlogError>)
        requires
            self.wf(),
            index < self.index@.len(),
        ensures
            r is Ok <==> self.payload_offset(index as int) + self.index@[index as int].spec_length()
                <= d@.len(),
            r matches Ok(v) ==> v@ == d@.subrange(
                self.payload_offset(index as int),
                self.payload_offset(index as int) + self.index@[index as int].spec_length(),
            ),
            r matches Err(e) ==> e == RevlogError::ShortRead,
    {
        let count: usize = self.index.len();
        assert(index < count);
        let entry = &self.index[index as usize];
        let length = entry.length();
        let offset: u128 = if self.has_flag(REVLOG_FLAG_INLINE_DATA) {
            let size = entry.size() as u128;
            let records = index as u128 + 1;
            assert(size * records <= 76 * 0x1_0000_0000_0000_0000) by (nonlinear_arith)
                requires
                    size <= 76,
                    records <= 0x1_0000_0000_0000_0000,
            ;
            entry.offset() as u128 + size * records
        } else {
            entry.offset() as u128
        };
        assert(offset == self.payload_offset(index as int));
        let len: usize = d.len();
        if offset + length as u128 > len as u128 {
            return Err(RevlogError::ShortRead);
        }
        let start = offset as usize;
        let end = start + length as usize;
        let mut buffer: Vec<u8> = Vec::new();
        let mut i: usize = start;
        while i < end
            invariant
                len == d@.len(),
                start <= i <= end,
                end <= len,
                buffer@ == d@.subrange(start as int, i as int),
            decreases end - i,
        {
            buffer.push(d[i]);
            i = i + 1;
            assert(buffer@ =~= d@.subrange(start as int, i as int));
        }
        Ok(buffer)
    }
}

} // verus!
