//! The binary format of a soul file.
//!
//! | offset | size | field                                   |
//! |--------|------|-----------------------------------------|
//! | 0      | 4    | magic tag                               |
//! | 4      | 2    | format version                          |
//! | 6      | 8    | checksum: written as zero, never read   |
//! | 14     | 4    | level                                   |
//! | 18     | 8    | experience                              |
//! | 26     | 32   | eight quest slots of 4 bytes, in order  |
//! | 58     | 4    | padding: written as zero, never read    |
//! | 62     | hp   | zero bytes; only their number counts    |
//!
//! All integers are little-endian. The hit points are stored nowhere: they
//! are the number of bytes that follow the 62-byte header.

use crate::bytes::{
    le_bytes, le_value, lemma_le_bytes_len, lemma_le_value_bound, lemma_le_value_of_bytes,
    lemma_pow256_widths, push_u16_le, push_u32_le, push_u64_le, push_zeros, read_u16_le,
    read_u32_le, read_u64_le, zeros,
};
use crate::error::SoulError;
use crate::soul::{spec_max_hp, Soul, SoulView, HEADER_SIZE, MAGIC, MAX_LEVEL, VERSION};
use vstd::prelude::*;

verus! {

/// The eight quest slots as 32 bytes: four per slot, in slot order.
pub open spec fn slots_bytes(quests: Seq<u32>) -> Seq<u8> {
    Seq::new(4 * quests.len(), |i: int| le_bytes(quests[i / 4] as nat, 4)[i % 4])
}

/// The 62-byte header of a record.
pub open spec fn spec_header(v: SoulView) -> Seq<u8> {
    MAGIC@ + le_bytes(VERSION as nat, 2) + zeros(8) + le_bytes(v.level as nat, 4) + le_bytes(
        v.xp as nat,
        8,
    ) + slots_bytes(v.quests) + zeros(4)
}

/// The bytes of a record: the header, then as many zero bytes as the record
/// has hit points.
pub open spec fn spec_bytes(v: SoulView) -> Seq<u8> {
    spec_header(v) + zeros(v.hp as nat)
}

/// What encoding answers: the bytes of a valid record, and for an invalid
/// one the reason, with no bytes.
pub open spec fn spec_encode(v: SoulView) -> Result<Seq<u8>, SoulError> {
    match v.validate() {
        Err(e) => Err(e),
        Ok(_) => Ok(spec_bytes(v)),
    }
}

/// An encoding result with the bytes taken as a sequence.
pub open spec fn encoded(r: Result<Vec<u8>, SoulError>) -> Result<Seq<u8>, SoulError> {
    match r {
        Ok(bytes) => Ok(bytes@),
        Err(e) => Err(e),
    }
}

/// The little-endian number in the `width` bytes at offset `at`.
pub open spec fn field(bytes: Seq<u8>, at: int, width: int) -> nat {
    le_value(bytes.subrange(at, at + width))
}

/// A length less the header, held to 32 bits: the hit points that a source
/// of `total` bytes stands for. A length too large for 32 bits is pinned to
/// the largest 32-bit value, which no level allows.
pub open spec fn spec_trailing_hp(total: nat) -> u32 {
    if total - HEADER_SIZE > u32::MAX {
        u32::MAX
    } else {
        (total - HEADER_SIZE) as u32
    }
}

/// What decoding answers for a source of `total` bytes that begins with
/// `header`. The checks come in this order: length, magic tag, version, then
/// the validity of the record read. The checksum and padding fields and the
/// content of the bytes after the header are not looked at.
pub open spec fn spec_decode_header(header: Seq<u8>, total: nat) -> Result<SoulView, SoulError> {
    if total < HEADER_SIZE {
        Err(SoulError::FileTooSmall(total as u64))
    } else if header.subrange(0, 4) != MAGIC@ {
        Err(SoulError::InvalidMagic([header[0], header[1], header[2], header[3]]))
    } else if field(header, 4, 2) != VERSION {
        Err(SoulError::UnsupportedVersion(field(header, 4, 2) as u16))
    } else {
        let v = SoulView {
            level: field(header, 14, 4) as u32,
            xp: field(header, 18, 8) as u64,
            quests: Seq::new(8, |i: int| field(header, 26 + 4 * i, 4) as u32),
            hp: spec_trailing_hp(total),
        };
        match v.validate() {
            Err(e) => Err(e),
            Ok(_) => Ok(v),
        }
    }
}

/// What decoding answers for a whole source.
pub open spec fn spec_decode(bytes: Seq<u8>) -> Result<SoulView, SoulError> {
    spec_decode_header(bytes, bytes.len())
}

/// A decoding result with the record taken by its value.
pub open spec fn decoded(r: Result<Soul, SoulError>) -> Result<SoulView, SoulError> {
    match r {
        Ok(s) => Ok(s@),
        Err(e) => Err(e),
    }
}

impl Soul {
    /// The bytes of this record, or the reason it is not valid. An invalid
    /// record yields no bytes.
    pub fn encode(&self) -> (r: Result<Vec<u8>, SoulError>)
        ensures
            encoded(r) == spec_encode(self@),
    {
        match self.validate() {
            Err(e) => {
                return Err(e);
            },
            Ok(_) => {},
        }
        let mut out: Vec<u8> = Vec::new();
        out.push(MAGIC[0]);
        out.push(MAGIC[1]);
        out.push(MAGIC[2]);
        out.push(MAGIC[3]);
        assert(out@ =~= MAGIC@);
        push_u16_le(&mut out, VERSION);
        push_zeros(&mut out, 8);
        push_u32_le(&mut out, self.level);
        push_u64_le(&mut out, self.xp);
        let ghost head = out@;
        let ghost slots = slots_bytes(self.quests@);
        assert(head =~= head + slots.take(0));
        let mut i: usize = 0;
        while i < 8
            invariant
                i <= 8,
                slots == slots_bytes(self.quests@),
                out@ == head + slots.take(4 * i),
            decreases 8 - i,
        {
            push_u32_le(&mut out, self.quests[i]);
            proof {
                lemma_le_bytes_len(self.quests@[i as int] as nat, 4);
                assert(out@ =~= head + slots.take(4 * (i + 1))) by {
                    let piece = le_bytes(self.quests@[i as int] as nat, 4);
                    assert forall|k: int| 0 <= k < 4 implies slots[4 * i + k] == piece[k] by {
                        assert((4 * i + k) / 4 == i);
                        assert((4 * i + k) % 4 == k);
                    }
                }
            }
            i = i + 1;
        }
        assert(slots.take(32) =~= slots);
        push_zeros(&mut out, 4);
        push_zeros(&mut out, self.hp as usize);
        Ok(out)
    }

    /// Decodes a record from the first bytes of a source and the source's
    /// length. `header` holds the source from its start; it must reach to the
    /// end of the fixed header whenever the source does.
    pub fn decode_header(header: &[u8], total_len: u64) -> (r: Result<Soul, SoulError>)
        requires
            total_len >= HEADER_SIZE ==> header@.len() >= HEADER_SIZE,
        ensures
            decoded(r) == spec_decode_header(header@, total_len as nat),
    {
        if total_len < HEADER_SIZE {
            return Err(SoulError::FileTooSmall(total_len));
        }
        let magic: [u8; 4] = [header[0], header[1], header[2], header[3]];
        if magic[0] != MAGIC[0] || magic[1] != MAGIC[1] || magic[2] != MAGIC[2] || magic[3]
            != MAGIC[3] {
            proof {
                let found = header@.subrange(0, 4);
                assert(found[0] == header@[0] && found[1] == header@[1] && found[2] == header@[2]
                    && found[3] == header@[3]);
                assert(magic =~= [header@[0], header@[1], header@[2], header@[3]]);
            }
            return Err(SoulError::InvalidMagic(magic));
        }
        assert(header@.subrange(0, 4) =~= MAGIC@);
        let version = read_u16_le(header, 4);
        if version != VERSION {
            return Err(SoulError::UnsupportedVersion(version));
        }
        let level = read_u32_le(header, 14);
        let xp = read_u64_le(header, 18);
        let mut quests: [u32; 8] = [0; 8];
        let mut i: usize = 0;
        while i < 8
            invariant
                i <= 8,
                header@.len() >= 62,
                forall|j: int| 0 <= j < i ==> quests@[j] == field(header@, 26 + 4 * j, 4),
            decreases 8 - i,
        {
            quests[i] = read_u32_le(header, 26 + 4 * i);
            i = i + 1;
        }
        let extra: u64 = total_len - HEADER_SIZE;
        let hp: u32 = if extra > u32::MAX as u64 {
            u32::MAX
        } else {
            extra as u32
        };
        let soul = Soul { level, xp, quests, hp };
        proof {
            assert(soul@.quests =~= Seq::new(8, |i: int| field(header@, 26 + 4 * i, 4) as u32));
        }
        match soul.validate() {
            Err(e) => Err(e),
            Ok(_) => Ok(soul),
        }
    }

    /// Decodes a record from a whole source. The hit points are the number
    /// of bytes after the header; what those bytes hold does not matter.
    pub fn decode(bytes: &[u8]) -> (r: Result<Soul, SoulError>)
        ensures
            decoded(r) == spec_decode(bytes@),
    {
        Soul::decode_header(bytes, bytes.len() as u64)
    }
}

/// Where each field lies in the header: the layout table, as equations.
pub proof fn lemma_header_layout(v: SoulView)
    requires
        v.well_formed(),
    ensures
        spec_header(v).len() == HEADER_SIZE,
        spec_header(v).subrange(0, 4) == MAGIC@,
        spec_header(v).subrange(4, 6) == le_bytes(VERSION as nat, 2),
        spec_header(v).subrange(6, 14) == zeros(8),
        spec_header(v).subrange(14, 18) == le_bytes(v.level as nat, 4),
        spec_header(v).subrange(18, 26) == le_bytes(v.xp as nat, 8),
        forall|i: int|
            0 <= i < 8 ==> #[trigger] spec_header(v).subrange(26 + 4 * i, 30 + 4 * i) == le_bytes(
                v.quests[i] as nat,
                4,
            ),
        spec_header(v).subrange(58, 62) == zeros(4),
{
    let h = spec_header(v);
    lemma_le_bytes_len(VERSION as nat, 2);
    lemma_le_bytes_len(v.level as nat, 4);
    lemma_le_bytes_len(v.xp as nat, 8);
    assert(h.len() == 62);
    assert(h.subrange(0, 4) =~= MAGIC@);
    assert(h.subrange(4, 6) =~= le_bytes(VERSION as nat, 2));
    assert(h.subrange(6, 14) =~= zeros(8));
    assert(h.subrange(14, 18) =~= le_bytes(v.level as nat, 4));
    assert(h.subrange(18, 26) =~= le_bytes(v.xp as nat, 8));
    assert(h.subrange(58, 62) =~= zeros(4));
    assert forall|i: int| 0 <= i < 8 implies #[trigger] h.subrange(26 + 4 * i, 30 + 4 * i)
        == le_bytes(v.quests[i] as nat, 4) by {
        let piece = le_bytes(v.quests[i] as nat, 4);
        lemma_le_bytes_len(v.quests[i] as nat, 4);
        assert forall|k: int| 0 <= k < 4 implies h.subrange(26 + 4 * i, 30 + 4 * i)[k]
            == piece[k] by {
            assert(h[26 + 4 * i + k] == slots_bytes(v.quests)[4 * i + k]);
            assert((4 * i + k) / 4 == i);
            assert((4 * i + k) % 4 == k);
        }
        assert(h.subrange(26 + 4 * i, 30 + 4 * i) =~= piece);
    }
}

/// A field of two, four or eight bytes holds a 16-, 32- or 64-bit number:
/// nothing is cut off where decoding takes a field as such a number.
pub proof fn lemma_field_fits(bytes: Seq<u8>, at: int)
    requires
        0 <= at,
    ensures
        at + 2 <= bytes.len() ==> field(bytes, at, 2) <= u16::MAX,
        at + 4 <= bytes.len() ==> field(bytes, at, 4) <= u32::MAX,
        at + 8 <= bytes.len() ==> field(bytes, at, 8) <= u64::MAX,
{
    lemma_pow256_widths();
    if at + 2 <= bytes.len() {
        lemma_le_value_bound(bytes.subrange(at, at + 2));
    }
    if at + 4 <= bytes.len() {
        lemma_le_value_bound(bytes.subrange(at, at + 4));
    }
    if at + 8 <= bytes.len() {
        lemma_le_value_bound(bytes.subrange(at, at + 8));
    }
}

/// Round trip: the bytes that encoding gives for a record decode to that
/// record.
pub proof fn lemma_decode_encode(v: SoulView)
    requires
        v.well_formed(),
    ensures
        spec_encode(v) matches Ok(bytes) ==> spec_decode(bytes) == Ok::<SoulView, SoulError>(v),
        spec_encode(v) is Ok <==> v.valid(),
{
    if v.valid() {
        let h = spec_header(v);
        let bytes = spec_bytes(v);
        lemma_header_layout(v);
        lemma_pow256_widths();
        assert(bytes.len() == 62 + v.hp);
        assert(bytes.subrange(0, 4) =~= h.subrange(0, 4));
        assert(bytes.subrange(4, 6) =~= h.subrange(4, 6));
        assert(bytes.subrange(14, 18) =~= h.subrange(14, 18));
        assert(bytes.subrange(18, 26) =~= h.subrange(18, 26));
        lemma_le_value_of_bytes(VERSION as nat, 2);
        lemma_le_value_of_bytes(v.level as nat, 4);
        lemma_le_value_of_bytes(v.xp as nat, 8);
        let read = Seq::new(8, |i: int| field(bytes, 26 + 4 * i, 4) as u32);
        assert forall|i: int| 0 <= i < 8 implies read[i] == v.quests[i] by {
            assert(bytes.subrange(26 + 4 * i, 26 + 4 * i + 4) =~= h.subrange(
                26 + 4 * i,
                30 + 4 * i,
            ));
            lemma_le_value_of_bytes(v.quests[i] as nat, 4);
        }
        assert(read =~= v.quests);
        assert(spec_trailing_hp(bytes.len()) == v.hp);
    }
}

/// Decoding looks at the length of a source and at its header, not at what
/// follows the header: two sources of one length that agree on their first
/// 62 bytes decode alike.
pub proof fn lemma_decode_ignores_trailer(a: Seq<u8>, b: Seq<u8>)
    requires
        a.len() == b.len(),
        a.len() >= HEADER_SIZE ==> a.take(62) == b.take(62),
    ensures
        spec_decode(a) == spec_decode(b),
{
    if a.len() >= 62 {
        assert forall|i: int| 0 <= i < 62 implies a[i] == b[i] by {
            assert(a.take(62)[i] == b.take(62)[i]);
        }
        assert(a.subrange(0, 4) =~= b.subrange(0, 4));
        assert(a.subrange(4, 6) =~= b.subrange(4, 6));
        assert(a.subrange(14, 18) =~= b.subrange(14, 18));
        assert(a.subrange(18, 26) =~= b.subrange(18, 26));
        let qa = Seq::new(8, |i: int| field(a, 26 + 4 * i, 4) as u32);
        let qb = Seq::new(8, |i: int| field(b, 26 + 4 * i, 4) as u32);
        assert forall|i: int| 0 <= i < 8 implies qa[i] == qb[i] by {
            assert(a.subrange(26 + 4 * i, 26 + 4 * i + 4) =~= b.subrange(
                26 + 4 * i,
                26 + 4 * i + 4,
            ));
        }
        assert(qa =~= qb);
    }
}

/// A source shorter than the header fails with `FileTooSmall`, which
/// carries the length found.
pub proof fn lemma_decode_too_small(bytes: Seq<u8>)
    requires
        bytes.len() < HEADER_SIZE,
    ensures
        spec_decode(bytes) == Err::<SoulView, SoulError>(
            SoulError::FileTooSmall(bytes.len() as u64),
        ),
{
}

/// A source that is long enough but does not open with the magic tag fails
/// with `InvalidMagic`, which carries the four bytes found, whatever else
/// the source holds.
pub proof fn lemma_decode_bad_magic(bytes: Seq<u8>)
    requires
        bytes.len() >= HEADER_SIZE,
        bytes.subrange(0, 4) != MAGIC@,
    ensures
        spec_decode(bytes) == Err::<SoulView, SoulError>(
            SoulError::InvalidMagic([bytes[0], bytes[1], bytes[2], bytes[3]]),
        ),
{
}

/// A source of exactly 62 bytes with the right magic tag and version decodes
/// to a record without hit points, provided its level is one a record may
/// have; level 0 is.
pub proof fn lemma_decode_bare_header(bytes: Seq<u8>)
    requires
        bytes.len() == HEADER_SIZE,
        bytes.subrange(0, 4) == MAGIC@,
        field(bytes, 4, 2) == VERSION,
        field(bytes, 14, 4) <= MAX_LEVEL,
    ensures
        spec_decode(bytes) matches Ok(v) && v.hp == 0 && v.level == field(bytes, 14, 4),
{
}

/// Whatever decodes is valid, is well formed, and has as many hit points
/// as the source has bytes after the header.
pub proof fn lemma_decode_valid(bytes: Seq<u8>)
    ensures
        spec_decode(bytes) matches Ok(v) ==> v.valid() && v.well_formed() && v.hp == bytes.len()
            - HEADER_SIZE,
{
}

/// Encoding a record whose level is allowed but whose hit points exceed
/// the ceiling of that level fails with `InvalidHP`; a level that is not
/// allowed fails with `InvalidLevel` before the hit points are looked at.
pub proof fn lemma_encode_invalid(v: SoulView)
    ensures
        v.level <= MAX_LEVEL && v.hp > spec_max_hp(v.level as int) ==> spec_encode(v) == Err::<
            Seq<u8>,
            SoulError,
        >(SoulError::InvalidHP { hp: v.hp, max: spec_max_hp(v.level as int) as u32 }),
        v.level > MAX_LEVEL ==> spec_encode(v) == Err::<Seq<u8>, SoulError>(
            SoulError::InvalidLevel(v.level),
        ),
{
}

} // verus!
