//! The format revisions, their on-disk ordinals and their trailer sizes.

use vstd::prelude::*;

verus! {

/// The magic number that identifies a trailer.
pub const MAGIC: u32 = 0x5A6F12E1;

/// The revisions of the archive format, oldest first.
#[derive(Clone, Copy, PartialEq, Eq, PartialOrd, Debug, Structural)]
pub enum Version {
    /// initial specification
    Initial,
    /// timestamps removed
    NoTimestamps,
    /// compression and encryption support
    CompressionEncryption,
    /// index encryption support
    IndexEncryption,
    /// offsets now relative to header
    RelativeChunkOffsets,
    /// record deletion support
    DeleteRecords,
    /// include key UUID
    EncryptionKeyUuid,
    /// include compression names
    FNameBasedCompression,
    /// adds another compression name
    FNameBasedCompression2,
    /// include frozen index byte
    FrozenIndex,
    /// index format overhauled
    PathHashIndex,
    /// corrects the path hash function
    Fnv64BugFix,
}

impl Version {
    /// The place of a revision in the order of revisions, from 0. Revisions
    /// are compared by it: two of them share an ordinal on disk.
    pub open spec fn rank(self) -> nat {
        match self {
            Version::Initial => 0,
            Version::NoTimestamps => 1,
            Version::CompressionEncryption => 2,
            Version::IndexEncryption => 3,
            Version::RelativeChunkOffsets => 4,
            Version::DeleteRecords => 5,
            Version::EncryptionKeyUuid => 6,
            Version::FNameBasedCompression => 7,
            Version::FNameBasedCompression2 => 8,
            Version::FrozenIndex => 9,
            Version::PathHashIndex => 10,
            Version::Fnv64BugFix => 11,
        }
    }

    /// `self` is `other` or a later revision.
    pub open spec fn at_least(self, other: Version) -> bool {
        self.rank() >= other.rank()
    }

    /// The ordinal that a trailer of this revision stores.
    pub open spec fn ordinal(self) -> u32 {
        match self {
            Version::Initial => 1,
            Version::NoTimestamps => 2,
            Version::CompressionEncryption => 3,
            Version::IndexEncryption => 4,
            Version::RelativeChunkOffsets => 5,
            Version::DeleteRecords => 6,
            Version::EncryptionKeyUuid => 7,
            Version::FNameBasedCompression => 8,
            Version::FNameBasedCompression2 => 8,
            Version::FrozenIndex => 9,
            Version::PathHashIndex => 10,
            Version::Fnv64BugFix => 11,
        }
    }

    /// Bytes of the encryption-key UUID at the head of the trailer.
    pub open spec fn uuid_len(self) -> int {
        if self.at_least(Version::EncryptionKeyUuid) { 16 } else { 0 }
    }

    /// Bytes of the index-encryption flag.
    pub open spec fn flag_len(self) -> int {
        if self.at_least(Version::IndexEncryption) { 1 } else { 0 }
    }

    /// Bytes of the frozen-index marker.
    pub open spec fn frozen_len(self) -> int {
        if self == Version::FrozenIndex { 1 } else { 0 }
    }

    /// Number of 32-byte compression names that the trailer stores.
    pub open spec fn name_slots(self) -> nat {
        if self.at_least(Version::FNameBasedCompression2) {
            5
        } else if self.at_least(Version::FNameBasedCompression) {
            4
        } else {
            0
        }
    }

    /// The size of the trailer: the sum of the widths of its fields, of which
    /// magic, ordinal, index offset, index size and index hash are always
    /// there.
    pub open spec fn trailer_len(self) -> int {
        self.uuid_len() + self.flag_len() + 4 + 4 + 8 + 8 + 20 + self.frozen_len() + 32
            * self.name_slots()
    }

    /// The name of the revision, as it is written in this library.
    pub open spec fn label(self) -> Seq<char> {
        match self {
            Version::Initial => "Initial"@,
            Version::NoTimestamps => "NoTimestamps"@,
            Version::CompressionEncryption => "CompressionEncryption"@,
            Version::IndexEncryption => "IndexEncryption"@,
            Version::RelativeChunkOffsets => "RelativeChunkOffsets"@,
            Version::DeleteRecords => "DeleteRecords"@,
            Version::EncryptionKeyUuid => "EncryptionKeyUuid"@,
            Version::FNameBasedCompression => "FNameBasedCompression"@,
            Version::FNameBasedCompression2 => "FNameBasedCompression2"@,
            Version::FrozenIndex => "FrozenIndex"@,
            Version::PathHashIndex => "PathHashIndex"@,
            Version::Fnv64BugFix => "Fnv64BugFix"@,
        }
    }

    /// All revisions, oldest first.
    pub open spec fn all() -> Seq<Version> {
        seq![
            Version::Initial,
            Version::NoTimestamps,
            Version::CompressionEncryption,
            Version::IndexEncryption,
            Version::RelativeChunkOffsets,
            Version::DeleteRecords,
            Version::EncryptionKeyUuid,
            Version::FNameBasedCompression,
            Version::FNameBasedCompression2,
            Version::FrozenIndex,
            Version::PathHashIndex,
            Version::Fnv64BugFix,
        ]
    }

    /// The revisions in order, oldest first.
    pub fn iter() -> (r: Vec<Version>)
        ensures
            r@ == Version::all(),
    {
        let r = vec![
            Version::Initial,
            Version::NoTimestamps,
            Version::CompressionEncryption,
            Version::IndexEncryption,
            Version::RelativeChunkOffsets,
            Version::DeleteRecords,
            Version::EncryptionKeyUuid,
            Version::FNameBasedCompression,
            Version::FNameBasedCompression2,
            Version::FrozenIndex,
            Version::PathHashIndex,
            Version::Fnv64BugFix,
        ];
        assert(r@ =~= Version::all());
        r
    }

    /// The place of the revision in the order of revisions.
    pub fn position(self) -> (r: u8)
        ensures
            r == self.rank(),
    {
        match self {
            Version::Initial => 0,
            Version::NoTimestamps => 1,
            Version::CompressionEncryption => 2,
            Version::IndexEncryption => 3,
            Version::RelativeChunkOffsets => 4,
            Version::DeleteRecords => 5,
            Version::EncryptionKeyUuid => 6,
            Version::FNameBasedCompression => 7,
            Version::FNameBasedCompression2 => 8,
            Version::FrozenIndex => 9,
            Version::PathHashIndex => 10,
            Version::Fnv64BugFix => 11,
        }
    }

    /// Whether `self` is `other` or a later revision.
    pub fn is_at_least(self, other: Version) -> (r: bool)
        ensures
            r == self.at_least(other),
    {
        self.position() >= other.position()
    }

    /// The ordinal that a trailer of this revision stores.
    pub fn as_u32(self) -> (r: u32)
        ensures
            r == self.ordinal(),
    {
        match self {
            Version::Initial => 1,
            Version::NoTimestamps => 2,
            Version::CompressionEncryption => 3,
            Version::IndexEncryption => 4,
            Version::RelativeChunkOffsets => 5,
            Version::DeleteRecords => 6,
            Version::EncryptionKeyUuid => 7,
            Version::FNameBasedCompression => 8,
            Version::FNameBasedCompression2 => 8,
            Version::FrozenIndex => 9,
            Version::PathHashIndex => 10,
            Version::Fnv64BugFix => 11,
        }
    }

    /// The size in bytes of the trailer of this revision.
    pub fn footer_size(self) -> (r: i64)
        ensures
            r == self.trailer_len(),
            44 <= r <= 222,
    {
        // (magic + version): u32 + (offset + size): u64 + hash: [u8; 20]
        let mut size: i64 = 4 + 4 + 8 + 8 + 20;
        if self.is_at_least(Version::EncryptionKeyUuid) {
            // encryption uuid: u128
            size += 16;
        }
        if self.is_at_least(Version::IndexEncryption) {
            // encrypted: bool
            size += 1;
        }
        if self == Version::FrozenIndex {
            // frozen index: bool
            size += 1;
        }
        if self.is_at_least(Version::FNameBasedCompression) {
            // compression names: [[u8; 32]; 4]
            size += 32 * 4;
        }
        if self.is_at_least(Version::FNameBasedCompression2) {
            // extra compression name: [u8; 32]
            size += 32;
        }
        size
    }

    /// The name of the revision.
    pub fn name(self) -> (r: &'static str)
        ensures
            r@ == self.label(),
    {
        match self {
            Version::Initial => "Initial",
            Version::NoTimestamps => "NoTimestamps",
            Version::CompressionEncryption => "CompressionEncryption",
            Version::IndexEncryption => "IndexEncryption",
            Version::RelativeChunkOffsets => "RelativeChunkOffsets",
            Version::DeleteRecords => "DeleteRecords",
            Version::EncryptionKeyUuid => "EncryptionKeyUuid",
            Version::FNameBasedCompression => "FNameBasedCompression",
            Version::FNameBasedCompression2 => "FNameBasedCompression2",
            Version::FrozenIndex => "FrozenIndex",
            Version::PathHashIndex => "PathHashIndex",
            Version::Fnv64BugFix => "Fnv64BugFix",
        }
    }
}

/// The list of all revisions holds each revision at the place of its rank,
/// and no two revisions have the same rank.
pub(crate) proof fn lemma_versions_by_rank()
    ensures
        Version::all().len() == 12,
        forall|i: int| 0 <= i < 12 ==> (#[trigger] Version::all()[i]).rank() == i,
        forall|v: Version| v.rank() < 12 && Version::all()[v.rank() as int] == v,
{
    assert(Version::all().len() == 12);
    assert(Version::all()[0] == Version::Initial);
    assert(Version::all()[1] == Version::NoTimestamps);
    assert(Version::all()[2] == Version::CompressionEncryption);
    assert(Version::all()[3] == Version::IndexEncryption);
    assert(Version::all()[4] == Version::RelativeChunkOffsets);
    assert(Version::all()[5] == Version::DeleteRecords);
    assert(Version::all()[6] == Version::EncryptionKeyUuid);
    assert(Version::all()[7] == Version::FNameBasedCompression);
    assert(Version::all()[8] == Version::FNameBasedCompression2);
    assert(Version::all()[9] == Version::FrozenIndex);
    assert(Version::all()[10] == Version::PathHashIndex);
    assert(Version::all()[11] == Version::Fnv64BugFix);
}

} // verus!
