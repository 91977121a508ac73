//! The bytes that stand for a value: the inverse of the decoders, as a
//! model. Nothing here is executed; the laws say that what is written this
//! way is read back.

use vstd::prelude::*;
use crate::bytes::{le_u32, le_u64};
use crate::error::Error;
use crate::footer::{implicit_table, name_slot, named_table, parse_footer, FooterView};
use crate::reader::{parse_bool, parse_skip, parse_u32, parse_u64};
use crate::version::{Version, MAGIC};

verus! {

/// The four bytes of a 32-bit integer, lowest first.
#[verifier::opaque]
pub open spec fn le_bytes32(v: u32) -> Seq<u8> {
    seq![
        (v % 0x100) as u8,
        ((v / 0x100) % 0x100) as u8,
        ((v / 0x1_0000) % 0x100) as u8,
        ((v / 0x100_0000) % 0x100) as u8,
    ]
}

/// The eight bytes of a 64-bit integer, lowest first.
#[verifier::opaque]
pub open spec fn le_bytes64(v: u64) -> Seq<u8> {
    le_bytes32((v % 0x1_0000_0000) as u32) + le_bytes32((v / 0x1_0000_0000) as u32)
}

/// `n` bytes of value 0.
pub open spec fn zeros(n: nat) -> Seq<u8> {
    Seq::new(n, |i: int| 0u8)
}

/// The byte of a flag.
pub open spec fn flag_byte(flag: bool) -> Seq<u8> {
    if flag {
        seq![1u8]
    } else {
        seq![0u8]
    }
}

/// An integer of 32 bits has four bytes, one of 64 bits eight.
pub(crate) proof fn lemma_le_lengths()
    ensures
        forall|v: u32| (#[trigger] le_bytes32(v)).len() == 4,
        forall|v: u64| (#[trigger] le_bytes64(v)).len() == 8,
{
    reveal(le_bytes32);
    reveal(le_bytes64);
}

/// A 32-bit integer is read back from its bytes, wherever they stand.
pub(crate) proof fn lemma_u32_read_back(s: Seq<u8>, at: int, v: u32)
    requires
        0 <= at,
        at + 4 <= s.len(),
        s.subrange(at, at + 4) == le_bytes32(v),
    ensures
        le_u32(s, at) == v,
        parse_u32(s, at) == Ok::<(u32, int), Error>((v, at + 4)),
{
    reveal(le_bytes32);
    let t = s.subrange(at, at + 4);
    assert(t[0] == s[at] && t[1] == s[at + 1] && t[2] == s[at + 2] && t[3] == s[at + 3]);
    assert(t[0] == (v % 0x100) as u8);
    assert(t[1] == ((v / 0x100) % 0x100) as u8);
    assert(t[2] == ((v / 0x1_0000) % 0x100) as u8);
    assert(t[3] == ((v / 0x100_0000) % 0x100) as u8);
}

/// A 64-bit integer is read back from its bytes, wherever they stand.
pub(crate) proof fn lemma_u64_read_back(s: Seq<u8>, at: int, v: u64)
    requires
        0 <= at,
        at + 8 <= s.len(),
        s.subrange(at, at + 8) == le_bytes64(v),
    ensures
        le_u64(s, at) == v,
        parse_u64(s, at) == Ok::<(u64, int), Error>((v, at + 8)),
{
    reveal(le_bytes64);
    lemma_le_lengths();
    let low = (v % 0x1_0000_0000) as u32;
    let high = (v / 0x1_0000_0000) as u32;
    assert(s.subrange(at, at + 4) =~= s.subrange(at, at + 8).subrange(0, 4));
    assert(s.subrange(at + 4, at + 8) =~= s.subrange(at, at + 8).subrange(4, 8));
    assert(le_bytes64(v).subrange(0, 4) =~= le_bytes32(low));
    assert(le_bytes64(v).subrange(4, 8) =~= le_bytes32(high));
    lemma_u32_read_back(s, at, low);
    lemma_u32_read_back(s, at + 4, high);
}

/// The parts of a sequence that is made of nine lie in it one behind the
/// other.
pub(crate) proof fn lemma_nine_parts(
    a0: Seq<u8>,
    a1: Seq<u8>,
    a2: Seq<u8>,
    a3: Seq<u8>,
    a4: Seq<u8>,
    a5: Seq<u8>,
    a6: Seq<u8>,
    a7: Seq<u8>,
    a8: Seq<u8>,
)
    ensures
        ({
            let t = a0 + a1 + a2 + a3 + a4 + a5 + a6 + a7 + a8;
            let l1 = a0.len() as int;
            let l2 = l1 + a1.len();
            let l3 = l2 + a2.len();
            let l4 = l3 + a3.len();
            let l5 = l4 + a4.len();
            let l6 = l5 + a5.len();
            let l7 = l6 + a6.len();
            let l8 = l7 + a7.len();
            &&& t.len() == l8 + a8.len()
            &&& t.subrange(0, l1) == a0
            &&& t.subrange(l1, l2) == a1
            &&& t.subrange(l2, l3) == a2
            &&& t.subrange(l3, l4) == a3
            &&& t.subrange(l4, l5) == a4
            &&& t.subrange(l5, l6) == a5
            &&& t.subrange(l6, l7) == a6
            &&& t.subrange(l7, l8) == a7
            &&& t.subrange(l8, l8 + a8.len()) == a8
        }),
{
    let t = a0 + a1 + a2 + a3 + a4 + a5 + a6 + a7 + a8;
    let l1 = a0.len() as int;
    let l2 = l1 + a1.len();
    let l3 = l2 + a2.len();
    let l4 = l3 + a3.len();
    let l5 = l4 + a4.len();
    let l6 = l5 + a5.len();
    let l7 = l6 + a6.len();
    let l8 = l7 + a7.len();
    assert(t.subrange(0, l1) =~= a0);
    assert(t.subrange(l1, l2) =~= a1);
    assert(t.subrange(l2, l3) =~= a2);
    assert(t.subrange(l3, l4) =~= a3);
    assert(t.subrange(l4, l5) =~= a4);
    assert(t.subrange(l5, l6) =~= a5);
    assert(t.subrange(l6, l7) =~= a6);
    assert(t.subrange(l7, l8) =~= a7);
    assert(t.subrange(l8, l8 + a8.len()) =~= a8);
}

/// The two parts of a sequence that is made of two lie in it one behind
/// the other.
pub(crate) proof fn lemma_two_parts(a: Seq<u8>, b: Seq<u8>)
    ensures
        (a + b).len() == a.len() + b.len(),
        (a + b).subrange(0, a.len() as int) == a,
        (a + b).subrange(a.len() as int, (a.len() + b.len()) as int) == b,
{
    assert((a + b).subrange(0, a.len() as int) =~= a);
    assert((a + b).subrange(a.len() as int, (a.len() + b.len()) as int) =~= b);
}

/// A sequence is the part of itself from its first byte to its last.
pub(crate) proof fn lemma_whole(t: Seq<u8>)
    ensures
        t.subrange(0, t.len() as int) == t,
{
    assert(t.subrange(0, t.len() as int) =~= t);
}

/// A part of a part of a sequence is a part of the sequence.
pub(crate) proof fn lemma_window(s: Seq<u8>, pos: int, t: Seq<u8>, from: int, to: int)
    requires
        0 <= pos,
        pos + t.len() <= s.len(),
        s.subrange(pos, pos + t.len()) == t,
        0 <= from <= to <= t.len(),
    ensures
        s.subrange(pos + from, pos + to) == t.subrange(from, to),
{
    assert(s.subrange(pos + from, pos + to) =~= t.subrange(from, to));
}

/// The trailer of an archive of revision `version` that says that the
/// index lies at `index_offset`, has `index_size` bytes and is encrypted or
/// not, and that names its compression methods in `names`, slots of 32
/// bytes. The UUID and the hash are bytes of 0.
pub open spec fn trailer_bytes(
    version: Version,
    encrypted: bool,
    index_offset: u64,
    index_size: u64,
    names: Seq<u8>,
) -> Seq<u8> {
    zeros(version.uuid_len() as nat) + (if version.flag_len() == 1 {
        flag_byte(encrypted)
    } else {
        Seq::empty()
    }) + le_bytes32(MAGIC) + le_bytes32(version.ordinal()) + le_bytes64(index_offset) + le_bytes64(
        index_size,
    ) + zeros(20) + (if version.frozen_len() == 1 {
        flag_byte(false)
    } else {
        Seq::empty()
    }) + names
}

/// The least trailer of a revision: of an archive that is not encrypted,
/// with an empty index at offset 0 and without a name in its slots.
pub open spec fn minimal_trailer(version: Version) -> Seq<u8> {
    trailer_bytes(version, false, 0, 0, zeros(32 * version.name_slots()))
}

/// What is read back from a trailer that was written by `trailer_bytes`.
pub open spec fn trailer_read_back(
    version: Version,
    encrypted: bool,
    index_offset: u64,
    index_size: u64,
    names: Seq<u8>,
) -> FooterView {
    FooterView {
        encrypted: version.flag_len() == 1 && encrypted,
        index_offset,
        index_size,
        compression: if version.name_slots() == 0 {
            implicit_table()
        } else {
            named_table(names, 0, version.name_slots())
        },
    }
}

/// A trailer that is written is read back: the bytes of a trailer of any
/// revision have the length that the revision gives its trailer, and
/// wherever they stand they are read as the trailer that was written, up to
/// their last byte.
pub proof fn law_trailer_round_trip(
    s: Seq<u8>,
    pos: int,
    version: Version,
    encrypted: bool,
    index_offset: u64,
    index_size: u64,
    names: Seq<u8>,
)
    requires
        names.len() == 32 * version.name_slots(),
        0 <= pos,
        pos + version.trailer_len() <= s.len(),
        s.subrange(pos, pos + version.trailer_len()) == trailer_bytes(
            version,
            encrypted,
            index_offset,
            index_size,
            names,
        ),
    ensures
        trailer_bytes(version, encrypted, index_offset, index_size, names).len()
            == version.trailer_len(),
        parse_footer(s, pos, version) == Ok::<(FooterView, int), Error>(
            (
                trailer_read_back(version, encrypted, index_offset, index_size, names),
                pos + version.trailer_len(),
            ),
        ),
{
    lemma_le_lengths();
    let t = trailer_bytes(version, encrypted, index_offset, index_size, names);
    let flag = if version.flag_len() == 1 {
        flag_byte(encrypted)
    } else {
        Seq::empty()
    };
    let frozen = if version.frozen_len() == 1 {
        flag_byte(false)
    } else {
        Seq::empty()
    };
    let at1 = version.uuid_len();
    let at2 = at1 + version.flag_len();
    let at3 = at2 + 4;
    let at4 = at3 + 4;
    let at5 = at4 + 8;
    let at6 = at5 + 8;
    let at7 = at6 + 20;
    let at8 = at7 + version.frozen_len();
    let slots = version.name_slots();
    lemma_nine_parts(
        zeros(version.uuid_len() as nat),
        flag,
        le_bytes32(MAGIC),
        le_bytes32(version.ordinal()),
        le_bytes64(index_offset),
        le_bytes64(index_size),
        zeros(20),
        frozen,
        names,
    );
    lemma_window(s, pos, t, at1, at2);
    lemma_window(s, pos, t, at2, at3);
    lemma_window(s, pos, t, at3, at4);
    lemma_window(s, pos, t, at4, at5);
    lemma_window(s, pos, t, at5, at6);
    lemma_window(s, pos, t, at7, at8);
    lemma_window(s, pos, t, at8, at8 + 32 * slots);
    assert(parse_skip(s, pos, version.uuid_len()) == Ok::<((), int), Error>(((), pos + at1)));
    if version.flag_len() == 1 {
        assert(s[pos + at1] == s.subrange(pos + at1, pos + at2)[0]);
        assert(parse_bool(s, pos + at1) == Ok::<(bool, int), Error>((encrypted, pos + at2)));
    }
    lemma_u32_read_back(s, pos + at2, MAGIC);
    lemma_u32_read_back(s, pos + at3, version.ordinal());
    lemma_u64_read_back(s, pos + at4, index_offset);
    lemma_u64_read_back(s, pos + at5, index_size);
    if version.frozen_len() == 1 {
        assert(s[pos + at7] == s.subrange(pos + at7, pos + at8)[0]);
        assert(parse_bool(s, pos + at7) == Ok::<(bool, int), Error>((false, pos + at8)));
    }
    assert forall|i: int| 0 <= i < slots implies #[trigger] name_slot(s, pos + at8, i)
        == name_slot(names, 0, i) by {
        assert(name_slot(s, pos + at8, i) =~= s.subrange(pos + at8, pos + at8 + 32 * slots).subrange(
            32 * i,
            32 * i + 32,
        ));
    }
    assert(named_table(s, pos + at8, slots) =~= named_table(names, 0, slots));
}

/// The size of a trailer is the length of the least trailer that can be
/// written, and the least trailer is read back.
pub proof fn law_minimal_trailer(version: Version)
    ensures
        minimal_trailer(version).len() == version.trailer_len(),
        parse_footer(minimal_trailer(version), 0, version) is Ok,
        parse_footer(minimal_trailer(version), 0, version)->Ok_0.1 == version.trailer_len(),
{
    lemma_le_lengths();
    let t = minimal_trailer(version);
    let names = zeros(32 * version.name_slots());
    assert(t.len() == version.trailer_len());
    assert(t.subrange(0, version.trailer_len()) =~= t);
    law_trailer_round_trip(t, 0, version, false, 0, 0, names);
}

/// Reading a trailer takes as many bytes as the revision gives its
/// trailer, whatever they hold.
pub proof fn law_trailer_length(s: Seq<u8>, pos: int, version: Version)
    requires
        parse_footer(s, pos, version) is Ok,
    ensures
        parse_footer(s, pos, version)->Ok_0.1 == pos + version.trailer_len(),
{
}

} // verus!
