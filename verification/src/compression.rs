//! The compression methods and the names under which a trailer lists them.

use vstd::prelude::*;

verus! {

/// A compression method. `Stored` is for bytes kept as they are, and also
/// stands for a name that is not known.
#[derive(Clone, Copy, PartialEq, Eq, Debug, Structural)]
pub enum Compression {
    Stored,
    Zlib,
    Gzip,
    Oodle,
}

/// An ASCII capital letter as its small letter, any other byte as itself.
pub open spec fn lower(b: u8) -> u8 {
    if 0x41 <= b <= 0x5a {
        (b + 0x20) as u8
    } else {
        b
    }
}

/// The bytes of a name slot without its NUL bytes, letters made small.
pub open spec fn letters(slot: Seq<u8>) -> Seq<u8>
    decreases slot.len(),
{
    if slot.len() == 0 {
        Seq::empty()
    } else if slot.last() == 0 {
        letters(slot.drop_last())
    } else {
        letters(slot.drop_last()).push(lower(slot.last()))
    }
}

/// The method that a name slot stands for: the one whose name it holds,
/// whatever the case of its letters, else `Stored`.
pub open spec fn method_of(slot: Seq<u8>) -> Compression {
    let name = letters(slot);
    if name == seq![0x7au8, 0x6cu8, 0x69u8, 0x62u8] {
        Compression::Zlib
    } else if name == seq![0x67u8, 0x7au8, 0x69u8, 0x70u8] {
        Compression::Gzip
    } else if name == seq![0x6fu8, 0x6fu8, 0x64u8, 0x6cu8, 0x65u8] {
        Compression::Oodle
    } else {
        Compression::Stored
    }
}

impl Default for Compression {
    fn default() -> (r: Compression)
        ensures
            r == Compression::Stored,
    {
        Compression::Stored
    }
}

impl Compression {
    /// The method that a name slot of a trailer stands for. NUL bytes are
    /// padding, and the case of the letters does not count.
    pub fn from_name(slot: &[u8]) -> (r: Compression)
        ensures
            r == method_of(slot@),
    {
        let mut name: Vec<u8> = Vec::new();
        let mut i: usize = 0;
        while i < slot.len()
            invariant
                i <= slot@.len(),
                name@ == letters(slot@.take(i as int)),
            decreases slot@.len() - i,
        {
            let b = slot[i];
            assert(slot@.take(i + 1).drop_last() =~= slot@.take(i as int));
            if b != 0 {
                name.push(if 0x41 <= b && b <= 0x5a { b + 0x20 } else { b });
            }
            i = i + 1;
        }
        assert(slot@.take(i as int) =~= slot@);
        if name.len() == 4 && name[0] == 0x7a && name[1] == 0x6c && name[2] == 0x69 && name[3]
            == 0x62 {
            assert(name@ =~= seq![0x7au8, 0x6cu8, 0x69u8, 0x62u8]);
            Compression::Zlib
        } else if name.len() == 4 && name[0] == 0x67 && name[1] == 0x7a && name[2] == 0x69
            && name[3] == 0x70 {
            assert(name@ =~= seq![0x67u8, 0x7au8, 0x69u8, 0x70u8]);
            Compression::Gzip
        } else if name.len() == 5 && name[0] == 0x6f && name[1] == 0x6f && name[2] == 0x64
            && name[3] == 0x6c && name[4] == 0x65 {
            assert(name@ =~= seq![0x6fu8, 0x6fu8, 0x64u8, 0x6cu8, 0x65u8]);
            Compression::Oodle
        } else {
            Compression::Stored
        }
    }
}

} // verus!
