//! What an index lists: the table of entries as the outcome of putting in
//! one entry after the other, and the law of the path-hash index.

use vstd::prelude::*;
use crate::bytes::le_u32;
use crate::entry::{parse_encoded, EntryView};
use crate::error::Error;
use crate::index::{
    parse_hashed,
    parse_hashed_parts,
    parse_index,
    parse_pair,
    with_encoded,
    with_legacy,
};
use crate::reader::{parse_string, parse_u32};
use crate::table::no_entries;
use crate::version::Version;

verus! {

/// `base` after the first `n` of the items were put in, one after the
/// other: a later item takes the place of an earlier one of the same path.
pub open spec fn inserted(
    base: Map<Seq<char>, EntryView>,
    items: Seq<(Seq<char>, EntryView)>,
    n: nat,
) -> Map<Seq<char>, EntryView>
    decreases n,
{
    if n == 0 {
        base
    } else {
        inserted(base, items, (n - 1) as nat).insert(items[n - 1].0, items[n - 1].1)
    }
}

/// One of the first `n` items has the path `path`.
pub open spec fn named(items: Seq<(Seq<char>, EntryView)>, path: Seq<char>, n: nat) -> bool {
    exists|i: int| 0 <= i < n && (#[trigger] items[i]).0 == path
}

/// None of the first `n` items behind item `i` has the path of item `i`.
pub open spec fn last_of_its_path(items: Seq<(Seq<char>, EntryView)>, i: int, n: nat) -> bool {
    forall|j: int| i < j < n ==> (#[trigger] items[j]).0 != items[i].0
}

/// One of the files has the path `path`.
pub open spec fn listed(files: Seq<(Seq<char>, u32)>, path: Seq<char>) -> bool {
    exists|i: int| 0 <= i < files.len() && (#[trigger] files[i]).0 == path
}

/// No file behind file `i` has the path of file `i`.
pub open spec fn last_listed(files: Seq<(Seq<char>, u32)>, i: int) -> bool {
    forall|j: int| i < j < files.len() ==> (#[trigger] files[j]).0 != files[i].0
}

/// The files of a directory index, each with the entry that its encoded
/// record in `encoded` stands for.
pub open spec fn encoded_items(encoded: Seq<u8>, files: Seq<(Seq<char>, u32)>) -> Seq<
    (Seq<char>, EntryView),
> {
    Seq::new(files.len(), |i: int| (files[i].0, parse_encoded(encoded, files[i].1 as int)->Ok_0.0))
}

/// The first `n` pairs of a path and a full record from `pos` on.
pub open spec fn parse_pairs(s: Seq<u8>, pos: int, version: Version, n: nat) -> Result<
    (Seq<(Seq<char>, EntryView)>, int),
    Error,
>
    decreases n,
{
    if n == 0 {
        Ok((Seq::empty(), pos))
    } else {
        match parse_pairs(s, pos, version, (n - 1) as nat) {
            Err(e) => Err(e),
            Ok((pairs, p)) => match parse_pair(s, p, version) {
                Err(e) => Err(e),
                Ok((pair, q)) => Ok((pairs.push(pair), q)),
            },
        }
    }
}

/// A path is in the table after the items were put in where it was there
/// before or an item has it.
pub(crate) proof fn lemma_inserted_has(
    base: Map<Seq<char>, EntryView>,
    items: Seq<(Seq<char>, EntryView)>,
    n: nat,
    path: Seq<char>,
)
    ensures
        inserted(base, items, n).contains_key(path) <==> base.contains_key(path) || named(
            items,
            path,
            n,
        ),
        !named(items, path, n) && base.contains_key(path) ==> inserted(base, items, n)[path]
            == base[path],
    decreases n,
{
    if n > 0 {
        lemma_inserted_has(base, items, (n - 1) as nat, path);
        if named(items, path, (n - 1) as nat) {
            let i = choose|i: int| 0 <= i < n - 1 && (#[trigger] items[i]).0 == path;
            assert(0 <= i < n && items[i].0 == path);
        }
        if items[n - 1].0 == path {
            assert(named(items, path, n));
        }
        if named(items, path, n) && items[n - 1].0 != path {
            let i = choose|i: int| 0 <= i < n && (#[trigger] items[i]).0 == path;
            assert(0 <= i < n - 1 && items[i].0 == path);
        }
    }
}

/// The last item of a path gives the path its entry.
pub(crate) proof fn lemma_inserted_last(
    base: Map<Seq<char>, EntryView>,
    items: Seq<(Seq<char>, EntryView)>,
    n: nat,
    i: int,
)
    requires
        0 <= i < n,
        last_of_its_path(items, i, n),
    ensures
        inserted(base, items, n).contains_key(items[i].0),
        inserted(base, items, n)[items[i].0] == items[i].1,
    decreases n,
{
    if i < n - 1 {
        assert(last_of_its_path(items, i, (n - 1) as nat));
        lemma_inserted_last(base, items, (n - 1) as nat, i);
        assert(items[n - 1].0 != items[i].0);
    }
}

/// Putting in the first `n` items looks at no item behind them.
pub(crate) proof fn lemma_inserted_prefix(
    base: Map<Seq<char>, EntryView>,
    a: Seq<(Seq<char>, EntryView)>,
    b: Seq<(Seq<char>, EntryView)>,
    n: nat,
)
    requires
        n <= a.len(),
        n <= b.len(),
        forall|i: int| 0 <= i < n ==> a[i] == b[i],
    ensures
        inserted(base, a, n) == inserted(base, b, n),
    decreases n,
{
    if n > 0 {
        lemma_inserted_prefix(base, a, b, (n - 1) as nat);
    }
}

/// Reading the encoded records of the files puts in one entry for each
/// file, in the order of the files.
pub(crate) proof fn lemma_with_encoded_inserts(
    encoded: Seq<u8>,
    files: Seq<(Seq<char>, u32)>,
    n: nat,
    base: Map<Seq<char>, EntryView>,
)
    requires
        n <= files.len(),
        with_encoded(encoded, files, n, base) is Ok,
    ensures
        forall|i: int| 0 <= i < n ==> parse_encoded(encoded, (#[trigger] files[i]).1 as int) is Ok,
        with_encoded(encoded, files, n, base)->Ok_0 == inserted(
            base,
            encoded_items(encoded, files),
            n,
        ),
    decreases n,
{
    if n > 0 {
        lemma_with_encoded_inserts(encoded, files, (n - 1) as nat, base);
    }
}

/// Reading the pairs of a path and a full record puts in one entry for
/// each pair, in the order of the pairs.
pub(crate) proof fn lemma_with_legacy_inserts(
    s: Seq<u8>,
    pos: int,
    version: Version,
    n: nat,
    base: Map<Seq<char>, EntryView>,
)
    ensures
        match parse_pairs(s, pos, version, n) {
            Ok((pairs, p)) => pairs.len() == n && with_legacy(s, pos, version, n, base) == Ok::<
                (Map<Seq<char>, EntryView>, int),
                Error,
            >((inserted(base, pairs, n), p)),
            Err(e) => with_legacy(s, pos, version, n, base) == Err::<
                (Map<Seq<char>, EntryView>, int),
                Error,
            >(e),
        },
    decreases n,
{
    if n > 0 {
        lemma_with_legacy_inserts(s, pos, version, (n - 1) as nat, base);
        match parse_pairs(s, pos, version, (n - 1) as nat) {
            Ok((pairs, p)) => {
                match parse_pair(s, p, version) {
                    Ok((pair, q)) => {
                        lemma_inserted_prefix(base, pairs.push(pair), pairs, (n - 1) as nat);
                    },
                    Err(e) => {},
                }
            },
            Err(e) => {},
        }
    }
}

/// What an index of the path-hash form holds: where its files, its encoded
/// records and its pairs lie.
pub struct Listing {
    /// the files of the directory index, each with the place of its record
    pub files: Seq<(Seq<char>, u32)>,
    /// the encoded records
    pub encoded: Seq<u8>,
    /// the pairs of a path and a full record that follow
    pub pairs: Seq<(Seq<char>, EntryView)>,
}

/// What the index `index` of an archive of a revision with a path-hash
/// index holds, where it can be read.
pub open spec fn listing_of(
    archive: Seq<u8>,
    index: Seq<u8>,
    version: Version,
    encrypted: bool,
    key: Option<Seq<u8>>,
) -> Listing {
    let parts = parse_hashed_parts(
        archive,
        index,
        parse_string(index, 0)->Ok_0.1,
        encrypted,
        key,
    )->Ok_0;
    Listing {
        files: parts.0,
        encoded: parts.1,
        pairs: parse_pairs(index, parts.2 + 4, version, le_u32(index, parts.2) as nat)->Ok_0.0,
    }
}

/// The law of the path-hash index: an index that can be read lists the
/// files of its directories and the paths of the pairs that follow, and
/// nothing else. A path of a pair has the entry of its last pair. Any
/// other path has the entry that the encoded record of its last file
/// stands for, read at the place that the file names. The path of a file
/// is the name of its directory and its own, as `parse_file` joins them.
pub proof fn law_path_hash_index(
    archive: Seq<u8>,
    index: Seq<u8>,
    version: Version,
    encrypted: bool,
    key: Option<Seq<u8>>,
)
    requires
        version.at_least(Version::PathHashIndex),
        parse_index(archive, index, version, encrypted, key) is Ok,
    ensures
        ({
            let entries = parse_index(archive, index, version, encrypted, key)->Ok_0.entries;
            let l = listing_of(archive, index, version, encrypted, key);
            &&& forall|path: Seq<char>| #[trigger]
                entries.contains_key(path) <==> listed(l.files, path) || named(
                    l.pairs,
                    path,
                    l.pairs.len(),
                )
            &&& forall|i: int|
                0 <= i < l.pairs.len() && last_of_its_path(l.pairs, i, l.pairs.len())
                    ==> entries[(#[trigger] l.pairs[i]).0] == l.pairs[i].1
            &&& forall|i: int|
                0 <= i < l.files.len() && last_listed(l.files, i) && !named(
                    l.pairs,
                    (#[trigger] l.files[i]).0,
                    l.pairs.len(),
                ) ==> parse_encoded(l.encoded, l.files[i].1 as int) is Ok && entries[l.files[i].0]
                    == parse_encoded(l.encoded, l.files[i].1 as int)->Ok_0.0
        }),
{
    let entries = parse_index(archive, index, version, encrypted, key)->Ok_0.entries;
    let l = listing_of(archive, index, version, encrypted, key);
    let start = parse_string(index, 0)->Ok_0.1;
    let parts = parse_hashed_parts(archive, index, start, encrypted, key)->Ok_0;
    let count = le_u32(index, parts.2) as nat;
    let items = encoded_items(l.encoded, l.files);
    let hashed = with_encoded(l.encoded, l.files, l.files.len(), no_entries())->Ok_0;
    assert(parse_hashed(archive, index, start, encrypted, key) is Ok);
    assert(parse_u32(index, parts.2) is Ok);
    lemma_with_encoded_inserts(l.encoded, l.files, l.files.len(), no_entries());
    lemma_with_legacy_inserts(index, parts.2 + 4, version, count, hashed);
    assert(l.pairs.len() == count);
    assert(entries == inserted(hashed, l.pairs, count));
    assert(hashed == inserted(no_entries(), items, l.files.len()));
    assert forall|path: Seq<char>| #[trigger]
        entries.contains_key(path) <==> listed(l.files, path) || named(
            l.pairs,
            path,
            l.pairs.len(),
        ) by {
        lemma_inserted_has(hashed, l.pairs, count, path);
        lemma_inserted_has(no_entries(), items, l.files.len(), path);
        lemma_listed_is_named(l.encoded, l.files, path);
    }
    assert forall|i: int|
        0 <= i < l.pairs.len() && last_of_its_path(l.pairs, i, l.pairs.len()) implies entries[(
        #[trigger] l.pairs[i]).0] == l.pairs[i].1 by {
        lemma_inserted_last(hashed, l.pairs, count, i);
    }
    assert forall|i: int|
        0 <= i < l.files.len() && last_listed(l.files, i) && !named(
            l.pairs,
            (#[trigger] l.files[i]).0,
            l.pairs.len(),
        ) implies parse_encoded(l.encoded, l.files[i].1 as int) is Ok && entries[l.files[i].0]
        == parse_encoded(l.encoded, l.files[i].1 as int)->Ok_0.0 by {
        let path = l.files[i].0;
        assert(last_of_its_path(items, i, l.files.len())) by {
            assert forall|j: int| i < j < l.files.len() implies (#[trigger] items[j]).0
                != items[i].0 by {
                assert(l.files[j].0 != l.files[i].0);
            }
        }
        lemma_inserted_last(no_entries(), items, l.files.len(), i);
        lemma_inserted_has(hashed, l.pairs, count, path);
    }
}

/// A path is that of a file where it is that of the entry of a file.
pub(crate) proof fn lemma_listed_is_named(encoded: Seq<u8>, files: Seq<(Seq<char>, u32)>, path: Seq<char>)
    ensures
        listed(files, path) <==> named(encoded_items(encoded, files), path, files.len()),
{
    let items = encoded_items(encoded, files);
    if listed(files, path) {
        let i = choose|i: int| 0 <= i < files.len() && (#[trigger] files[i]).0 == path;
        assert(items[i].0 == path);
    }
    if named(items, path, files.len()) {
        let i = choose|i: int| 0 <= i < files.len() && (#[trigger] items[i]).0 == path;
        assert(files[i].0 == path);
    }
}

} // verus!
