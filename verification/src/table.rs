//! The table of the entries of an archive, by path.

use vstd::prelude::*;
use crate::entry::{Entry, EntryView};

verus! {

/// The entries of an archive by path, in a `hashbrown::HashMap`. The map is
/// kept from the verifier, which cannot be told of its type: the bound on
/// its allocator is private to its crate.
#[derive(Debug)]
#[verifier::external_body]
pub struct EntryTable {
    map: hashbrown::HashMap<String, Entry>,
}

/// What a table holds: the entry of each path that it has.
pub uninterp spec fn table_entries(table: EntryTable) -> Map<Seq<char>, EntryView>;

impl View for EntryTable {
    type V = Map<Seq<char>, EntryView>;

    open spec fn view(&self) -> Map<Seq<char>, EntryView> {
        table_entries(*self)
    }
}

/// The table without entries.
pub open spec fn no_entries() -> Map<Seq<char>, EntryView> {
    Map::empty()
}

/// The paths that a list of strings stands for.
pub open spec fn paths_view(paths: Seq<String>) -> Seq<Seq<char>> {
    paths.map_values(|path: String| path@)
}

impl EntryTable {
    /// Calls `HashMap::new`, which makes an empty map.
    #[verifier::external_body]
    pub(crate) fn new() -> (r: EntryTable)
        ensures
            table_entries(r) == no_entries(),
    {
        EntryTable { map: hashbrown::HashMap::new() }
    }

    /// Calls `HashMap::insert`: the path then has this entry, in place of
    /// the one that it may have had, and the other paths keep theirs.
    #[verifier::external_body]
    pub(crate) fn insert(&mut self, path: String, entry: Entry)
        ensures
            table_entries(*final(self)) == table_entries(*old(self)).insert(path@, entry@),
    {
        self.map.insert(path, entry);
    }

    /// Calls `HashMap::get`, which finds the entry of a path that the map
    /// has.
    #[verifier::external_body]
    pub(crate) fn get(&self, path: &str) -> (r: Option<&Entry>)
        ensures
            r matches Some(entry) ==> table_entries(*self).contains_key(path@) && entry@
                == table_entries(*self)[path@],
            r is None ==> !table_entries(*self).contains_key(path@),
    {
        self.map.get(path)
    }

    /// Calls `HashMap::keys`, which visits every path of the map once, in an
    /// order that is not told.
    #[verifier::external_body]
    pub(crate) fn keys(&self) -> (r: Vec<String>)
        ensures
            paths_view(r@).no_duplicates(),
            paths_view(r@).to_set() == table_entries(*self).dom(),
    {
        self.map.keys().cloned().collect()
    }
}

} // verus!
