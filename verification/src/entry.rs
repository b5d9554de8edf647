//! The entries of a directory listing and their mathematical model.

use vstd::prelude::*;

use crate::order::lex_le;

verus! {

/// One immediate child of a listed directory: its base name and whether it
/// is itself a directory. Entries are transient values, built fresh on every
/// listing call and never mutated.
pub struct DirEntry {
    /// The entry's base name. Undecodable bytes are replaced by the host
    /// before the value reaches the library, so the name is always text.
    pub name: String,
    /// True exactly when the entry was classified as a directory at listing
    /// time; every other file type counts as a non-directory.
    pub is_dir: bool,
}

/// The mathematical value of a [`DirEntry`]: the name's characters and the
/// classification flag.
pub struct EntryModel {
    /// The characters of the entry's name.
    pub name: Seq<char>,
    /// The classification flag.
    pub is_dir: bool,
}

impl View for DirEntry {
    type V = EntryModel;

    open spec fn view(&self) -> EntryModel {
        EntryModel { name: self.name@, is_dir: self.is_dir }
    }
}

/// The models of a sequence of entries, element by element.
pub open spec fn models(s: Seq<DirEntry>) -> Seq<EntryModel> {
    s.map_values(|e: DirEntry| e@)
}

/// The entries stand in ascending codepoint order of their names.
pub open spec fn entries_sorted(s: Seq<EntryModel>) -> bool {
    forall|i: int, j: int| 0 <= i < j < s.len() ==> lex_le(s[i].name, s[j].name)
}

/// The set of names that a listing exposes.
pub open spec fn name_set(s: Seq<EntryModel>) -> Set<Seq<char>> {
    Set::new(|n: Seq<char>| exists|i: int| 0 <= i < s.len() && #[trigger] s[i].name == n)
}

/// The entries' names are pairwise distinct, as the immediate children of
/// one directory are.
pub open spec fn distinct_names(s: Seq<EntryModel>) -> bool {
    forall|i: int, j: int| 0 <= i < j < s.len() ==> s[i].name != s[j].name
}

/// In a sorted listing every adjacent pair of entries is ordered by name.
pub proof fn lemma_sorted_adjacent(s: Seq<EntryModel>)
    requires
        entries_sorted(s),
    ensures
        forall|i: int| 0 <= i && i + 1 < s.len() ==> lex_le(#[trigger] s[i].name, s[i + 1].name),
{
}

} // verus!
