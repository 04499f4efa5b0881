//! The names of the files that were in the destination directory when the run
//! began.

use vstd::prelude::*;
use vstd::string::StringExecFns;

verus! {

/// The set of names that a list of names holds.
pub open spec fn name_set(names: Seq<String>) -> Set<Seq<char>> {
    Set::new(|name: Seq<char>| exists|i: int| 0 <= i < names.len() && (#[trigger] names[i])@ == name)
}

/// A snapshot of the file names in the destination directory. It is taken
/// once and never refreshed.
pub struct ExistingFileIndex {
    names: Vec<String>,
}

impl View for ExistingFileIndex {
    type V = Set<Seq<char>>;

    closed spec fn view(&self) -> Set<Seq<char>> {
        name_set(self.names@)
    }
}

impl ExistingFileIndex {
    /// The index of a directory that holds nothing.
    pub fn empty() -> (index: ExistingFileIndex)
        ensures
            index@ == Set::<Seq<char>>::empty(),
    {
        let index = ExistingFileIndex { names: Vec::new() };
        assert(index@ =~= Set::<Seq<char>>::empty());
        index
    }

    /// The index of a directory with the given entries.
    pub fn from_names(names: Vec<String>) -> (index: ExistingFileIndex)
        ensures
            index@ == name_set(names@),
    {
        ExistingFileIndex { names }
    }

    /// The index for a destination directory: `None` stands for a directory
    /// that did not exist and was just created, which holds nothing;
    /// `Some` carries the names of the entries of one that did exist.
    pub fn from_listing(listing: Option<Vec<String>>) -> (index: ExistingFileIndex)
        ensures
            index@ == (match listing {
                Some(names) => name_set(names@),
                None => Set::<Seq<char>>::empty(),
            }),
    {
        match listing {
            Some(names) => ExistingFileIndex::from_names(names),
            None => ExistingFileIndex::empty(),
        }
    }

    /// Whether a file of this name was there.
    pub fn contains(&self, name: &str) -> (found: bool)
        ensures
            found == self@.contains(name@),
    {
        let wanted = String::from_str(name);
        let mut i: usize = 0;
        while i < self.names.len()
            invariant
                i <= self.names.len(),
                wanted@ == name@,
                forall|j: int| 0 <= j < i ==> (#[trigger] self.names@[j])@ != name@,
            decreases self.names.len() - i,
        {
            if self.names[i] == wanted {
                return true;
            }
            i = i + 1;
        }
        false
    }
}

} // verus!
