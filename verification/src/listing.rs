//! A directory's listing as its driver read it. A name that is no valid text cannot be
//! made into a stem: where such an entry is in scope, no run starts.

use vstd::prelude::*;
use crate::cleanup::{Cleanup, Run};
use crate::matcher::{in_scope, match_extension};

verus! {

/// One entry of a directory.
#[derive(Debug, PartialEq, Eq)]
pub struct Entry {
    /// The entry's name; where it is no valid text, what could be read of it.
    pub name: String,
    /// Whether `name` is the entry's name, character for character.
    pub exact: bool,
}

/// An `Entry` with its name as a sequence of characters.
pub struct EntryView {
    pub name: Seq<char>,
    pub exact: bool,
}

impl DeepView for Entry {
    type V = EntryView;

    open spec fn deep_view(&self) -> EntryView {
        EntryView { name: self.name@, exact: self.exact }
    }
}

/// Why no run starts.
#[derive(Debug, PartialEq, Eq)]
pub enum StartError {
    /// The entry of this name is in scope, and its name is no valid text.
    UndecodableName(String),
}

/// The names of the entries, in their order.
pub open spec fn names_of(listing: Seq<EntryView>) -> Seq<Seq<char>> {
    listing.map_values(|e: EntryView| e.name)
}

/// The entry at `i` is in scope, and its name is no valid text.
pub open spec fn undecodable(listing: Seq<EntryView>, extensions: Seq<Seq<char>>, i: int) -> bool {
    0 <= i < listing.len() && !listing[i].exact && in_scope(listing[i].name, extensions)
}

impl Cleanup {
    /// Starts a run on a directory with these entries, unless one that is in scope has a
    /// name that is no valid text: the first such entry is the error then.
    pub fn from_listing(listing: &Vec<Entry>, extensions: &Vec<String>, auto_confirm: bool) -> (r:
        Result<Cleanup, StartError>)
        ensures
            match r {
                Ok(run) => {
                    &&& forall|i: int| !undecodable(listing.deep_view(), extensions.deep_view(), i)
                    &&& run@ == Run::start(
                        names_of(listing.deep_view()),
                        extensions.deep_view(),
                        auto_confirm,
                    )
                    &&& run@.wf()
                },
                Err(StartError::UndecodableName(name)) => exists|i: int|
                    {
                        &&& undecodable(listing.deep_view(), extensions.deep_view(), i)
                        &&& forall|k: int|
                            0 <= k < i ==> !undecodable(listing.deep_view(), extensions.deep_view(), k)
                        &&& name@ == listing.deep_view()[i].name
                    },
            },
    {
        let mut names: Vec<String> = Vec::new();
        let mut i: usize = 0;
        assert(names.deep_view() =~= names_of(listing.deep_view().take(0)));
        while i < listing.len()
            invariant
                i <= listing.len(),
                names.deep_view() == names_of(listing.deep_view().take(i as int)),
                forall|k: int|
                    0 <= k < i ==> !undecodable(listing.deep_view(), extensions.deep_view(), k),
            decreases listing.len() - i,
        {
            let entry = &listing[i];
            if !entry.exact && match_extension(entry.name.as_str(), extensions) {
                assert(undecodable(listing.deep_view(), extensions.deep_view(), i as int));
                return Err(StartError::UndecodableName(entry.name.clone()));
            }
            let ghost before = names.deep_view();
            names.push(entry.name.clone());
            assert(names.deep_view() =~= before.push(entry.name@));
            assert(names_of(listing.deep_view().take(i + 1)) =~= before.push(entry.name@));
            i += 1;
        }
        assert(listing.deep_view().take(i as int) =~= listing.deep_view());
        Ok(Cleanup::new(&names, extensions, auto_confirm))
    }
}

} // verus!
