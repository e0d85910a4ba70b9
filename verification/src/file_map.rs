//! An ordered map from the path of a session log to what is remembered of it.
use vstd::prelude::*;

use crate::models::{FileState, FileStateView};
use crate::string_set;
use crate::string_set::StringSet;

verus! {

/// A map from paths to file states that lists its paths in the order of their bytes.
#[derive(Debug)]
pub struct FileMap {
    paths: StringSet,
    states: Vec<FileState>,
}

impl FileMap {
    /// The paths of the map, in order.
    pub closed spec fn listing(self) -> Seq<Seq<char>> {
        self.paths.listing()
    }

    #[verifier::type_invariant]
    spec fn is_complete(self) -> bool {
        &&& self.states@.len() == self.listing().len()
        &&& string_set::is_increasing(self.listing())
    }

    /// What is remembered of each path.
    pub closed spec fn view(self) -> Map<Seq<char>, FileStateView> {
        paired(self.listing(), views(self.states@))
    }

    /// A map with nothing in it.
    pub fn new() -> (map: Self)
        ensures
            map@ == Map::<Seq<char>, FileStateView>::empty(),
    {
        let paths = StringSet::new();
        let map = FileMap { paths, states: Vec::new() };
        assert(map@ =~= Map::empty());
        map
    }

    /// How many paths are in the map. They are listed in strictly increasing order.
    pub fn len(&self) -> (length: usize)
        ensures
            length == self.listing().len(),
            string_set::is_increasing(self.listing()),
            self@.dom() == self.listing().to_set(),
    {
        proof {
            use_type_invariant(self);
        }
        assert(self@.dom() =~= self.listing().to_set());
        self.states.len()
    }

    /// The path at a place of the listing.
    pub fn path(&self, index: usize) -> (path: &String)
        requires
            index < self.listing().len(),
        ensures
            path@ == self.listing()[index as int],
            self@.contains_key(path@),
    {
        assert(self.listing().contains(self.listing()[index as int]));
        self.paths.get(index)
    }

    /// What is remembered of the path at a place of the listing.
    pub fn state(&self, index: usize) -> (state: &FileState)
        requires
            index < self.listing().len(),
        ensures
            state@ == self@[self.listing()[index as int]],
    {
        proof {
            use_type_invariant(self);
            string_set::lemma_one_place(self.listing(), index as int);
            assert(self.listing().contains(self.listing()[index as int]));
        }
        &self.states[index]
    }

    /// What is remembered of a path, if anything is.
    pub fn get(&self, path: &str) -> (state: Option<&FileState>)
        ensures
            match state {
                Some(found) => self@.contains_key(path@) && found@ == self@[path@],
                None => !self@.contains_key(path@),
            },
    {
        match self.paths.find(path) {
            Ok(index) => {
                assert(self.listing().contains(self.listing()[index as int]));
                Some(self.state(index))
            },
            Err(_) => None,
        }
    }

    /// What is remembered of a path; a fresh state where nothing is.
    pub fn get_or_fresh(&self, path: &str) -> (state: FileState)
        ensures
            state@ == entry(self@, path@),
    {
        match self.get(path) {
            Some(state) => state.clone(),
            None => FileState::default(),
        }
    }

    /// Remembers a state for a path, in place of an earlier one.
    pub fn insert(&mut self, path: String, state: FileState)
        ensures
            final(self)@ == old(self)@.insert(path@, state@),
    {
        proof {
            use_type_invariant(&*self);
        }
        let ghost listing = self.listing();
        let ghost before = views(self.states@);
        let found = self.paths.find(path.as_str());
        let mut taken = FileMap::new();
        std::mem::swap(self, &mut taken);
        let FileMap { paths: mut paths, states: mut states } = taken;
        match found {
            Ok(index) => {
                states.set(index, state);
                proof {
                    assert(views(states@) =~= before.update(index as int, state@));
                    lemma_replaced(listing, before, index as int, state@);
                }
            },
            Err(index) => {
                paths.insert_at(index, path);
                states.insert(index, state);
                proof {
                    assert(views(states@) =~= before.insert(index as int, state@));
                }
                let _: usize = paths.len();
                proof {
                    lemma_added(listing, before, index as int, path@, state@);
                }
            },
        }
        *self = FileMap { paths, states };
    }

    /// Forgets the paths that are not in a set, and tells whether there were any.
    pub fn keep_only(&mut self, live: &StringSet) -> (removed: bool)
        ensures
            final(self)@ == old(self)@.restrict(live@),
            removed == !old(self)@.dom().subset_of(live@),
    {
        let count: usize = self.len();
        let mut kept = FileMap::new();
        let mut removed = false;
        let mut i: usize = 0;
        assert(kept@ =~= self@.restrict(live@.intersect(self.listing().take(0).to_set())));
        while i < count
            invariant
                i <= count,
                count == self.listing().len(),
                self@.dom() == self.listing().to_set(),
                kept@ == self@.restrict(live@.intersect(self.listing().take(i as int).to_set())),
                removed == !self.listing().take(i as int).to_set().subset_of(live@),
            decreases count - i,
        {
            proof {
                string_set::lemma_taken_members(self.listing(), i as int);
            }
            let path = self.path(i);
            if live.contains(path.as_str()) {
                kept.insert(path.clone(), self.state(i).clone());
            } else {
                removed = true;
            }
            i += 1;
            assert(kept@ =~= self@.restrict(
                live@.intersect(self.listing().take(i as int).to_set()),
            ));
        }
        proof {
            assert(self.listing().take(i as int) =~= self.listing());
            assert(kept@ =~= self@.restrict(live@));
        }
        *self = kept;
        removed
    }
}

impl Clone for FileMap {
    fn clone(&self) -> (copy: Self)
        ensures
            copy@ == self@,
    {
        proof {
            use_type_invariant(self);
        }
        let mut states: Vec<FileState> = Vec::new();
        let mut i: usize = 0;
        while i < self.states.len()
            invariant
                i <= self.states@.len(),
                states@.len() == i,
                forall|j: int| 0 <= j < i ==> (#[trigger] states@[j])@ == self.states@[j]@,
            decreases self.states@.len() - i,
        {
            states.push(self.states[i].clone());
            i += 1;
        }
        assert(views(states@) =~= views(self.states@));
        FileMap { paths: self.paths.clone(), states }
    }
}

/// What each state of a list holds.
spec fn views(states: Seq<FileState>) -> Seq<FileStateView> {
    states.map_values(|state: FileState| state@)
}

/// The map that gives the path at each place the state at that place.
spec fn paired(listing: Seq<Seq<char>>, states: Seq<FileStateView>) -> Map<
    Seq<char>,
    FileStateView,
> {
    Map::new(
        |path: Seq<char>| listing.contains(path),
        |path: Seq<char>| states[listing.index_of(path)],
    )
}

/// Another state at a place is another state for the path at that place.
proof fn lemma_replaced(
    listing: Seq<Seq<char>>,
    states: Seq<FileStateView>,
    index: int,
    state: FileStateView,
)
    requires
        string_set::is_increasing(listing),
        states.len() == listing.len(),
        0 <= index < listing.len(),
    ensures
        paired(listing, states.update(index, state)) == paired(listing, states).insert(
            listing[index],
            state,
        ),
{
    string_set::lemma_one_place(listing, index);
    let left = paired(listing, states.update(index, state));
    let right = paired(listing, states).insert(listing[index], state);
    assert(listing.contains(listing[index]));
    assert(left.dom() =~= right.dom());
    assert forall|path: Seq<char>| left.contains_key(path) implies left[path] == right[path] by {
        let place = listing.index_of(path);
        assert(0 <= place < listing.len() && listing[place] == path);
    }
    assert(left =~= right);
}

/// One more path with its state, put in the same place of both lists.
proof fn lemma_added(
    listing: Seq<Seq<char>>,
    states: Seq<FileStateView>,
    index: int,
    path: Seq<char>,
    state: FileStateView,
)
    requires
        string_set::is_increasing(listing),
        string_set::is_increasing(listing.insert(index, path)),
        states.len() == listing.len(),
        0 <= index <= listing.len(),
    ensures
        paired(listing.insert(index, path), states.insert(index, state)) == paired(
            listing,
            states,
        ).insert(path, state),
{
    let longer = listing.insert(index, path);
    let left = paired(longer, states.insert(index, state));
    let right = paired(listing, states).insert(path, state);
    assert(longer[index] == path);
    string_set::lemma_one_place(longer, index);
    assert forall|other: Seq<char>| left.contains_key(other) == right.contains_key(other) by {
        string_set::lemma_inserted_members(listing, index, path, other);
    }
    assert forall|other: Seq<char>| left.contains_key(other) implies left[other]
        == right[other] by {
        string_set::lemma_inserted_members(listing, index, path, other);
        if other != path {
            let place = listing.index_of(other);
            assert(0 <= place < listing.len() && listing[place] == other);
            let shifted = if place < index { place } else { place + 1 };
            assert(longer[shifted] == other);
            string_set::lemma_one_place(longer, shifted);
        }
    }
    assert(left =~= right);
}

/// What a map remembers of a path; a fresh state where it remembers nothing.
pub open spec fn entry(files: Map<Seq<char>, FileStateView>, path: Seq<char>) -> FileStateView {
    if files.contains_key(path) {
        files[path]
    } else {
        FileStateView::fresh()
    }
}

} // verus!
