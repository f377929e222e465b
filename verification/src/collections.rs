//! Storage shared by the passes: arenas, hash maps and hash sets.
//!
//! Each container pairs the storage of an outside crate with a ghost record
//! of what it holds; the record is the container's view.

use rustc_hash::{FxHashMap, FxHashSet};
use vstd::prelude::*;

verus! {

/// The arena of the `la_arena` crate.
#[verifier::external_type_specification]
#[verifier::external_body]
#[verifier::reject_recursive_types(T)]
pub struct ExArena<T>(la_arena::Arena<T>);

/// The map from arena positions of the `la_arena` crate.
#[verifier::external_type_specification]
#[verifier::external_body]
#[verifier::reject_recursive_types(IDX)]
#[verifier::reject_recursive_types(V)]
pub struct ExArenaMap<IDX, V>(la_arena::ArenaMap<IDX, V>);

/// The typed position of the `la_arena` crate.
#[verifier::external_type_specification]
#[verifier::external_body]
#[verifier::reject_recursive_types(T)]
pub struct ExIdx<T>(la_arena::Idx<T>);

/// The hasher state of the `rustc_hash` crate.
#[verifier::external_type_specification]
#[verifier::external_body]
pub struct ExFxBuildHasher(rustc_hash::FxBuildHasher);

/// Values addressed by the position at which they were added.
///
/// The view is the sequence of values in the order of addition.
#[verifier::reject_recursive_types(T)]
pub struct ItemArena<T> {
    storage: la_arena::Arena<T>,
    contents: Ghost<Seq<T>>,
}

impl<T> View for ItemArena<T> {
    type V = Seq<T>;

    closed spec fn view(&self) -> Seq<T> {
        self.contents@
    }
}

impl<T> ItemArena<T> {
    /// Calls `la_arena::Arena::new`, which makes an arena that holds nothing.
    #[verifier::external_body]
    pub(crate) fn new() -> (arena: Self)
        ensures
            arena@ == Seq::<T>::empty(),
    {
        ItemArena { storage: la_arena::Arena::new(), contents: Ghost(Seq::empty()) }
    }

    /// Calls `la_arena::Arena::alloc`, which puts the value behind all earlier
    /// ones and returns its position.
    #[verifier::external_body]
    pub(crate) fn push(&mut self, value: T) -> (index: u32)
        requires
            old(self)@.len() <= u32::MAX,
        ensures
            index == old(self)@.len(),
            final(self)@ == old(self)@.push(value),
    {
        self.storage.alloc(value).into_raw().into_u32()
    }

    /// Calls `la_arena::Arena::len`, the number of values held.
    #[verifier::external_body]
    pub(crate) fn len(&self) -> (length: usize)
        ensures
            length == self@.len(),
    {
        self.storage.len()
    }

    /// Calls the `Index` impl of `la_arena::Arena`, which returns the value
    /// at a position and panics past the end.
    #[verifier::external_body]
    pub(crate) fn get(&self, index: u32) -> (value: &T)
        requires
            index < self@.len(),
        ensures
            *value == self@[index as int],
    {
        &self.storage[la_arena::Idx::from_raw(la_arena::RawIdx::from_u32(index))]
    }

    /// Calls the `IndexMut` impl of `la_arena::Arena`: what is written through
    /// the reference takes the place of the value at the position, all others
    /// stay.
    #[verifier::external_body]
    pub(crate) fn get_mut(&mut self, index: u32) -> (value: &mut T)
        requires
            index < old(self)@.len(),
        ensures
            *value == old(self)@[index as int],
            final(self)@ == old(self)@.update(index as int, *final(value)),
    {
        &mut self.storage[la_arena::Idx::from_raw(la_arena::RawIdx::from_u32(index))]
    }
}

/// A partial function on the positions of some arena.
#[verifier::reject_recursive_types(V)]
pub struct ItemTable<V> {
    storage: la_arena::ArenaMap<la_arena::Idx<u32>, V>,
    contents: Ghost<Map<u32, V>>,
}

impl<V> View for ItemTable<V> {
    type V = Map<u32, V>;

    closed spec fn view(&self) -> Map<u32, V> {
        self.contents@
    }
}

impl<V> ItemTable<V> {
    /// Calls `la_arena::ArenaMap::new`, which makes a map that holds nothing.
    #[verifier::external_body]
    pub(crate) fn new() -> (table: Self)
        ensures
            (table@ == Map::<u32, V>::empty()),
    {
        ItemTable { storage: la_arena::ArenaMap::new(), contents: Ghost(Map::empty()) }
    }

    /// Calls `la_arena::ArenaMap::insert`, which gives the position the value,
    /// in place of an earlier one, and returns the earlier one. The map keeps a
    /// slot for every position up to the greatest.
    #[verifier::external_body]
    pub(crate) fn insert(&mut self, index: u32, value: V) -> (previous: Option<V>)
        requires
            index < usize::MAX,
        ensures
            final(self)@ == old(self)@.insert(index, value),
            previous == (if old(self)@.contains_key(index) {
                Some(old(self)@[index])
            } else {
                None
            }),
    {
        let index = la_arena::Idx::from_raw(la_arena::RawIdx::from_u32(index));
        self.storage.insert(index, value)
    }

    /// Calls `la_arena::ArenaMap::get`, which returns the value of a position,
    /// or nothing where none was given.
    #[verifier::external_body]
    pub(crate) fn get(&self, index: u32) -> (value: Option<&V>)
        ensures
            value == (if self@.contains_key(index) {
                Some(&self@[index])
            } else {
                None
            }),
    {
        self.storage.get(la_arena::Idx::from_raw(la_arena::RawIdx::from_u32(index)))
    }
}

/// A hash map keyed by text.
#[verifier::reject_recursive_types(V)]
pub struct NameMap<V> {
    storage: FxHashMap<String, V>,
    contents: Ghost<Map<Seq<char>, V>>,
}

impl<V> View for NameMap<V> {
    type V = Map<Seq<char>, V>;

    closed spec fn view(&self) -> Map<Seq<char>, V> {
        self.contents@
    }
}

impl<V> NameMap<V> {
    /// Calls `FxHashMap::default`, which makes a map that holds nothing.
    #[verifier::external_body]
    pub(crate) fn new() -> (map: Self)
        ensures
            (map@ == Map::<Seq<char>, V>::empty()),
    {
        NameMap { storage: FxHashMap::default(), contents: Ghost(Map::empty()) }
    }

    /// Calls `FxHashMap::get`, which returns the value of a key, if it has one.
    #[verifier::external_body]
    pub(crate) fn get(&self, name: &str) -> (value: Option<&V>)
        ensures
            value == (if self@.contains_key(name@) {
                Some(&self@[name@])
            } else {
                None
            }),
    {
        self.storage.get(name)
    }

    /// Calls `FxHashMap::get_mut`: what is written through the reference takes
    /// the place of the key's value, all others stay.
    #[verifier::external_body]
    pub(crate) fn get_mut(&mut self, name: &str) -> (value: Option<&mut V>)
        ensures
            value is Some <==> old(self)@.contains_key(name@),
            value matches Some(value) ==> *value == old(self)@[name@]
                && final(self)@ == old(self)@.insert(name@, *final(value)),
            value is None ==> final(self)@ == old(self)@,
    {
        self.storage.get_mut(name)
    }

    /// Calls `FxHashMap::insert`, which gives the key the value, in place of an
    /// earlier one.
    #[verifier::external_body]
    pub(crate) fn insert(&mut self, name: String, value: V)
        ensures
            final(self)@ == old(self)@.insert(name@, value),
    {
        self.storage.insert(name, value);
    }
}

/// The set holds as many texts as given.
pub open spec fn has_size(set: Set<Seq<char>>, size: usize) -> bool {
    set.finite() && set.len() == size
}

/// A hash set of texts.
pub struct NameSet {
    storage: FxHashSet<String>,
    contents: Ghost<Set<Seq<char>>>,
}

impl View for NameSet {
    type V = Set<Seq<char>>;

    closed spec fn view(&self) -> Set<Seq<char>> {
        self.contents@
    }
}

impl NameSet {
    /// Calls `FxHashSet::default`, which makes a set that holds nothing.
    #[verifier::external_body]
    pub(crate) fn new() -> (set: Self)
        ensures
            set@ == Set::<Seq<char>>::empty(),
    {
        NameSet { storage: FxHashSet::default(), contents: Ghost(Set::empty()) }
    }

    /// Calls `FxHashSet::insert`, which adds the text and returns whether it
    /// was not held before.
    #[verifier::external_body]
    pub(crate) fn insert(&mut self, name: String) -> (added: bool)
        ensures
            final(self)@ == old(self)@.insert(name@),
            added == !old(self)@.contains(name@),
    {
        self.storage.insert(name)
    }

    /// Calls `FxHashSet::len`, the number of texts.
    #[verifier::external_body]
    pub(crate) fn len(&self) -> (len: usize)
        ensures
            has_size(self@, len),
    {
        self.storage.len()
    }

    /// Calls `FxHashSet::contains`, which tells whether the text is held.
    #[verifier::external_body]
    pub(crate) fn contains(&self, name: &str) -> (held: bool)
        ensures
            held == self@.contains(name@),
    {
        self.storage.contains(name)
    }

    /// Calls the `IntoIterator` impl of `FxHashSet`, which hands out every text
    /// once. The order is left open.
    #[verifier::external_body]
    pub(crate) fn into_names(self) -> (names: Vec<String>)
        ensures
            forall|i: int| 0 <= i < names@.len() ==> self@.contains(#[trigger] names@[i]@),
            forall|text: Seq<char>| #[trigger]
                self@.contains(text) ==> exists|i: int|
                    0 <= i < names@.len() && #[trigger] names@[i]@ == text,
            forall|i: int, j: int|
                0 <= i < j < names@.len() ==> #[trigger] names@[i]@ != #[trigger] names@[j]@,
    {
        self.storage.into_iter().collect()
    }
}

/// A hash map keyed by numbers.
#[verifier::reject_recursive_types(V)]
pub struct IdMap<V> {
    storage: FxHashMap<u64, V>,
    contents: Ghost<Map<u64, V>>,
}

impl<V> View for IdMap<V> {
    type V = Map<u64, V>;

    closed spec fn view(&self) -> Map<u64, V> {
        self.contents@
    }
}

impl<V> IdMap<V> {
    /// Calls `FxHashMap::default`, which makes a map that holds nothing.
    #[verifier::external_body]
    pub(crate) fn new() -> (map: Self)
        ensures
            (map@ == Map::<u64, V>::empty()),
    {
        IdMap { storage: FxHashMap::default(), contents: Ghost(Map::empty()) }
    }

    /// Calls `FxHashMap::get`, which returns the value of a key, if it has one.
    #[verifier::external_body]
    pub(crate) fn get(&self, id: u64) -> (value: Option<&V>)
        ensures
            value == (if self@.contains_key(id) {
                Some(&self@[id])
            } else {
                None
            }),
    {
        self.storage.get(&id)
    }

    /// Calls `FxHashMap::get_mut`: what is written through the reference takes
    /// the place of the key's value, all others stay.
    #[verifier::external_body]
    pub(crate) fn get_mut(&mut self, id: u64) -> (value: Option<&mut V>)
        ensures
            value is Some <==> old(self)@.contains_key(id),
            value matches Some(value) ==> *value == old(self)@[id]
                && final(self)@ == old(self)@.insert(id, *final(value)),
            value is None ==> final(self)@ == old(self)@,
    {
        self.storage.get_mut(&id)
    }

    /// Calls `FxHashMap::insert`, which gives the key the value, in place of an
    /// earlier one, and returns the earlier one.
    #[verifier::external_body]
    pub(crate) fn insert(&mut self, id: u64, value: V) -> (previous: Option<V>)
        ensures
            final(self)@ == old(self)@.insert(id, value),
            previous == (if old(self)@.contains_key(id) {
                Some(old(self)@[id])
            } else {
                None
            }),
    {
        self.storage.insert(id, value)
    }

    /// Calls `FxHashMap::remove`, which takes a key and its value out.
    #[verifier::external_body]
    pub(crate) fn remove(&mut self, id: u64) -> (value: Option<V>)
        ensures
            final(self)@ == old(self)@.remove(id),
            value == (if old(self)@.contains_key(id) {
                Some(old(self)@[id])
            } else {
                None
            }),
    {
        self.storage.remove(&id)
    }

    /// Calls `FxHashMap::keys`, which hands out every key once. The order is
    /// left open.
    #[verifier::external_body]
    pub(crate) fn keys(&self) -> (ids: Vec<u64>)
        ensures
            forall|i: int| 0 <= i < ids@.len() ==> self@.contains_key(#[trigger] ids@[i]),
            forall|id: u64| #[trigger]
                self@.contains_key(id) ==> exists|i: int|
                    0 <= i < ids@.len() && #[trigger] ids@[i] == id,
            ids@.no_duplicates(),
    {
        self.storage.keys().copied().collect()
    }
}

impl<V> IdMap<V> {
    /// A map without entries.
    pub fn empty() -> (map: Self)
        ensures
            map@ == Map::<u64, V>::empty(),
    {
        IdMap::new()
    }

    /// The value of an identity, if there is one.
    pub fn find(&self, id: u64) -> (value: Option<&V>)
        ensures
            match value {
                Some(value) => self@.contains_key(id) && *value == self@[id],
                None => !self@.contains_key(id),
            },
    {
        self.get(id)
    }

    /// Gives an identity a value, in place of an earlier one.
    pub fn put(&mut self, id: u64, value: V)
        ensures
            final(self)@ == old(self)@.insert(id, value),
    {
        self.insert(id, value);
    }
}

impl<V> NameMap<V> {
    /// The value of a name, if there is one.
    pub fn find(&self, name: &str) -> (value: Option<&V>)
        ensures
            match value {
                Some(value) => self@.contains_key(name@) && *value == self@[name@],
                None => !self@.contains_key(name@),
            },
    {
        self.get(name)
    }
}

/// A copy of a list.
pub fn copy_all<T: Copy>(values: &Vec<T>) -> (copies: Vec<T>)
    ensures
        copies@ == values@,
{
    let mut copies: Vec<T> = Vec::new();
    let mut index: usize = 0;
    while index < values.len()
        invariant
            index <= values.len(),
            copies@ == values@.take(index as int),
        decreases values.len() - index,
    {
        copies.push(values[index]);
        assert(copies@ =~= values@.take(index + 1));
        index += 1;
    }
    assert(copies@ =~= values@);
    copies
}

} // verus!
