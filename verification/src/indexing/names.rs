//! Names in scope and the items that bear them.

use super::items::{TermItemId, TypeItemId};
use crate::collections::NameMap;
use vstd::prelude::*;

verus! {

/// The item that the first entry with the name has.
pub open spec fn first_entry<ItemId>(
    entries: Seq<(Seq<char>, ItemId)>,
    name: Seq<char>,
) -> Option<ItemId>
    decreases entries.len(),
{
    if entries.len() == 0 {
        None
    } else {
        match first_entry(entries.drop_last(), name) {
            Some(id) => Some(id),
            None => if entries.last().0 == name {
                Some(entries.last().1)
            } else {
                None
            },
        }
    }
}

/// Identities of items, which can be compared.
pub trait ItemIdentity: Copy {
    fn is(&self, other: &Self) -> (same: bool)
        ensures
            same == (*self == *other),
    ;
}

impl ItemIdentity for TermItemId {
    fn is(&self, other: &Self) -> (same: bool) {
        *self == *other
    }
}

impl ItemIdentity for TypeItemId {
    fn is(&self, other: &Self) -> (same: bool) {
        *self == *other
    }
}

/// All names of a module in order, with a table of the first item of each.
#[verifier::reject_recursive_types(ItemId)]
pub struct NameIndex<ItemId> {
    first: NameMap<ItemId>,
    entries: Vec<(String, ItemId)>,
}

impl<ItemId> View for NameIndex<ItemId> {
    type V = Seq<(Seq<char>, ItemId)>;

    closed spec fn view(&self) -> Seq<(Seq<char>, ItemId)> {
        self.entries@.map_values(|entry: (String, ItemId)| (entry.0@, entry.1))
    }
}

impl<ItemId: ItemIdentity> NameIndex<ItemId> {
    /// The table holds the first item of every name.
    pub closed spec fn wf(self) -> bool {
        forall|name: Seq<char>| #[trigger]
            first_entry(self@, name) == (if self.first@.contains_key(name) {
                Some(self.first@[name])
            } else {
                None
            })
    }

    pub fn new() -> (index: Self)
        ensures
            index.wf(),
            index@ == Seq::<(Seq<char>, ItemId)>::empty(),
    {
        let index = NameIndex { first: NameMap::new(), entries: Vec::new() };
        assert(index@ =~= Seq::empty());
        index
    }

    /// The first item that was given the name.
    pub fn lookup(&self, name: &str) -> (id: Option<ItemId>)
        requires
            self.wf(),
        ensures
            id == first_entry(self@, name@),
    {
        assert(first_entry(self@, name@) == first_entry(self@, name@));
        match self.first.get(name) {
            Some(id) => Some(*id),
            None => None,
        }
    }

    /// All names with their items, in the order of addition.
    pub fn iter(&self) -> (entries: Vec<(&String, ItemId)>)
        ensures
            entries@.len() == self@.len(),
            forall|i: int|
                0 <= i < entries@.len() ==> ((#[trigger] entries@[i]).0@, entries@[i].1)
                    == self@[i],
    {
        let mut entries: Vec<(&String, ItemId)> = Vec::new();
        let mut index: usize = 0;
        while index < self.entries.len()
            invariant
                index <= self.entries.len(),
                entries@.len() == index,
                self@.len() == self.entries@.len(),
                forall|i: int|
                    0 <= i < index ==> ((#[trigger] entries@[i]).0@, entries@[i].1) == self@[i],
            decreases self.entries.len() - index,
        {
            let (name, id) = &self.entries[index];
            entries.push((name, *id));
            index += 1;
        }
        entries
    }

    /// Gives an item a name and returns the item that the name stands for, if
    /// that is another one.
    pub(crate) fn insert(&mut self, name: String, id: ItemId) -> (existing: Option<ItemId>)
        requires
            old(self).wf(),
        ensures
            final(self).wf(),
            final(self)@ == old(self)@.push((name@, id)),
            existing == (match first_entry(old(self)@, name@) {
                Some(first) if first != id => Some(first),
                _ => None,
            }),
    {
        let ghost before = self@;
        let existing = self.lookup(name.as_str());
        if existing.is_none() {
            self.first.insert(name.clone(), id);
        }
        let ghost text = name@;
        self.entries.push((name, id));
        assert(self@ =~= before.push((text, id)));
        proof {
            assert forall|other: Seq<char>| #[trigger]
                first_entry(self@, other) == (if self.first@.contains_key(other) {
                    Some(self.first@[other])
                } else {
                    None
                }) by {
                lemma_first_entry_push(before, text, id, other);
                assert(first_entry(before, other) == first_entry(before, other));
            }
        }
        match existing {
            Some(first) => if first.is(&id) {
                None
            } else {
                Some(first)
            },
            None => None,
        }
    }
}

/// Adding an entry keeps the first item of every name that has one.
pub proof fn lemma_first_entry_push<ItemId>(
    entries: Seq<(Seq<char>, ItemId)>,
    name: Seq<char>,
    id: ItemId,
    other: Seq<char>,
)
    ensures
        first_entry(entries.push((name, id)), other) == (match first_entry(entries, other) {
            Some(first) => Some(first),
            None => if name == other {
                Some(id)
            } else {
                None
            },
        }),
{
    assert(entries.push((name, id)).drop_last() =~= entries);
}

/// The names of a module's terms and types.
pub struct IndexedNames {
    pub terms: NameIndex<TermItemId>,
    pub types: NameIndex<TypeItemId>,
}

} // verus!
