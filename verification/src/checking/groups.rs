//! Groups of items that refer to each other.

use super::state::{CheckState, UnificationEntry, UnificationState};
use super::terms::form_do::is_variable;
use super::types::{extends, TypeId, TypeStore};
use vstd::prelude::*;

verus! {

/// The type of an item before its group is checked: one that was known, or one that
/// is still to be found, by its number among those of the group.
pub enum Prepared {
    Known(TypeId),
    Fresh(nat),
}

/// The types of items, and how many of them are still to be found.
#[verifier::ext_equal]
pub struct Preparation {
    pub types: Map<u64, Prepared>,
    pub fresh: nat,
}

impl Preparation {
    /// All types are known.
    pub open spec fn begun(types: Map<u64, TypeId>) -> Preparation {
        Preparation {
            types: types.map_values(|type_id: TypeId| Prepared::Known(type_id)),
            fresh: 0,
        }
    }

    /// One more item has a type: the one that it has already, or that of the item
    /// which it stands for, or one that is still to be found.
    pub open spec fn with(self, item: u64, target: Option<u64>) -> Preparation {
        if self.types.contains_key(item) {
            self
        } else {
            match target {
                Some(target) if self.types.contains_key(target) => Preparation {
                    types: self.types.insert(item, self.types[target]),
                    ..self
                },
                _ => Preparation {
                    types: self.types.insert(item, Prepared::Fresh(self.fresh)),
                    fresh: self.fresh + 1,
                },
            }
        }
    }

    /// The types are those of the items; what is still to be found are the unification
    /// variables from the first one on.
    pub open spec fn describes(
        self,
        store: TypeStore,
        types: Map<u64, TypeId>,
        first: nat,
    ) -> bool {
        &&& self.types.dom() == types.dom()
        &&& forall|item: u64| #[trigger]
            types.contains_key(item) ==> match self.types[item] {
                Prepared::Known(type_id) => types[item] == type_id,
                Prepared::Fresh(number) => number < self.fresh && is_variable(
                    store,
                    types[item],
                    first + number,
                ),
            }
    }

    /// As many types have been made as are still to be found.
    pub open spec fn counted(self, before: CheckState, after: CheckState, kind: TypeId) -> bool {
        &&& after.unifications.wf()
        &&& !after.unifications.is_frozen()
        &&& after.unifications@ == before.unifications@ + Seq::new(
            self.fresh,
            |i: int|
                UnificationEntry { depth: before.depth, kind, state: UnificationState::Unsolved },
        )
    }
}

/// Where nothing has been prepared yet, the types are the known ones.
pub proof fn lemma_begun_describes(store: TypeStore, types: Map<u64, TypeId>, first: nat)
    ensures
        Preparation::begun(types).describes(store, types, first),
{
    assert(Preparation::begun(types).types.dom() =~= types.dom());
}

/// The types stay those of the items while the store grows.
pub proof fn lemma_describes_extends(
    preparation: Preparation,
    before: TypeStore,
    after: TypeStore,
    types: Map<u64, TypeId>,
    first: nat,
)
    requires
        preparation.describes(before, types, first),
        extends(before, after),
    ensures
        preparation.describes(after, types, first),
{
    assert forall|item: u64| #[trigger] types.contains_key(item) implies match preparation.types[item] {
        Prepared::Known(type_id) => types[item] == type_id,
        Prepared::Fresh(number) => number < preparation.fresh && is_variable(
            after,
            types[item],
            first + number,
        ),
    } by {
        match preparation.types[item] {
            Prepared::Known(_) => {},
            Prepared::Fresh(number) => {
                assert(is_variable(before, types[item], first + number));
            },
        }
    }
}

/// One more item has the type that it should have.
pub proof fn lemma_with_describes(
    preparation: Preparation,
    store: TypeStore,
    types: Map<u64, TypeId>,
    first: nat,
    item: u64,
    target: Option<u64>,
    type_id: TypeId,
)
    requires
        preparation.describes(store, types, first),
        !types.contains_key(item),
        match target {
            Some(target) if types.contains_key(target) => type_id == types[target],
            _ => is_variable(store, type_id, first + preparation.fresh),
        },
    ensures
        preparation.with(item, target).describes(store, types.insert(item, type_id), first),
{
    let after = preparation.with(item, target);
    let extended = types.insert(item, type_id);
    assert(!preparation.types.dom().contains(item));
    assert(after.types.dom() =~= extended.dom());
    assert forall|other: u64| #[trigger] extended.contains_key(other) implies match after.types[other] {
        Prepared::Known(known) => extended[other] == known,
        Prepared::Fresh(number) => number < after.fresh && is_variable(
            store,
            extended[other],
            first + number,
        ),
    } by {
        match target {
            Some(target) => {
                if types.contains_key(target) {
                    assert(preparation.types.dom().contains(target));
                }
            },
            None => {},
        }
        if other != item {
            assert(types.contains_key(other));
        }
    }
}

} // verus!
