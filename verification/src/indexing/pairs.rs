//! Relations between syntax nodes and the items that they belong to.

use super::items::{DeriveItemId, InstanceItemId, TermItemId, TypeItemId};
use super::names::ItemIdentity;
use super::source::{
    strictly_ascending, AstId, ClassMemberId, DataConstructorId, DeclarationId, DeriveId,
    InstanceChainId, InstanceId, InstanceMemberId,
};
use vstd::prelude::*;

verus! {

/// The keys of a list of pairs.
pub open spec fn keys<V>(pairs: Seq<(AstId, V)>) -> Seq<AstId> {
    pairs.map_values(|pair: (AstId, V)| pair.0)
}

/// The numbers do not descend.
pub open spec fn ascending(ids: Seq<AstId>) -> bool {
    forall|i: int, j: int| 0 <= i <= j < ids.len() ==> ids[i].raw <= ids[j].raw
}

/// The value of the first pair with the key.
pub open spec fn first_value<V>(pairs: Seq<(AstId, V)>, id: AstId) -> Option<V>
    decreases pairs.len(),
{
    if pairs.len() == 0 {
        None
    } else if pairs[0].0 == id {
        Some(pairs[0].1)
    } else {
        first_value(pairs.skip(1), id)
    }
}

/// Pairs with other keys in front of the list do not matter.
pub proof fn lemma_first_value_skip<V>(pairs: Seq<(AstId, V)>, id: AstId, count: int)
    requires
        0 <= count <= pairs.len(),
        forall|i: int| 0 <= i < count ==> (#[trigger] pairs[i]).0 != id,
    ensures
        first_value(pairs, id) == first_value(pairs.skip(count), id),
    decreases count,
{
    if count == 0 {
        assert(pairs.skip(0) =~= pairs);
    } else {
        assert forall|i: int| 0 <= i < count - 1 implies (#[trigger] pairs.skip(1)[i]).0 != id by {
            assert(pairs[i + 1].0 != id);
        }
        lemma_first_value_skip(pairs.skip(1), id, count - 1);
        assert(pairs.skip(1).skip(count - 1) =~= pairs.skip(count));
        assert(pairs[0].0 != id);
    }
}

/// A key that no pair has is without a value.
proof fn lemma_first_value_absent<V>(pairs: Seq<(AstId, V)>, id: AstId)
    requires
        forall|i: int| 0 <= i < pairs.len() ==> (#[trigger] pairs[i]).0 != id,
    ensures
        first_value(pairs, id) is None,
{
    lemma_first_value_skip(pairs, id, pairs.len() as int);
}

/// A key that occurs once is found with its value.
pub proof fn lemma_first_value_at<V>(pairs: Seq<(AstId, V)>, index: int)
    requires
        0 <= index < pairs.len(),
        strictly_ascending(keys(pairs)),
    ensures
        first_value(pairs, pairs[index].0) == Some(pairs[index].1),
{
    assert forall|i: int| 0 <= i < index implies (#[trigger] pairs[i]).0 != pairs[index].0 by {
        assert(keys(pairs)[i].raw < keys(pairs)[index].raw);
    }
    lemma_first_value_skip(pairs, pairs[index].0, index);
    assert(pairs.skip(index)[0] == pairs[index]);
}

/// Returns the first value for the key, as instance chains pair one declaration with many items.
pub fn lookup_pair<V: Copy>(pairs: &Vec<(AstId, V)>, id: AstId) -> (value: Option<V>)
    requires
        ascending(keys(pairs@)),
    ensures
        value == first_value(pairs@, id),
{
    let mut low: usize = 0;
    let mut high: usize = pairs.len();
    while low < high
        invariant
            low <= high <= pairs.len(),
            ascending(keys(pairs@)),
            forall|i: int| 0 <= i < low ==> (#[trigger] pairs@[i]).0.raw < id.raw,
            forall|i: int| high <= i < pairs.len() ==> (#[trigger] pairs@[i]).0.raw >= id.raw,
        decreases high - low,
    {
        let middle: usize = low + (high - low) / 2;
        let below = pairs[middle].0.raw < id.raw;
        assert(forall|i: int|
            0 <= i < pairs.len() ==> (#[trigger] pairs@[i]).0 == keys(pairs@)[i]);
        assert(forall|i: int| middle <= i < pairs.len() ==> (#[trigger] pairs@[i]).0.raw >= keys(
            pairs@,
        )[middle as int].raw);
        assert(forall|i: int| 0 <= i <= middle ==> (#[trigger] pairs@[i]).0.raw <= keys(
            pairs@,
        )[middle as int].raw);
        if below {
            low = middle + 1;
        } else {
            high = middle;
        }
    }
    proof {
        lemma_first_value_skip(pairs@, id, low as int);
    }
    if low < pairs.len() {
        let (key, value) = pairs[low];
        assert(pairs@.skip(low as int)[0] == pairs@[low as int]);
        if key.raw == id.raw {
            Some(value)
        } else {
            proof {
                let rest = pairs@.skip(low as int);
                assert forall|i: int| 0 <= i < rest.len() implies (#[trigger] rest[i]).0 != id by {
                    assert(rest[i].0 == keys(pairs@)[low + i]);
                    assert(keys(pairs@)[low as int].raw <= keys(pairs@)[low + i].raw);
                }
                lemma_first_value_absent(rest, id);
            }
            None
        }
    } else {
        None
    }
}

/// Whether the keys are in source order.
///
/// Pairs are pushed in source order and stable identities are numbered in preorder.
pub fn is_sorted_by_key<V>(pairs: &Vec<(AstId, V)>) -> (sorted: bool)
    ensures
        sorted == ascending(keys(pairs@)),
{
    let mut index: usize = 1;
    while index < pairs.len()
        invariant
            1 <= index,
            index <= pairs.len() || pairs.len() == 0,
            forall|i: int, j: int|
                0 <= i <= j < index && j < pairs.len() ==> keys(pairs@)[i].raw <= keys(
                    pairs@,
                )[j].raw,
        decreases pairs.len() - index,
    {
        assert(keys(pairs@)[index as int] == pairs@[index as int].0);
        assert(keys(pairs@)[index - 1] == pairs@[index - 1].0);
        if pairs[index].0.raw < pairs[index - 1].0.raw {
            return false;
        }
        index += 1;
    }
    true
}

/// The keys of the pairs with the value.
pub open spec fn nodes_of<V>(pairs: Seq<(AstId, V)>, item: V) -> Seq<AstId>
    decreases pairs.len(),
{
    if pairs.len() == 0 {
        Seq::empty()
    } else {
        let before = nodes_of(pairs.drop_last(), item);
        if pairs.last().1 == item {
            before.push(pairs.last().0)
        } else {
            before
        }
    }
}

/// Adds the keys of the pairs with the value to a list.
fn collect_nodes<V: ItemIdentity>(pairs: &Vec<(AstId, V)>, item: V, nodes: &mut Vec<AstId>)
    ensures
        final(nodes)@ == old(nodes)@ + nodes_of(pairs@, item),
{
    let mut index: usize = 0;
    assert(pairs@.take(0) =~= Seq::empty());
    assert(nodes@ =~= old(nodes)@ + nodes_of(pairs@.take(0), item));
    while index < pairs.len()
        invariant
            index <= pairs.len(),
            nodes@ == old(nodes)@ + nodes_of(pairs@.take(index as int), item),
        decreases pairs.len() - index,
    {
        assert(pairs@.take(index + 1).drop_last() =~= pairs@.take(index as int));
        let (key, value) = &pairs[index];
        if value.is(&item) {
            nodes.push(*key);
        }
        assert(nodes@ =~= old(nodes)@ + nodes_of(pairs@.take(index + 1), item));
        index += 1;
    }
    assert(pairs@.take(index as int) =~= pairs@);
}

/// The pairs of an indexed module.
pub struct IndexedPairs {
    derive_to_item: Vec<(DeriveId, DeriveItemId)>,
    instance_chain: Vec<(InstanceId, InstanceChainId, u32)>,
    instance_to_item: Vec<(InstanceId, InstanceItemId)>,
    instance_members: Vec<(InstanceId, InstanceMemberId)>,
    declaration_to_term: Vec<(DeclarationId, TermItemId)>,
    declaration_to_type: Vec<(DeclarationId, TypeItemId)>,
    declaration_to_instance: Vec<(DeclarationId, InstanceItemId)>,
    declaration_to_derive: Vec<(DeclarationId, DeriveItemId)>,
    constructor_to_term: Vec<(DataConstructorId, TermItemId)>,
    class_member_to_term: Vec<(ClassMemberId, TermItemId)>,
}

/// The model of [`IndexedPairs`].
#[verifier::ext_equal]
pub struct Pairs {
    pub derive_to_item: Seq<(DeriveId, DeriveItemId)>,
    pub instance_chain: Seq<(InstanceId, InstanceChainId, u32)>,
    pub instance_to_item: Seq<(InstanceId, InstanceItemId)>,
    pub instance_members: Seq<(InstanceId, InstanceMemberId)>,
    pub declaration_to_term: Seq<(DeclarationId, TermItemId)>,
    pub declaration_to_type: Seq<(DeclarationId, TypeItemId)>,
    pub declaration_to_instance: Seq<(DeclarationId, InstanceItemId)>,
    pub declaration_to_derive: Seq<(DeclarationId, DeriveItemId)>,
    pub constructor_to_term: Seq<(DataConstructorId, TermItemId)>,
    pub class_member_to_term: Seq<(ClassMemberId, TermItemId)>,
}

/// The instances of a list of chain entries.
pub open spec fn chain_keys(chain: Seq<(InstanceId, InstanceChainId, u32)>) -> Seq<AstId> {
    chain.map_values(|entry: (InstanceId, InstanceChainId, u32)| entry.0)
}

/// The chain entries as pairs: an instance with its chain and its position there.
pub open spec fn chain_pairs(chain: Seq<(InstanceId, InstanceChainId, u32)>) -> Seq<
    (InstanceId, (InstanceChainId, u32)),
> {
    chain.map_values(|entry: (InstanceId, InstanceChainId, u32)| (entry.0, (entry.1, entry.2)))
}

/// The chain of an instance and its position there.
pub open spec fn chain_metadata(
    chain: Seq<(InstanceId, InstanceChainId, u32)>,
    id: InstanceId,
) -> Option<(InstanceChainId, u32)> {
    first_value(chain_pairs(chain), id)
}

/// An instance that occurs once is found with its chain and its position there.
pub proof fn lemma_chain_metadata_at(chain: Seq<(InstanceId, InstanceChainId, u32)>, index: int)
    requires
        0 <= index < chain.len(),
        strictly_ascending(chain_keys(chain)),
    ensures
        chain_metadata(chain, chain[index].0) == Some((chain[index].1, chain[index].2)),
{
    assert(keys(chain_pairs(chain)) =~= chain_keys(chain));
    lemma_first_value_at(chain_pairs(chain), index);
}

/// An instance that does not occur is in no chain.
proof fn lemma_chain_metadata_absent(
    chain: Seq<(InstanceId, InstanceChainId, u32)>,
    id: InstanceId,
)
    requires
        !chain_keys(chain).contains(id),
    ensures
        chain_metadata(chain, id) is None,
{
    assert forall|i: int| 0 <= i < chain_pairs(chain).len() implies (#[trigger] chain_pairs(
        chain,
    )[i]).0 != id by {
        assert(chain_keys(chain)[i] != id);
    }
    lemma_first_value_absent(chain_pairs(chain), id);
}

/// Whether the instances of the chain entries are in source order, each once.
fn is_sorted_by_instance(chain: &Vec<(InstanceId, InstanceChainId, u32)>) -> (sorted: bool)
    ensures
        sorted == strictly_ascending(chain_keys(chain@)),
{
    let mut index: usize = 1;
    while index < chain.len()
        invariant
            1 <= index,
            index <= chain.len() || chain.len() == 0,
            forall|i: int, j: int|
                0 <= i < j < index && j < chain.len() ==> chain_keys(chain@)[i].raw < chain_keys(
                    chain@,
                )[j].raw,
        decreases chain.len() - index,
    {
        assert(chain_keys(chain@)[index as int] == chain@[index as int].0);
        assert(chain_keys(chain@)[index - 1] == chain@[index - 1].0);
        if chain[index].0.raw <= chain[index - 1].0.raw {
            return false;
        }
        index += 1;
    }
    true
}

impl Pairs {
    pub open spec fn empty() -> Pairs {
        Pairs {
            derive_to_item: Seq::empty(),
            instance_chain: Seq::empty(),
            instance_to_item: Seq::empty(),
            instance_members: Seq::empty(),
            declaration_to_term: Seq::empty(),
            declaration_to_type: Seq::empty(),
            declaration_to_instance: Seq::empty(),
            declaration_to_derive: Seq::empty(),
            constructor_to_term: Seq::empty(),
            class_member_to_term: Seq::empty(),
        }
    }

    /// The keys of the eight relations that are looked up are in source order.
    pub open spec fn keys_in_source_order(self) -> bool {
        &&& ascending(keys(self.derive_to_item))
        &&& ascending(keys(self.instance_to_item))
        &&& ascending(keys(self.declaration_to_term))
        &&& ascending(keys(self.declaration_to_type))
        &&& ascending(keys(self.declaration_to_instance))
        &&& ascending(keys(self.declaration_to_derive))
        &&& ascending(keys(self.constructor_to_term))
        &&& ascending(keys(self.class_member_to_term))
    }

    /// Lookups find what was recorded.
    pub open spec fn wf(self) -> bool {
        &&& self.keys_in_source_order()
        &&& strictly_ascending(chain_keys(self.instance_chain))
    }
}

impl View for IndexedPairs {
    type V = Pairs;

    closed spec fn view(&self) -> Pairs {
        Pairs {
            derive_to_item: self.derive_to_item@,
            instance_chain: self.instance_chain@,
            instance_to_item: self.instance_to_item@,
            instance_members: self.instance_members@,
            declaration_to_term: self.declaration_to_term@,
            declaration_to_type: self.declaration_to_type@,
            declaration_to_instance: self.declaration_to_instance@,
            declaration_to_derive: self.declaration_to_derive@,
            constructor_to_term: self.constructor_to_term@,
            class_member_to_term: self.class_member_to_term@,
        }
    }
}

impl IndexedPairs {
    pub fn new() -> (pairs: IndexedPairs)
        ensures
            pairs@ == Pairs::empty(),
    {
        IndexedPairs {
            derive_to_item: Vec::new(),
            instance_chain: Vec::new(),
            instance_to_item: Vec::new(),
            instance_members: Vec::new(),
            declaration_to_term: Vec::new(),
            declaration_to_type: Vec::new(),
            declaration_to_instance: Vec::new(),
            declaration_to_derive: Vec::new(),
            constructor_to_term: Vec::new(),
            class_member_to_term: Vec::new(),
        }
    }

    pub(crate) fn push_declaration_to_term(&mut self, key: DeclarationId, value: TermItemId)
        ensures
            final(self)@ == (Pairs {
                declaration_to_term: old(self)@.declaration_to_term.push((key, value)),
                ..old(self)@
            }),
    {
        self.declaration_to_term.push((key, value));
    }

    pub(crate) fn push_declaration_to_type(&mut self, key: DeclarationId, value: TypeItemId)
        ensures
            final(self)@ == (Pairs {
                declaration_to_type: old(self)@.declaration_to_type.push((key, value)),
                ..old(self)@
            }),
    {
        self.declaration_to_type.push((key, value));
    }

    pub(crate) fn push_declaration_to_instance(&mut self, key: DeclarationId, value: InstanceItemId)
        ensures
            final(self)@ == (Pairs {
                declaration_to_instance: old(self)@.declaration_to_instance.push((key, value)),
                ..old(self)@
            }),
    {
        self.declaration_to_instance.push((key, value));
    }

    pub(crate) fn push_declaration_to_derive(&mut self, key: DeclarationId, value: DeriveItemId)
        ensures
            final(self)@ == (Pairs {
                declaration_to_derive: old(self)@.declaration_to_derive.push((key, value)),
                ..old(self)@
            }),
    {
        self.declaration_to_derive.push((key, value));
    }

    pub(crate) fn push_derive_to_item(&mut self, key: DeriveId, value: DeriveItemId)
        ensures
            final(self)@ == (Pairs {
                derive_to_item: old(self)@.derive_to_item.push((key, value)),
                ..old(self)@
            }),
    {
        self.derive_to_item.push((key, value));
    }

    pub(crate) fn push_instance_to_item(&mut self, key: InstanceId, value: InstanceItemId)
        ensures
            final(self)@ == (Pairs {
                instance_to_item: old(self)@.instance_to_item.push((key, value)),
                ..old(self)@
            }),
    {
        self.instance_to_item.push((key, value));
    }

    pub(crate) fn push_instance_members(&mut self, key: InstanceId, value: InstanceMemberId)
        ensures
            final(self)@ == (Pairs {
                instance_members: old(self)@.instance_members.push((key, value)),
                ..old(self)@
            }),
    {
        self.instance_members.push((key, value));
    }

    pub(crate) fn push_constructor_to_term(&mut self, key: DataConstructorId, value: TermItemId)
        ensures
            final(self)@ == (Pairs {
                constructor_to_term: old(self)@.constructor_to_term.push((key, value)),
                ..old(self)@
            }),
    {
        self.constructor_to_term.push((key, value));
    }

    pub(crate) fn push_class_member_to_term(&mut self, key: ClassMemberId, value: TermItemId)
        ensures
            final(self)@ == (Pairs {
                class_member_to_term: old(self)@.class_member_to_term.push((key, value)),
                ..old(self)@
            }),
    {
        self.class_member_to_term.push((key, value));
    }

    pub(crate) fn push_instance_chain(
        &mut self,
        id: InstanceId,
        chain: InstanceChainId,
        position: u32,
    )
        ensures
            final(self)@ == (Pairs {
                instance_chain: old(self)@.instance_chain.push((id, chain, position)),
                ..old(self)@
            }),
    {
        self.instance_chain.push((id, chain, position));
    }

    /// The nodes that a term was read from.
    pub fn term_nodes(&self, id: TermItemId) -> (nodes: Vec<AstId>)
        ensures
            nodes@ == nodes_of(self@.declaration_to_term, id) + nodes_of(
                self@.constructor_to_term,
                id,
            ) + nodes_of(self@.class_member_to_term, id),
    {
        let mut nodes: Vec<AstId> = Vec::new();
        collect_nodes(&self.declaration_to_term, id, &mut nodes);
        collect_nodes(&self.constructor_to_term, id, &mut nodes);
        collect_nodes(&self.class_member_to_term, id, &mut nodes);
        assert(nodes@ =~= nodes_of(self@.declaration_to_term, id) + nodes_of(
            self@.constructor_to_term,
            id,
        ) + nodes_of(self@.class_member_to_term, id));
        nodes
    }

    /// The nodes that a type was read from.
    pub fn type_nodes(&self, id: TypeItemId) -> (nodes: Vec<AstId>)
        ensures
            nodes@ == nodes_of(self@.declaration_to_type, id),
    {
        let mut nodes: Vec<AstId> = Vec::new();
        collect_nodes(&self.declaration_to_type, id, &mut nodes);
        assert(nodes@ =~= nodes_of(self@.declaration_to_type, id));
        nodes
    }

    pub fn derive_to_item(&self, id: DeriveId) -> (item: Option<DeriveItemId>)
        requires
            ascending(keys(self@.derive_to_item)),
        ensures
            item == first_value(self@.derive_to_item, id),
    {
        lookup_pair(&self.derive_to_item, id)
    }

    pub fn instance_to_item(&self, id: InstanceId) -> (item: Option<InstanceItemId>)
        requires
            ascending(keys(self@.instance_to_item)),
        ensures
            item == first_value(self@.instance_to_item, id),
    {
        lookup_pair(&self.instance_to_item, id)
    }

    pub fn declaration_to_term(&self, id: DeclarationId) -> (item: Option<TermItemId>)
        requires
            ascending(keys(self@.declaration_to_term)),
        ensures
            item == first_value(self@.declaration_to_term, id),
    {
        lookup_pair(&self.declaration_to_term, id)
    }

    pub fn declaration_to_type(&self, id: DeclarationId) -> (item: Option<TypeItemId>)
        requires
            ascending(keys(self@.declaration_to_type)),
        ensures
            item == first_value(self@.declaration_to_type, id),
    {
        lookup_pair(&self.declaration_to_type, id)
    }

    pub fn declaration_to_instance(&self, id: DeclarationId) -> (item: Option<InstanceItemId>)
        requires
            ascending(keys(self@.declaration_to_instance)),
        ensures
            item == first_value(self@.declaration_to_instance, id),
    {
        lookup_pair(&self.declaration_to_instance, id)
    }

    pub fn declaration_to_derive(&self, id: DeclarationId) -> (item: Option<DeriveItemId>)
        requires
            ascending(keys(self@.declaration_to_derive)),
        ensures
            item == first_value(self@.declaration_to_derive, id),
    {
        lookup_pair(&self.declaration_to_derive, id)
    }

    pub fn constructor_to_term(&self, id: DataConstructorId) -> (item: Option<TermItemId>)
        requires
            ascending(keys(self@.constructor_to_term)),
        ensures
            item == first_value(self@.constructor_to_term, id),
    {
        lookup_pair(&self.constructor_to_term, id)
    }

    pub fn class_member_to_term(&self, id: ClassMemberId) -> (item: Option<TermItemId>)
        requires
            ascending(keys(self@.class_member_to_term)),
        ensures
            item == first_value(self@.class_member_to_term, id),
    {
        lookup_pair(&self.class_member_to_term, id)
    }

    pub fn has_keys_in_source_order(&self) -> (sorted: bool)
        ensures
            sorted == self@.keys_in_source_order(),
    {
        is_sorted_by_key(&self.derive_to_item) && is_sorted_by_key(&self.instance_to_item)
            && is_sorted_by_key(&self.declaration_to_term) && is_sorted_by_key(
            &self.declaration_to_type,
        ) && is_sorted_by_key(&self.declaration_to_instance) && is_sorted_by_key(
            &self.declaration_to_derive,
        ) && is_sorted_by_key(&self.constructor_to_term) && is_sorted_by_key(
            &self.class_member_to_term,
        )
    }

    /// Whether every lookup finds what was recorded.
    pub fn is_well_formed(&self) -> (well_formed: bool)
        ensures
            well_formed == self@.wf(),
    {
        self.has_keys_in_source_order() && is_sorted_by_instance(&self.instance_chain)
    }

    /// The chain that an instance belongs to.
    pub fn instance_chain_id(&self, id: InstanceId) -> (chain: Option<InstanceChainId>)
        requires
            strictly_ascending(chain_keys(self@.instance_chain)),
        ensures
            chain == (match chain_metadata(self@.instance_chain, id) {
                Some((chain, _)) => Some(chain),
                None => None,
            }),
    {
        match self.instance_chain_metadata(id) {
            Some((chain, _)) => Some(chain),
            None => None,
        }
    }

    /// The position that an instance has in its chain.
    pub fn instance_chain_position(&self, id: InstanceId) -> (position: Option<u32>)
        requires
            strictly_ascending(chain_keys(self@.instance_chain)),
        ensures
            position == (match chain_metadata(self@.instance_chain, id) {
                Some((_, position)) => Some(position),
                None => None,
            }),
    {
        match self.instance_chain_metadata(id) {
            Some((_, position)) => Some(position),
            None => None,
        }
    }

    /// The chain that an instance belongs to and its position there.
    pub fn instance_chain_metadata(&self, id: InstanceId) -> (metadata: Option<
        (InstanceChainId, u32),
    >)
        requires
            strictly_ascending(chain_keys(self@.instance_chain)),
        ensures
            metadata == chain_metadata(self@.instance_chain, id),
    {
        let ghost chain = self.instance_chain@;
        let mut low: usize = 0;
        let mut high: usize = self.instance_chain.len();
        while low < high
            invariant
                low <= high <= self.instance_chain.len(),
                chain == self.instance_chain@,
                chain == self@.instance_chain,
                strictly_ascending(chain_keys(chain)),
                forall|i: int| 0 <= i < low ==> (#[trigger] chain[i]).0.raw < id.raw,
                forall|i: int| high <= i < chain.len() ==> (#[trigger] chain[i]).0.raw > id.raw,
            decreases high - low,
        {
            let middle: usize = low + (high - low) / 2;
            let (key, chain_id, position) = self.instance_chain[middle];
            assert(forall|i: int|
                0 <= i < chain.len() ==> (#[trigger] chain[i]).0 == chain_keys(chain)[i]);
            if key.raw == id.raw {
                proof {
                    assert(key == id);
                    lemma_chain_metadata_at(chain, middle as int);
                }
                return Some((chain_id, position));
            }
            if key.raw < id.raw {
                low = middle + 1;
            } else {
                high = middle;
            }
        }
        proof {
            if chain_keys(chain).contains(id) {
                let i = choose|i: int| 0 <= i < chain.len() && chain_keys(chain)[i] == id;
                assert(chain[i].0 == id);
            }
            lemma_chain_metadata_absent(chain, id);
        }
        None
    }
}

} // verus!
