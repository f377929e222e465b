//! What is found in the index of every module: the chains of its instances, and
//! the terms of its constructors and class members.

use super::items::{
    InstanceItem, InstanceItemId, TermItem, TermItemId, TermKind, TypeItemId, TypeSort,
};
use super::laws::{lemma_declarations_sound, lemma_pairs_in_source_order};
use super::model::{Declared, Items, TypePart};
use super::pairs::{
    chain_metadata, first_value, lemma_chain_metadata_at, lemma_first_value_at,
    lemma_first_value_skip, Pairs,
};
use super::source::{
    declarations_size, gather, in_source_order, name_text, AstId, ClassMemberId,
    DataConstructorId, Declaration, DeclarationId, DeclarationKind, InstanceChainId, InstanceId,
    InstanceSyntax, NamedSyntax,
};
use vstd::prelude::*;

verus! {

// Chains

/// What is recorded of the instances of a chain.
pub open spec fn chain_entries(declaration: Declaration) -> Seq<(InstanceId, InstanceChainId, u32)> {
    match declaration.kind {
        DeclarationKind::InstanceChain { id, instances } => Seq::new(
            instances@.len(),
            |k: int| (instances@[k].id, id, k as u32),
        ),
        _ => Seq::empty(),
    }
}

proof fn lemma_children_chains(
    s: Declared,
    type_id: TypeItemId,
    sort: TypeSort,
    children: Seq<NamedSyntax>,
)
    ensures
        s.children(type_id, sort, children).pairs.instance_chain == s.pairs.instance_chain,
    decreases children.len(),
{
    if children.len() > 0 {
        lemma_children_chains(s, type_id, sort, children.drop_last());
    }
}

proof fn lemma_chain_entries(
    s: Declared,
    declaration: DeclarationId,
    chain: InstanceChainId,
    instances: Seq<InstanceSyntax>,
)
    ensures
        s.instance_chain(declaration, chain, instances).pairs.instance_chain
            == s.pairs.instance_chain + Seq::new(
            instances.len(),
            |k: int| (instances[k].id, chain, k as u32),
        ),
    decreases instances.len(),
{
    let after = s.instance_chain(declaration, chain, instances).pairs.instance_chain;
    if instances.len() > 0 {
        lemma_chain_entries(s, declaration, chain, instances.drop_last());
    }
    assert(after =~= s.pairs.instance_chain + Seq::new(
        instances.len(),
        |k: int| (instances[k].id, chain, k as u32),
    ));
}

proof fn lemma_declaration_chains(s: Declared, declaration: Declaration)
    ensures
        s.declaration(declaration).pairs.instance_chain == s.pairs.instance_chain + chain_entries(
            declaration,
        ),
{
    match declaration.kind {
        DeclarationKind::InstanceChain { id: chain, instances } => {
            lemma_chain_entries(s, declaration.id, chain, instances@);
        },
        DeclarationKind::ClassDeclaration { id: part, name, members } => {
            let opened = s.type_part(TypePart::Equation, TypeSort::Class, part, name_text(name));
            lemma_children_chains(
                opened,
                s.joined_type(name_text(name)),
                TypeSort::Class,
                members@,
            );
        },
        DeclarationKind::NewtypeEquation { id: part, name, constructors } => {
            let opened = s.type_part(TypePart::Equation, TypeSort::Newtype, part, name_text(name));
            lemma_children_chains(
                opened,
                s.joined_type(name_text(name)),
                TypeSort::Newtype,
                constructors@,
            );
        },
        DeclarationKind::DataEquation { id: part, name, constructors } => {
            let opened = s.type_part(TypePart::Equation, TypeSort::Data, part, name_text(name));
            lemma_children_chains(
                opened,
                s.joined_type(name_text(name)),
                TypeSort::Data,
                constructors@,
            );
        },
        _ => {},
    }
    assert(s.declaration(declaration).pairs.instance_chain =~= s.pairs.instance_chain
        + chain_entries(declaration));
}

/// Where an instance of a chain is recorded.
proof fn lemma_chain_recorded(declarations: Seq<Declaration>, d: int, k: int) -> (index: int)
    requires
        0 <= d < declarations.len(),
        0 <= k < declarations[d].chained_instances().len(),
    ensures
        ({
            let chain = Declared::empty().declarations(declarations).pairs.instance_chain;
            &&& 0 <= index < chain.len()
            &&& chain[index] == (
                declarations[d].chained_instances()[k].id,
                declarations[d].chain_ids()[0],
                k as u32,
            )
        }),
    decreases declarations.len(),
{
    let before = Declared::empty().declarations(declarations.drop_last());
    lemma_declaration_chains(before, declarations.last());
    if d == declarations.len() - 1 {
        before.pairs.instance_chain.len() + k
    } else {
        lemma_chain_recorded(declarations.drop_last(), d, k)
    }
}

proof fn lemma_chain_length(declarations: Seq<Declaration>, d: int)
    requires
        0 <= d < declarations.len(),
    ensures
        declarations[d].chained_instances().len() <= declarations_size(declarations),
    decreases declarations.len(),
{
    if d < declarations.len() - 1 {
        lemma_chain_length(declarations.drop_last(), d);
    }
}

/// Every instance is found with the chain that it was written in, and with its
/// position there.
pub open spec fn chains_found(declarations: Seq<Declaration>, pairs: Pairs) -> bool {
    forall|d: int, k: int|
        0 <= d < declarations.len() && 0 <= k < declarations[d].chained_instances().len() ==> {
            &&& k <= u32::MAX
            &&& chain_metadata(
                pairs.instance_chain,
                (#[trigger] declarations[d].chained_instances()[k]).id,
            ) == Some((declarations[d].chain_ids()[0], k as u32))
        }
}

/// Where the identities of a module's syntax are numbered in the order of the
/// source, the instances of a chain have the positions 0, 1, 2 and so on, in the
/// order in which they are written, and all of them the identity of that chain.
pub proof fn lemma_chains_found(declarations: Seq<Declaration>)
    requires
        declarations_size(declarations) <= u32::MAX,
        in_source_order(declarations),
    ensures
        chains_found(declarations, Declared::empty().declarations(declarations).pairs),
{
    let pairs = Declared::empty().declarations(declarations).pairs;
    lemma_pairs_in_source_order(declarations);
    assert forall|d: int, k: int|
        0 <= d < declarations.len() && 0 <= k
            < declarations[d].chained_instances().len() implies k <= u32::MAX && chain_metadata(
        pairs.instance_chain,
        (#[trigger] declarations[d].chained_instances()[k]).id,
    ) == Some((declarations[d].chain_ids()[0], k as u32)) by {
        lemma_chain_length(declarations, d);
        let index = lemma_chain_recorded(declarations, d, k);
        lemma_chain_metadata_at(pairs.instance_chain, index);
    }
}

proof fn lemma_gathered(
    declarations: Seq<Declaration>,
    ids: spec_fn(Declaration) -> Seq<AstId>,
    d: int,
) -> (index: int)
    requires
        0 <= d < declarations.len(),
        ids(declarations[d]).len() > 0,
    ensures
        0 <= index < gather(declarations, ids).len(),
        gather(declarations, ids)[index] == ids(declarations[d])[0],
        index >= gather(declarations.take(d), ids).len(),
        index < gather(declarations.take(d + 1), ids).len(),
    decreases declarations.len(),
{
    if d == declarations.len() - 1 {
        assert(declarations.take(d) =~= declarations.drop_last());
        assert(declarations.take(d + 1) =~= declarations);
        gather(declarations.drop_last(), ids).len() as int
    } else {
        assert(declarations.drop_last().take(d) =~= declarations.take(d));
        assert(declarations.drop_last().take(d + 1) =~= declarations.take(d + 1));
        lemma_gathered(declarations.drop_last(), ids, d)
    }
}

proof fn lemma_gather_grows(
    declarations: Seq<Declaration>,
    ids: spec_fn(Declaration) -> Seq<AstId>,
    short: int,
)
    requires
        0 <= short <= declarations.len(),
    ensures
        gather(declarations.take(short), ids).len() <= gather(declarations, ids).len(),
    decreases declarations.len(),
{
    if short == declarations.len() {
        assert(declarations.take(short) =~= declarations);
    } else {
        assert(declarations.drop_last().take(short) =~= declarations.take(short));
        lemma_gather_grows(declarations.drop_last(), ids, short);
    }
}

/// Two instances are found with the same chain.
pub open spec fn in_one_chain(pairs: Pairs, left: InstanceId, right: InstanceId) -> bool {
    chain_metadata(pairs.instance_chain, left) matches Some((first, _)) && chain_metadata(
        pairs.instance_chain,
        right,
    ) matches Some((second, _)) && first == second
}

/// Instances are found with the same chain exactly where one declaration holds
/// them both.
pub open spec fn chains_apart(declarations: Seq<Declaration>, pairs: Pairs) -> bool {
    forall|d: int, j: int, e: int, k: int|
        #![trigger declarations[d].chained_instances()[j], declarations[e].chained_instances()[k]]
        0 <= d < declarations.len() && 0 <= j < declarations[d].chained_instances().len() && 0 <= e
            < declarations.len() && 0 <= k < declarations[e].chained_instances().len() ==> (
        in_one_chain(
            pairs,
            declarations[d].chained_instances()[j].id,
            declarations[e].chained_instances()[k].id,
        ) <==> d == e)
}

/// Where the identities of a module's syntax are numbered in the order of the
/// source, instances of different chains have different chains, and those of one
/// chain have the same.
pub proof fn lemma_chains_apart(declarations: Seq<Declaration>)
    requires
        declarations_size(declarations) <= u32::MAX,
        in_source_order(declarations),
    ensures
        chains_apart(declarations, Declared::empty().declarations(declarations).pairs),
{
    let pairs = Declared::empty().declarations(declarations).pairs;
    lemma_chains_found(declarations);
    assert forall|d: int, j: int, e: int, k: int|
        #![trigger declarations[d].chained_instances()[j], declarations[e].chained_instances()[k]]
        0 <= d < declarations.len() && 0 <= j < declarations[d].chained_instances().len() && 0 <= e
            < declarations.len() && 0 <= k
            < declarations[e].chained_instances().len() implies (in_one_chain(
        pairs,
        declarations[d].chained_instances()[j].id,
        declarations[e].chained_instances()[k].id,
    ) <==> d == e) by {
        lemma_chain_ids_differ(declarations, d, e);
    }
}

/// Different chains have different identities.
proof fn lemma_chain_ids_differ(declarations: Seq<Declaration>, d: int, e: int)
    requires
        in_source_order(declarations),
        0 <= d < declarations.len(),
        0 <= e < declarations.len(),
        declarations[d].chain_ids().len() > 0,
        declarations[e].chain_ids().len() > 0,
    ensures
        declarations[d].chain_ids()[0] == declarations[e].chain_ids()[0] <==> d == e,
{
    let ids = |d: Declaration| d.chain_ids();
    let left = lemma_gathered(declarations, ids, d);
    let right = lemma_gathered(declarations, ids, e);
    if d < e {
        assert(declarations.take(e).take(d + 1) =~= declarations.take(d + 1));
        lemma_gather_grows(declarations.take(e), ids, d + 1);
        assert(left < right);
    } else if e < d {
        assert(declarations.take(d).take(e + 1) =~= declarations.take(e + 1));
        lemma_gather_grows(declarations.take(d), ids, e + 1);
        assert(right < left);
    }
}

// Declarations of instances

/// What is recorded of the declaration of a chain whose first instance has the
/// number.
spec fn declaration_entries(declaration: Declaration, first: nat) -> Seq<
    (DeclarationId, InstanceItemId),
> {
    Seq::new(
        declaration.chained_instances().len(),
        |k: int| (declaration.id, InstanceItemId { raw: (first + k) as u32 }),
    )
}

/// The items of the instances of a chain.
spec fn instance_items(declaration: Declaration) -> Seq<InstanceItem> {
    declaration.chained_instances().map_values(
        |instance: InstanceSyntax|
            InstanceItem { name: name_text(instance.name), id: instance.id },
    )
}

/// Neither instances nor what is recorded of their declarations have changed.
spec fn same_declared(before: Declared, after: Declared) -> bool {
    &&& after.items.instances == before.items.instances
    &&& after.pairs.declaration_to_instance == before.pairs.declaration_to_instance
}

proof fn lemma_children_declared(
    s: Declared,
    type_id: TypeItemId,
    sort: TypeSort,
    children: Seq<NamedSyntax>,
)
    ensures
        same_declared(s, s.children(type_id, sort, children)),
    decreases children.len(),
{
    if children.len() > 0 {
        lemma_children_declared(s, type_id, sort, children.drop_last());
    }
}

proof fn lemma_chain_declared(
    s: Declared,
    declaration: DeclarationId,
    chain: InstanceChainId,
    instances: Seq<InstanceSyntax>,
)
    ensures
        ({
            let after = s.instance_chain(declaration, chain, instances);
            &&& after.items.instances == s.items.instances + instances.map_values(
                |instance: InstanceSyntax|
                    InstanceItem { name: name_text(instance.name), id: instance.id },
            )
            &&& after.pairs.declaration_to_instance == s.pairs.declaration_to_instance + Seq::new(
                instances.len(),
                |k: int|
                    (declaration, InstanceItemId { raw: (s.items.instances.len() + k) as u32 }),
            )
        }),
    decreases instances.len(),
{
    let after = s.instance_chain(declaration, chain, instances);
    if instances.len() > 0 {
        lemma_chain_declared(s, declaration, chain, instances.drop_last());
    }
    assert(after.items.instances =~= s.items.instances + instances.map_values(
        |instance: InstanceSyntax|
            InstanceItem { name: name_text(instance.name), id: instance.id },
    ));
    assert(after.pairs.declaration_to_instance =~= s.pairs.declaration_to_instance + Seq::new(
        instances.len(),
        |k: int| (declaration, InstanceItemId { raw: (s.items.instances.len() + k) as u32 }),
    ));
}

proof fn lemma_declaration_declared(s: Declared, declaration: Declaration)
    ensures
        ({
            let after = s.declaration(declaration);
            &&& after.items.instances == s.items.instances + instance_items(declaration)
            &&& after.pairs.declaration_to_instance == s.pairs.declaration_to_instance
                + declaration_entries(declaration, s.items.instances.len())
        }),
{
    let after = s.declaration(declaration);
    match declaration.kind {
        DeclarationKind::InstanceChain { id: chain, instances } => {
            lemma_chain_declared(s, declaration.id, chain, instances@);
        },
        DeclarationKind::ClassDeclaration { id: part, name, members } => {
            let opened = s.type_part(TypePart::Equation, TypeSort::Class, part, name_text(name));
            lemma_children_declared(
                opened,
                s.joined_type(name_text(name)),
                TypeSort::Class,
                members@,
            );
        },
        DeclarationKind::NewtypeEquation { id: part, name, constructors } => {
            let opened = s.type_part(TypePart::Equation, TypeSort::Newtype, part, name_text(name));
            lemma_children_declared(
                opened,
                s.joined_type(name_text(name)),
                TypeSort::Newtype,
                constructors@,
            );
        },
        DeclarationKind::DataEquation { id: part, name, constructors } => {
            let opened = s.type_part(TypePart::Equation, TypeSort::Data, part, name_text(name));
            lemma_children_declared(
                opened,
                s.joined_type(name_text(name)),
                TypeSort::Data,
                constructors@,
            );
        },
        _ => {},
    }
    assert(after.items.instances =~= s.items.instances + instance_items(declaration));
    assert(after.pairs.declaration_to_instance =~= s.pairs.declaration_to_instance
        + declaration_entries(declaration, s.items.instances.len()));
}

/// What is recorded of declarations comes from chains that are not empty.
proof fn lemma_declared_by(declarations: Seq<Declaration>, i: int) -> (d: int)
    requires
        0 <= i < Declared::empty().declarations(declarations).pairs.declaration_to_instance.len(),
    ensures
        0 <= d < declarations.len(),
        declarations[d].chained_instances().len() > 0,
        Declared::empty().declarations(declarations).pairs.declaration_to_instance[i].0
            == declarations[d].id,
    decreases declarations.len(),
{
    let before = Declared::empty().declarations(declarations.drop_last());
    lemma_declaration_declared(before, declarations.last());
    if i < before.pairs.declaration_to_instance.len() {
        lemma_declared_by(declarations.drop_last(), i)
    } else {
        declarations.len() - 1
    }
}

/// Where the first instance of a chain is recorded.
proof fn lemma_first_declared(declarations: Seq<Declaration>, d: int) -> (index: int)
    requires
        declarations_size(declarations) <= u32::MAX,
        0 <= d < declarations.len(),
        declarations[d].chained_instances().len() > 0,
    ensures
        ({
            let after = Declared::empty().declarations(declarations);
            let before = Declared::empty().declarations(declarations.take(d));
            let (id, item) = after.pairs.declaration_to_instance[index];
            &&& 0 <= index < after.pairs.declaration_to_instance.len()
            &&& id == declarations[d].id
            &&& item.raw < after.items.instances.len()
            &&& after.items.instances[item.raw as int].id
                == declarations[d].chained_instances()[0].id
            &&& index == before.pairs.declaration_to_instance.len()
            &&& after.pairs.declaration_to_instance.take(index)
                == before.pairs.declaration_to_instance
        }),
    decreases declarations.len(),
{
    let rest = declarations.drop_last();
    let before = Declared::empty().declarations(rest);
    let after = Declared::empty().declarations(declarations);
    lemma_declaration_declared(before, declarations.last());
    lemma_declarations_sound(rest);
    if d == declarations.len() - 1 {
        assert(declarations.take(d) =~= rest);
        assert(after.pairs.declaration_to_instance.take(
            before.pairs.declaration_to_instance.len() as int,
        ) =~= before.pairs.declaration_to_instance);
        before.pairs.declaration_to_instance.len() as int
    } else {
        let index = lemma_first_declared(rest, d);
        assert(rest.take(d) =~= declarations.take(d));
        assert(after.pairs.declaration_to_instance.take(index)
            =~= before.pairs.declaration_to_instance.take(index));
        index
    }
}

/// The declaration of a chain is found with the first instance of the chain, and
/// other declarations with none.
pub open spec fn first_instances_found(
    declarations: Seq<Declaration>,
    items: Items,
    pairs: Pairs,
) -> bool {
    forall|d: int|
        0 <= d < declarations.len() ==> match first_value(
            pairs.declaration_to_instance,
            (#[trigger] declarations[d]).id,
        ) {
            Some(item) => {
                &&& declarations[d].chained_instances().len() > 0
                &&& item.raw < items.instances.len()
                &&& items.instances[item.raw as int].id
                    == declarations[d].chained_instances()[0].id
            },
            None => declarations[d].chained_instances().len() == 0,
        }
}

/// Where the identities of a module's syntax are numbered in the order of the
/// source, the declaration of a chain is found with the first instance of the chain.
pub proof fn lemma_first_instances_found(declarations: Seq<Declaration>)
    requires
        declarations_size(declarations) <= u32::MAX,
        in_source_order(declarations),
    ensures
        first_instances_found(
            declarations,
            Declared::empty().declarations(declarations).items,
            Declared::empty().declarations(declarations).pairs,
        ),
{
    let after = Declared::empty().declarations(declarations);
    let list = after.pairs.declaration_to_instance;
    let ids = declarations.map_values(|declaration: Declaration| declaration.id);
    assert forall|d: int| 0 <= d < declarations.len() implies match first_value(
        list,
        (#[trigger] declarations[d]).id,
    ) {
        Some(item) => {
            &&& declarations[d].chained_instances().len() > 0
            &&& item.raw < after.items.instances.len()
            &&& after.items.instances[item.raw as int].id
                == declarations[d].chained_instances()[0].id
        },
        None => declarations[d].chained_instances().len() == 0,
    } by {
        if declarations[d].chained_instances().len() > 0 {
            let index = lemma_first_declared(declarations, d);
            let shorter = declarations.take(d);
            assert forall|i: int| 0 <= i < index implies (#[trigger] list[i]).0
                != declarations[d].id by {
                let e = lemma_declared_by(shorter, i);
                assert(list.take(index)[i] == list[i]);
                assert(ids[e].raw < ids[d].raw);
            }
            lemma_first_value_skip(list, declarations[d].id, index);
            assert(list.skip(index)[0] == list[index]);
        } else if first_value(list, declarations[d].id) is Some {
            let i = lemma_first_value_recorded(list, declarations[d].id);
            let e = lemma_declared_by(declarations, i);
            if e < d {
                assert(ids[e].raw < ids[d].raw);
            } else if d < e {
                assert(ids[d].raw < ids[e].raw);
            }
        }
    }
}

// Constructors and members

impl Items {
    /// The term is the data constructor of this identity.
    pub open spec fn is_constructor(self, term: TermItemId, id: DataConstructorId) -> bool {
        &&& term.raw < self.terms.len()
        &&& self.terms[term.raw as int].kind matches TermKind::Constructor { id: actual, .. }
            && actual == id
    }

    /// The term is the class member of this identity.
    pub open spec fn is_class_member(self, term: TermItemId, id: ClassMemberId) -> bool {
        &&& term.raw < self.terms.len()
        &&& self.terms[term.raw as int].kind matches TermKind::ClassMember { id: actual, .. }
            && actual == id
    }
}

/// The pairs hold the constructors and the class members, and nothing else.
spec fn terms_paired(items: Items, pairs: Pairs) -> bool {
    &&& forall|i: int|
        0 <= i < pairs.constructor_to_term.len() ==> items.is_constructor(
            (#[trigger] pairs.constructor_to_term[i]).1,
            pairs.constructor_to_term[i].0,
        )
    &&& forall|i: int|
        0 <= i < pairs.class_member_to_term.len() ==> items.is_class_member(
            (#[trigger] pairs.class_member_to_term[i]).1,
            pairs.class_member_to_term[i].0,
        )
    &&& forall|term: TermItemId, id: AstId| #[trigger]
        items.is_constructor(term, id) ==> pairs.constructor_to_term.contains((id, term))
    &&& forall|term: TermItemId, id: AstId| #[trigger]
        items.is_class_member(term, id) ==> pairs.class_member_to_term.contains((id, term))
}

/// Only terms that are neither constructors nor class members are new or changed.
spec fn other_terms(before: Seq<TermItem>, after: Seq<TermItem>) -> bool {
    &&& before.len() <= after.len()
    &&& forall|t: int|
        #![trigger after[t]]
        0 <= t < after.len() ==> {
            ||| t < before.len() && after[t].kind == before[t].kind
            ||| is_other(after[t].kind) && (t < before.len() ==> is_other(before[t].kind))
        }
}

spec fn is_other(kind: TermKind) -> bool {
    !(kind is Constructor) && !(kind is ClassMember)
}

proof fn lemma_other_terms(before: Declared, after: Declared)
    requires
        terms_paired(before.items, before.pairs),
        other_terms(before.items.terms, after.items.terms),
        after.pairs.constructor_to_term == before.pairs.constructor_to_term,
        after.pairs.class_member_to_term == before.pairs.class_member_to_term,
    ensures
        terms_paired(after.items, after.pairs),
{
    let (a, b) = (before.items, after.items);
    assert forall|term: TermItemId, id: AstId| #[trigger]
        b.is_constructor(term, id) == a.is_constructor(term, id) by {
        if term.raw < b.terms.len() {
            let changed = b.terms[term.raw as int];
        }
    }
    assert forall|term: TermItemId, id: AstId| #[trigger]
        b.is_class_member(term, id) == a.is_class_member(term, id) by {
        if term.raw < b.terms.len() {
            let changed = b.terms[term.raw as int];
        }
    }
}

proof fn lemma_child_paired(s: Declared, type_id: TypeItemId, sort: TypeSort, child: NamedSyntax)
    requires
        terms_paired(s.items, s.pairs),
        s.items.terms.len() < u32::MAX,
    ensures
        ({
            let after = s.child(type_id, sort, child);
            &&& terms_paired(after.items, after.pairs)
            &&& after.items.terms.len() == s.items.terms.len() + 1
        }),
{
    let after = s.child(type_id, sort, child);
    let (a, b) = (s.items, after.items);
    let last = a.terms.len() as int;
    assert forall|t: int| 0 <= t < last implies #[trigger] b.terms[t] == a.terms[t] by {}
    assert forall|other: TermItemId, id: AstId| #[trigger]
        b.is_constructor(other, id) implies after.pairs.constructor_to_term.contains((id, other)) by {
        if other.raw == last {
            assert(after.pairs.constructor_to_term.last() == (id, other));
        } else {
            assert(a.is_constructor(other, id));
            let i = choose|i: int|
                0 <= i < s.pairs.constructor_to_term.len() && s.pairs.constructor_to_term[i] == (
                    id,
                    other,
                );
            assert(after.pairs.constructor_to_term[i] == (id, other));
        }
    }
    assert forall|other: TermItemId, id: AstId| #[trigger]
        b.is_class_member(other, id) implies after.pairs.class_member_to_term.contains(
        (id, other),
    ) by {
        if other.raw == last {
            assert(after.pairs.class_member_to_term.last() == (id, other));
        } else {
            assert(a.is_class_member(other, id));
            let i = choose|i: int|
                0 <= i < s.pairs.class_member_to_term.len() && s.pairs.class_member_to_term[i] == (
                    id,
                    other,
                );
            assert(after.pairs.class_member_to_term[i] == (id, other));
        }
    }
    assert forall|i: int| 0 <= i < after.pairs.constructor_to_term.len() implies b.is_constructor(
        (#[trigger] after.pairs.constructor_to_term[i]).1,
        after.pairs.constructor_to_term[i].0,
    ) by {
        if i < s.pairs.constructor_to_term.len() {
            let (id, other) = s.pairs.constructor_to_term[i];
            assert(a.is_constructor(other, id));
        }
    }
    assert forall|i: int| 0 <= i < after.pairs.class_member_to_term.len() implies b.is_class_member(
        (#[trigger] after.pairs.class_member_to_term[i]).1,
        after.pairs.class_member_to_term[i].0,
    ) by {
        if i < s.pairs.class_member_to_term.len() {
            let (id, other) = s.pairs.class_member_to_term[i];
            assert(a.is_class_member(other, id));
        }
    }
}

proof fn lemma_children_paired(
    s: Declared,
    type_id: TypeItemId,
    sort: TypeSort,
    children: Seq<NamedSyntax>,
)
    requires
        terms_paired(s.items, s.pairs),
        s.items.terms.len() + children.len() <= u32::MAX,
    ensures
        ({
            let after = s.children(type_id, sort, children);
            &&& terms_paired(after.items, after.pairs)
            &&& after.items.terms.len() == s.items.terms.len() + children.len()
        }),
    decreases children.len(),
{
    if children.len() > 0 {
        lemma_children_paired(s, type_id, sort, children.drop_last());
        lemma_child_paired(
            s.children(type_id, sort, children.drop_last()),
            type_id,
            sort,
            children.last(),
        );
    }
}

proof fn lemma_chain_terms(
    s: Declared,
    declaration: DeclarationId,
    chain: InstanceChainId,
    instances: Seq<InstanceSyntax>,
)
    ensures
        ({
            let after = s.instance_chain(declaration, chain, instances);
            &&& after.items.terms == s.items.terms
            &&& after.pairs.constructor_to_term == s.pairs.constructor_to_term
            &&& after.pairs.class_member_to_term == s.pairs.class_member_to_term
        }),
    decreases instances.len(),
{
    if instances.len() > 0 {
        lemma_chain_terms(s, declaration, chain, instances.drop_last());
    }
}

proof fn lemma_type_paired(
    s: Declared,
    sort: TypeSort,
    id: AstId,
    name: Option<Seq<char>>,
    children: Seq<NamedSyntax>,
)
    requires
        terms_paired(s.items, s.pairs),
        s.items.terms.len() + children.len() <= u32::MAX,
    ensures
        ({
            let after = s.type_part(TypePart::Equation, sort, id, name).children(
                s.joined_type(name),
                sort,
                children,
            );
            terms_paired(after.items, after.pairs)
        }),
{
    let opened = s.type_part(TypePart::Equation, sort, id, name);
    lemma_other_terms(s, opened);
    lemma_children_paired(opened, s.joined_type(name), sort, children);
}

proof fn lemma_declaration_paired(s: Declared, declaration: Declaration)
    requires
        s.wf(),
        s.items.room(declaration.size()),
        terms_paired(s.items, s.pairs),
    ensures
        terms_paired(s.declaration(declaration).items, s.declaration(declaration).pairs),
{
    match declaration.kind {
        DeclarationKind::InstanceChain { id: chain, instances } => {
            lemma_chain_terms(s, declaration.id, chain, instances@);
            lemma_other_terms(s, s.declaration(declaration));
        },
        DeclarationKind::ClassDeclaration { id: part, name, members } => {
            lemma_type_paired(s, TypeSort::Class, part, name_text(name), members@);
        },
        DeclarationKind::NewtypeEquation { id: part, name, constructors } => {
            lemma_type_paired(s, TypeSort::Newtype, part, name_text(name), constructors@);
        },
        DeclarationKind::DataEquation { id: part, name, constructors } => {
            lemma_type_paired(s, TypeSort::Data, part, name_text(name), constructors@);
        },
        _ => {
            lemma_other_terms(s, s.declaration(declaration));
        },
    }
}

proof fn lemma_declarations_paired(declarations: Seq<Declaration>)
    requires
        declarations_size(declarations) <= u32::MAX,
    ensures
        terms_paired(
            Declared::empty().declarations(declarations).items,
            Declared::empty().declarations(declarations).pairs,
        ),
    decreases declarations.len(),
{
    if declarations.len() > 0 {
        lemma_declarations_sound(declarations.drop_last());
        lemma_declarations_paired(declarations.drop_last());
        lemma_declaration_paired(
            Declared::empty().declarations(declarations.drop_last()),
            declarations.last(),
        );
    }
}

/// A constructor is found by its identity, and so is a class member.
pub open spec fn terms_found(items: Items, pairs: Pairs) -> bool {
    &&& forall|id: DataConstructorId, term: TermItemId|
        (first_value(pairs.constructor_to_term, id) == Some(term)) <==> #[trigger]
        items.is_constructor(term, id)
    &&& forall|id: ClassMemberId, term: TermItemId|
        (first_value(pairs.class_member_to_term, id) == Some(term)) <==> #[trigger]
        items.is_class_member(term, id)
}

/// Where the identities of a module's syntax are numbered in the order of the
/// source, the term that is found for a constructor is the one that stands for
/// it, and likewise for a class member; for any other identity none is found.
pub proof fn lemma_terms_found(declarations: Seq<Declaration>)
    requires
        declarations_size(declarations) <= u32::MAX,
        in_source_order(declarations),
    ensures
        terms_found(
            Declared::empty().declarations(declarations).items,
            Declared::empty().declarations(declarations).pairs,
        ),
{
    let after = Declared::empty().declarations(declarations);
    let (items, pairs) = (after.items, after.pairs);
    lemma_declarations_paired(declarations);
    lemma_pairs_in_source_order(declarations);
    assert forall|id: DataConstructorId, term: TermItemId|
        (first_value(pairs.constructor_to_term, id) == Some(term)) <==> #[trigger]
        items.is_constructor(term, id) by {
        if items.is_constructor(term, id) {
            let i = choose|i: int|
                0 <= i < pairs.constructor_to_term.len() && pairs.constructor_to_term[i] == (
                    id,
                    term,
                );
            lemma_first_value_at(pairs.constructor_to_term, i);
        }
        if first_value(pairs.constructor_to_term, id) == Some(term) {
            let i = lemma_first_value_recorded(pairs.constructor_to_term, id);
            assert(pairs.constructor_to_term[i] == (id, term));
        }
    }
    assert forall|id: ClassMemberId, term: TermItemId|
        (first_value(pairs.class_member_to_term, id) == Some(term)) <==> #[trigger]
        items.is_class_member(term, id) by {
        if items.is_class_member(term, id) {
            let i = choose|i: int|
                0 <= i < pairs.class_member_to_term.len() && pairs.class_member_to_term[i] == (
                    id,
                    term,
                );
            lemma_first_value_at(pairs.class_member_to_term, i);
        }
        if first_value(pairs.class_member_to_term, id) == Some(term) {
            let i = lemma_first_value_recorded(pairs.class_member_to_term, id);
            assert(pairs.class_member_to_term[i] == (id, term));
        }
    }
}

/// What is found has been recorded.
proof fn lemma_first_value_recorded<V>(pairs: Seq<(AstId, V)>, id: AstId) -> (index: int)
    requires
        first_value(pairs, id) is Some,
    ensures
        0 <= index < pairs.len(),
        first_value(pairs, id) == Some(pairs[index].1),
        pairs[index].0 == id,
    decreases pairs.len(),
{
    if pairs[0].0 == id {
        0
    } else {
        lemma_first_value_recorded(pairs.skip(1), id) + 1
    }
}

/// Marking what is exported changes nothing in what is found.
pub(crate) proof fn lemma_same_terms_found(before: Items, after: Items, pairs: Pairs)
    requires
        terms_found(before, pairs),
        after.terms.len() == before.terms.len(),
        forall|t: int|
            0 <= t < after.terms.len() ==> (#[trigger] after.terms[t]).kind
                == before.terms[t].kind,
    ensures
        terms_found(after, pairs),
{
    assert forall|id: DataConstructorId, term: TermItemId|
        (first_value(pairs.constructor_to_term, id) == Some(term)) <==> #[trigger]
        after.is_constructor(term, id) by {
        assert(after.is_constructor(term, id) == before.is_constructor(term, id)) by {
            if term.raw < after.terms.len() {
                assert(after.terms[term.raw as int].kind == before.terms[term.raw as int].kind);
            }
        }
    }
    assert forall|id: ClassMemberId, term: TermItemId|
        (first_value(pairs.class_member_to_term, id) == Some(term)) <==> #[trigger]
        after.is_class_member(term, id) by {
        assert(after.is_class_member(term, id) == before.is_class_member(term, id)) by {
            if term.raw < after.terms.len() {
                assert(after.terms[term.raw as int].kind == before.terms[term.raw as int].kind);
            }
        }
    }
}

} // verus!
