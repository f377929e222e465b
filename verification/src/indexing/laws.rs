//! What holds of the items of every module.

use super::items::{
    DeriveItemId, InstanceItemId, InstanceSourceItemId, OrderedTermItemId, TermItemId, TermKind,
    TypeItemId, TypeKind, TypeSort,
};
use super::model::{fresh_type, is_sort, part_of, with_part, Declared, Items, TypePart};
use super::pairs::{ascending, chain_keys, first_value, keys, lemma_first_value_at, Pairs};
use super::source::{
    child_ids, declarations_size, gather, in_source_order, name_text, strictly_ascending, AstId,
    Declaration, DeclarationId, DeclarationKind, InstanceChainId, InstanceSyntax, NamedSyntax,
};
use vstd::prelude::*;

verus! {

/// The constructors or members of a type.
pub open spec fn children_of(kind: TypeKind) -> Seq<TermItemId> {
    match kind {
        TypeKind::Declared { children, .. } => children,
        _ => Seq::empty(),
    }
}

/// Whether a type is one that has constructors.
pub open spec fn has_constructors(kind: TypeKind) -> bool {
    is_sort(kind, TypeSort::Data) || is_sort(kind, TypeSort::Newtype)
}

/// The numbers of the terms in a list of term-level items.
pub open spec fn listed_terms(ordered: Seq<OrderedTermItemId>) -> Seq<int>
    decreases ordered.len(),
{
    if ordered.len() == 0 {
        Seq::empty()
    } else {
        let rest = listed_terms(ordered.drop_last());
        match ordered.last() {
            OrderedTermItemId::Term(id) => rest.push(id.raw as int),
            _ => rest,
        }
    }
}

/// The instances among a list of term-level items.
pub open spec fn listed_instances(ordered: Seq<OrderedTermItemId>) -> Seq<InstanceSourceItemId>
    decreases ordered.len(),
{
    if ordered.len() == 0 {
        Seq::empty()
    } else {
        let rest = listed_instances(ordered.drop_last());
        match ordered.last() {
            OrderedTermItemId::Term(_) => rest,
            OrderedTermItemId::Instance(id) => rest.push(InstanceSourceItemId::Instance(id)),
            OrderedTermItemId::Derive(id) => rest.push(InstanceSourceItemId::Derive(id)),
        }
    }
}

/// The numbers of the declared instances in a list of instances.
pub open spec fn declared_instances(sources: Seq<InstanceSourceItemId>) -> Seq<int>
    decreases sources.len(),
{
    if sources.len() == 0 {
        Seq::empty()
    } else {
        let rest = declared_instances(sources.drop_last());
        match sources.last() {
            InstanceSourceItemId::Instance(id) => rest.push(id.raw as int),
            InstanceSourceItemId::Derive(_) => rest,
        }
    }
}

/// The numbers of the derived instances in a list of instances.
pub open spec fn derived_instances(sources: Seq<InstanceSourceItemId>) -> Seq<int>
    decreases sources.len(),
{
    if sources.len() == 0 {
        Seq::empty()
    } else {
        let rest = derived_instances(sources.drop_last());
        match sources.last() {
            InstanceSourceItemId::Instance(_) => rest,
            InstanceSourceItemId::Derive(id) => rest.push(id.raw as int),
        }
    }
}

/// The numbers below a bound, in order.
pub open spec fn counted(count: nat) -> Seq<int> {
    Seq::new(count, |i: int| i)
}

impl Items {
    /// A child of a type points back at it.
    pub open spec fn child_linked(self, type_index: int, child: TermItemId) -> bool {
        &&& child.raw < self.terms.len()
        &&& match self.terms[child.raw as int].kind {
            TermKind::ClassMember { parent, .. } => parent.raw == type_index && is_sort(
                self.types[type_index].kind,
                TypeSort::Class,
            ),
            TermKind::Constructor { type_id, .. } => type_id matches Some(id) && id.raw
                == type_index && has_constructors(self.types[type_index].kind),
            _ => false,
        }
    }

    /// A term that points at a type is one of its children; a class member may
    /// point at a type that turned out to be no class.
    pub open spec fn parent_linked(self, term_index: int) -> bool {
        match self.terms[term_index].kind {
            TermKind::ClassMember { parent, .. } => parent.raw < self.types.len() && (is_sort(
                self.types[parent.raw as int].kind,
                TypeSort::Class,
            ) ==> children_of(self.types[parent.raw as int].kind).contains(
                TermItemId { raw: term_index as u32 },
            )),
            TermKind::Constructor { type_id, .. } => type_id matches Some(id) ==> id.raw
                < self.types.len() && has_constructors(self.types[id.raw as int].kind)
                && children_of(self.types[id.raw as int].kind).contains(
                TermItemId { raw: term_index as u32 },
            ),
            _ => true,
        }
    }

    /// Types and their constructors and members point at each other.
    pub open spec fn linked(self) -> bool {
        &&& forall|t: int, c: int|
            0 <= t < self.types.len() && 0 <= c < children_of(self.types[t].kind).len()
                ==> self.child_linked(t, #[trigger] children_of(self.types[t].kind)[c])
        &&& forall|k: int| 0 <= k < self.terms.len() ==> #[trigger] self.parent_linked(k)
    }

    /// Every item of the term level is listed once, in the order of declaration.
    pub open spec fn ordered(self) -> bool {
        &&& listed_terms(self.ordered_terms) == counted(self.terms.len())
        &&& listed_instances(self.ordered_terms) == self.instance_sources
        &&& declared_instances(self.instance_sources) == counted(self.instances.len())
        &&& derived_instances(self.instance_sources) == counted(self.derives.len())
    }

    pub open spec fn sound(self) -> bool {
        &&& self.terms.len() <= u32::MAX
        &&& self.types.len() <= u32::MAX
        &&& self.instances.len() <= u32::MAX
        &&& self.derives.len() <= u32::MAX
        &&& self.linked()
        &&& self.ordered()
    }

    /// The number of items does not shrink, nor grow by more than `count`.
    pub open spec fn grown(self, before: Items, count: nat) -> bool {
        &&& before.terms.len() <= self.terms.len() <= before.terms.len() + count
        &&& before.types.len() <= self.types.len() <= before.types.len() + count
        &&& before.instances.len() <= self.instances.len() <= before.instances.len() + count
        &&& before.derives.len() <= self.derives.len() <= before.derives.len() + count
    }
}

proof fn lemma_counted_push(count: nat)
    ensures
        counted(count).push(count as int) == counted(count + 1),
{
    assert(counted(count).push(count as int) =~= counted(count + 1));
}

proof fn lemma_add_term_sound(s: Declared, name: Option<Seq<char>>, kind: TermKind)
    requires
        s.items.sound(),
        s.items.room(1),
        match kind {
            TermKind::ClassMember { .. } => false,
            TermKind::Constructor { type_id, .. } => type_id is None,
            _ => true,
        },
    ensures
        s.add_child_term(name, kind).items.sound(),
        s.add_child_term(name, kind).items.grown(s.items, 1),
{
    let a = s.items;
    let b = s.add_child_term(name, kind).items;
    assert(b.ordered_terms.drop_last() =~= a.ordered_terms);
    lemma_counted_push(a.terms.len());
    assert forall|t: int, c: int|
        0 <= t < b.types.len() && 0 <= c < children_of(b.types[t].kind).len() implies b.child_linked(
        t,
        #[trigger] children_of(b.types[t].kind)[c],
    ) by {
        assert(a.child_linked(t, children_of(a.types[t].kind)[c]));
    }
    assert forall|k: int| 0 <= k < b.terms.len() implies #[trigger] b.parent_linked(k) by {
        if k < a.terms.len() {
            assert(a.parent_linked(k));
        }
    }
}

proof fn lemma_add_type_sound(s: Declared, name: Option<Seq<char>>, kind: TypeKind)
    requires
        s.items.sound(),
        s.items.room(1),
        children_of(kind).len() == 0,
    ensures
        s.add_type(name, kind).items.sound(),
        s.add_type(name, kind).items.grown(s.items, 1),
{
    let a = s.items;
    let b = s.add_type(name, kind).items;
    assert forall|t: int, c: int|
        0 <= t < b.types.len() && 0 <= c < children_of(b.types[t].kind).len() implies b.child_linked(
        t,
        #[trigger] children_of(b.types[t].kind)[c],
    ) by {
        if t < a.types.len() {
            assert(a.child_linked(t, children_of(a.types[t].kind)[c]));
        }
    }
    assert forall|k: int| 0 <= k < b.terms.len() implies #[trigger] b.parent_linked(k) by {
        assert(a.parent_linked(k));
    }
}

proof fn lemma_add_instance_sound(s: Declared, name: Option<Seq<char>>, id: AstId)
    requires
        s.items.sound(),
        s.items.room(1),
    ensures
        s.add_instance(name, id).items.sound(),
        s.add_instance(name, id).items.grown(s.items, 1),
{
    let a = s.items;
    let b = s.add_instance(name, id).items;
    assert(b.ordered_terms.drop_last() =~= a.ordered_terms);
    assert(b.instance_sources.drop_last() =~= a.instance_sources);
    lemma_counted_push(a.instances.len());
    lemma_same_links(a, b);
}

proof fn lemma_add_derive_sound(s: Declared, name: Option<Seq<char>>, id: AstId)
    requires
        s.items.sound(),
        s.items.room(1),
    ensures
        s.add_derive(name, id).items.sound(),
        s.add_derive(name, id).items.grown(s.items, 1),
{
    let a = s.items;
    let b = s.add_derive(name, id).items;
    assert(b.ordered_terms.drop_last() =~= a.ordered_terms);
    assert(b.instance_sources.drop_last() =~= a.instance_sources);
    lemma_counted_push(a.derives.len());
    lemma_same_links(a, b);
}

proof fn lemma_same_links(a: Items, b: Items)
    requires
        a.linked(),
        b.terms == a.terms,
        b.types == a.types,
    ensures
        b.linked(),
{
    assert forall|t: int, c: int|
        0 <= t < b.types.len() && 0 <= c < children_of(b.types[t].kind).len() implies b.child_linked(
        t,
        #[trigger] children_of(b.types[t].kind)[c],
    ) by {
        assert(a.child_linked(t, children_of(a.types[t].kind)[c]));
    }
    assert forall|k: int| 0 <= k < b.terms.len() implies #[trigger] b.parent_linked(k) by {
        assert(a.parent_linked(k));
    }
}

/// A value may gain a signature or an equation.
proof fn lemma_set_value_sound(s: Declared, id: TermItemId, kind: TermKind)
    requires
        s.items.sound(),
        id.raw < s.items.terms.len(),
        s.term_kind(id) is Value,
        kind is Value,
    ensures
        s.set_term_kind(id, kind).items.sound(),
        s.set_term_kind(id, kind).items.grown(s.items, 0),
{
    let a = s.items;
    let b = s.set_term_kind(id, kind).items;
    assert forall|t: int, c: int|
        0 <= t < b.types.len() && 0 <= c < children_of(b.types[t].kind).len() implies b.child_linked(
        t,
        #[trigger] children_of(b.types[t].kind)[c],
    ) by {
        assert(a.child_linked(t, children_of(a.types[t].kind)[c]));
    }
    assert forall|k: int| 0 <= k < b.terms.len() implies #[trigger] b.parent_linked(k) by {
        assert(a.parent_linked(k));
    }
}

/// A type may change as long as its sort and its children stay.
proof fn lemma_set_type_sound(s: Declared, id: TypeItemId, kind: TypeKind)
    requires
        s.items.sound(),
        id.raw < s.items.types.len(),
        children_of(kind) == children_of(s.type_kind(id)),
        forall|sort: TypeSort| is_sort(kind, sort) == is_sort(s.type_kind(id), sort),
    ensures
        s.set_type_kind(id, kind).items.sound(),
        s.set_type_kind(id, kind).items.grown(s.items, 0),
{
    let a = s.items;
    let b = s.set_type_kind(id, kind).items;
    assert forall|t: int| 0 <= t < b.types.len() implies children_of((#[trigger] b.types[t]).kind)
        == children_of(a.types[t].kind) by {}
    assert forall|t: int, c: int|
        0 <= t < b.types.len() && 0 <= c < children_of(b.types[t].kind).len() implies b.child_linked(
        t,
        #[trigger] children_of(b.types[t].kind)[c],
    ) by {
        assert(a.child_linked(t, children_of(a.types[t].kind)[c]));
    }
    assert forall|k: int| 0 <= k < b.terms.len() implies #[trigger] b.parent_linked(k) by {
        assert(a.parent_linked(k));
    }
}

proof fn lemma_child_sound(s: Declared, type_id: TypeItemId, sort: TypeSort, child: NamedSyntax)
    requires
        s.items.sound(),
        s.items.room(1),
        type_id.raw < s.items.types.len(),
        sort != TypeSort::Synonym,
    ensures
        s.child(type_id, sort, child).items.sound(),
        s.child(type_id, sort, child).items.grown(s.items, 1),
        s.child(type_id, sort, child).items.types.len() == s.items.types.len(),
        s.child(type_id, sort, child).open == s.open,
{
    let a = s.items;
    let b = s.child(type_id, sort, child).items;
    let term = s.next_term();
    let target = type_id.raw as int;
    let attached = is_sort(s.type_kind(type_id), sort);
    assert(b.ordered_terms.drop_last() =~= a.ordered_terms);
    lemma_counted_push(a.terms.len());
    assert forall|t: int, c: int|
        0 <= t < b.types.len() && 0 <= c < children_of(b.types[t].kind).len() implies b.child_linked(
        t,
        #[trigger] children_of(b.types[t].kind)[c],
    ) by {
        if attached && t == target && c == children_of(a.types[t].kind).len() {
            assert(children_of(b.types[t].kind)[c] == term);
        } else {
            assert(children_of(b.types[t].kind)[c] == children_of(a.types[t].kind)[c]);
            assert(a.child_linked(t, children_of(a.types[t].kind)[c]));
        }
    }
    assert forall|k: int| 0 <= k < b.terms.len() implies #[trigger] b.parent_linked(k) by {
        if k < a.terms.len() {
            assert(a.parent_linked(k));
            assert forall|t: int, id: TermItemId|
                0 <= t < a.types.len() && #[trigger] children_of(a.types[t].kind).contains(
                    id,
                ) implies children_of(b.types[t].kind).contains(id) by {
                let i = choose|i: int|
                    0 <= i < children_of(a.types[t].kind).len() && children_of(a.types[t].kind)[i]
                        == id;
                assert(children_of(b.types[t].kind)[i] == id);
            }
        } else if attached {
            let last = children_of(a.types[target].kind).len() as int;
            assert(children_of(b.types[target].kind)[last] == term);
        }
    }
}

proof fn lemma_children_sound(
    s: Declared,
    type_id: TypeItemId,
    sort: TypeSort,
    children: Seq<NamedSyntax>,
)
    requires
        s.items.sound(),
        s.items.room(children.len()),
        type_id.raw < s.items.types.len(),
        sort != TypeSort::Synonym,
    ensures
        s.children(type_id, sort, children).items.sound(),
        s.children(type_id, sort, children).items.grown(s.items, children.len()),
        s.children(type_id, sort, children).items.types.len() == s.items.types.len(),
        s.children(type_id, sort, children).open == s.open,
    decreases children.len(),
{
    if children.len() > 0 {
        lemma_children_sound(s, type_id, sort, children.drop_last());
        lemma_child_sound(
            s.children(type_id, sort, children.drop_last()),
            type_id,
            sort,
            children.last(),
        );
    }
}

proof fn lemma_type_part_sound(
    s: Declared,
    part: TypePart,
    sort: TypeSort,
    id: AstId,
    name: Option<Seq<char>>,
)
    requires
        s.wf(),
        s.items.sound(),
        s.items.room(1),
    ensures
        s.type_part(part, sort, id, name).wf(),
        s.type_part(part, sort, id, name).items.sound(),
        s.type_part(part, sort, id, name).items.grown(s.items, 1),
        s.joined_type(name).raw < s.type_part(part, sort, id, name).items.types.len(),
{
    match s.open_type(name) {
        None => lemma_add_type_sound(s, name, fresh_type(part, sort, id)),
        Some(active) => {
            if part_of(s.type_kind(active), part, sort) == Some(None::<AstId>) {
                lemma_set_type_sound(s, active, with_part(s.type_kind(active), part, id));
            }
        },
    }
}

proof fn lemma_instance_chain_sound(
    s: Declared,
    declaration: DeclarationId,
    chain: InstanceChainId,
    instances: Seq<InstanceSyntax>,
)
    requires
        s.wf(),
        s.items.sound(),
        s.items.room(instances.len()),
    ensures
        s.instance_chain(declaration, chain, instances).wf(),
        s.instance_chain(declaration, chain, instances).items.sound(),
        s.instance_chain(declaration, chain, instances).items.grown(s.items, instances.len()),
    decreases instances.len(),
{
    if instances.len() > 0 {
        lemma_instance_chain_sound(s, declaration, chain, instances.drop_last());
        let before = s.instance_chain(declaration, chain, instances.drop_last());
        let instance = instances.last();
        lemma_add_instance_sound(before, name_text(instance.name), instance.id);
    }
}

/// A declaration keeps the items sound: types and their constructors and
/// members point at each other, and every term-level item is listed once.
pub proof fn lemma_declaration_sound(s: Declared, declaration: Declaration)
    requires
        s.wf(),
        s.items.sound(),
        s.items.room(declaration.size()),
    ensures
        s.declaration(declaration).wf(),
        s.declaration(declaration).items.sound(),
        s.declaration(declaration).items.grown(s.items, declaration.size()),
{
    match declaration.kind {
        DeclarationKind::ValueSignature { id, name } => {
            let name = name_text(name);
            match s.open_term(name) {
                None => lemma_add_term_sound(
                    s,
                    name,
                    TermKind::Value { signature: Some(id), equations: Seq::empty() },
                ),
                Some(active) => match s.term_kind(active) {
                    TermKind::Value { signature: None, equations } => lemma_set_value_sound(
                        s,
                        active,
                        TermKind::Value { signature: Some(id), equations },
                    ),
                    _ => {},
                },
            }
        },
        DeclarationKind::ValueEquation { id, name } => {
            let name = name_text(name);
            match s.open_term(name) {
                None => lemma_add_term_sound(
                    s,
                    name,
                    TermKind::Value { signature: None, equations: seq![id] },
                ),
                Some(active) => match s.term_kind(active) {
                    TermKind::Value { signature, equations } => lemma_set_value_sound(
                        s,
                        active,
                        TermKind::Value { signature, equations: equations.push(id) },
                    ),
                    _ => {},
                },
            }
        },
        DeclarationKind::Infix { id, type_keyword, operator } => {
            lemma_add_type_sound(s, name_text(operator), TypeKind::Operator { id });
            lemma_add_term_sound(s, name_text(operator), TermKind::Operator { id });
        },
        DeclarationKind::TypeRole { id, name } => {
            match s.open_type(name_text(name)) {
                None => {},
                Some(active) => match s.type_kind(active) {
                    TypeKind::Declared { sort, signature, equation, role: None, children } => {
                        lemma_set_type_sound(
                            s,
                            active,
                            TypeKind::Declared {
                                sort,
                                signature,
                                equation,
                                role: Some(id),
                                children,
                            },
                        );
                    },
                    TypeKind::Foreign { id: foreign, role: None } => {
                        lemma_set_type_sound(
                            s,
                            active,
                            TypeKind::Foreign { id: foreign, role: Some(id) },
                        );
                    },
                    _ => {},
                },
            }
        },
        DeclarationKind::InstanceChain { id, instances } => {
            lemma_instance_chain_sound(s, declaration.id, id, instances@);
        },
        DeclarationKind::TypeSynonymSignature { id, name } => {
            lemma_type_part_sound(s, TypePart::Signature, TypeSort::Synonym, id, name_text(name));
        },
        DeclarationKind::TypeSynonymEquation { id, name } => {
            lemma_type_part_sound(s, TypePart::Equation, TypeSort::Synonym, id, name_text(name));
        },
        DeclarationKind::ClassSignature { id, name } => {
            lemma_type_part_sound(s, TypePart::Signature, TypeSort::Class, id, name_text(name));
        },
        DeclarationKind::ClassDeclaration { id, name, members } => {
            lemma_type_with_children_sound(s, TypeSort::Class, id, name_text(name), members@);
        },
        DeclarationKind::ForeignImportData { id, name } => {
            lemma_add_type_sound(s, name_text(name), TypeKind::Foreign { id, role: None });
        },
        DeclarationKind::ForeignImportValue { id, name } => {
            lemma_add_term_sound(s, name_text(name), TermKind::Foreign { id });
        },
        DeclarationKind::NewtypeSignature { id, name } => {
            lemma_type_part_sound(s, TypePart::Signature, TypeSort::Newtype, id, name_text(name));
        },
        DeclarationKind::NewtypeEquation { id, name, constructors } => {
            lemma_type_with_children_sound(s, TypeSort::Newtype, id, name_text(name), constructors@);
        },
        DeclarationKind::DataSignature { id, name } => {
            lemma_type_part_sound(s, TypePart::Signature, TypeSort::Data, id, name_text(name));
        },
        DeclarationKind::DataEquation { id, name, constructors } => {
            lemma_type_with_children_sound(s, TypeSort::Data, id, name_text(name), constructors@);
        },
        DeclarationKind::Derive { id, name } => {
            lemma_add_derive_sound(s, name_text(name), id);
        },
    }
}

proof fn lemma_type_with_children_sound(
    s: Declared,
    sort: TypeSort,
    id: AstId,
    name: Option<Seq<char>>,
    children: Seq<NamedSyntax>,
)
    requires
        s.wf(),
        s.items.sound(),
        s.items.room(1 + children.len()),
        sort != TypeSort::Synonym,
    ensures
        ({
            let after = s.type_part(TypePart::Equation, sort, id, name).children(
                s.joined_type(name),
                sort,
                children,
            );
            after.wf() && after.items.sound() && after.items.grown(s.items, 1 + children.len())
        }),
{
    lemma_type_part_sound(s, TypePart::Equation, sort, id, name);
    lemma_children_sound(
        s.type_part(TypePart::Equation, sort, id, name),
        s.joined_type(name),
        sort,
        children,
    );
}

/// The items of every list of declarations are sound.
pub proof fn lemma_declarations_sound(declarations: Seq<Declaration>)
    requires
        declarations_size(declarations) <= u32::MAX,
    ensures
        Declared::empty().declarations(declarations).wf(),
        Declared::empty().declarations(declarations).items.sound(),
        Declared::empty().declarations(declarations).items.grown(
            Items::empty(),
            declarations_size(declarations),
        ),
    decreases declarations.len(),
{
    let empty = Declared::empty();
    if declarations.len() == 0 {
        assert(counted(0) =~= Seq::<int>::empty());
        assert(empty.items.ordered());
        assert(empty.items.linked());
    } else {
        lemma_declarations_sound(declarations.drop_last());
        lemma_declaration_sound(
            empty.declarations(declarations.drop_last()),
            declarations.last(),
        );
    }
}

// Source order

/// The keys that are numbered in the order of the source, in full.
pub open spec fn exact_keys(pairs: Pairs, declarations: Seq<Declaration>) -> bool {
    &&& keys(pairs.constructor_to_term) == gather(
        declarations,
        |d: Declaration| d.constructor_ids(),
    )
    &&& keys(pairs.class_member_to_term) == gather(
        declarations,
        |d: Declaration| d.class_member_ids(),
    )
    &&& keys(pairs.instance_to_item) == gather(declarations, |d: Declaration| d.instance_ids())
    &&& chain_keys(pairs.instance_chain) == gather(declarations, |d: Declaration| d.instance_ids())
    &&& keys(pairs.derive_to_item) == gather(declarations, |d: Declaration| d.derive_ids())
}

/// The keys ascend and none is greater than the bound.
spec fn bounded<V>(pairs: Seq<(AstId, V)>, bound: AstId) -> bool {
    &&& ascending(keys(pairs))
    &&& forall|i: int| 0 <= i < pairs.len() ==> (#[trigger] pairs[i]).0.raw <= bound.raw
}

spec fn declarations_bounded(pairs: Pairs, bound: AstId) -> bool {
    &&& bounded(pairs.declaration_to_term, bound)
    &&& bounded(pairs.declaration_to_type, bound)
    &&& bounded(pairs.declaration_to_instance, bound)
    &&& bounded(pairs.declaration_to_derive, bound)
}

proof fn lemma_bounded_push<V>(pairs: Seq<(AstId, V)>, bound: AstId, id: AstId, value: V)
    requires
        bounded(pairs, bound),
        bound.raw <= id.raw,
    ensures
        bounded(pairs.push((id, value)), id),
{
    let pushed = pairs.push((id, value));
    assert forall|i: int, j: int| 0 <= i <= j < pushed.len() implies keys(pushed)[i].raw <= keys(
        pushed,
    )[j].raw by {
        assert(keys(pushed)[i] == pushed[i].0);
        assert(keys(pushed)[j] == pushed[j].0);
        if j < pairs.len() {
            assert(keys(pairs)[i].raw <= keys(pairs)[j].raw);
        } else if i < pairs.len() {
            assert(pairs[i].0.raw <= bound.raw);
        }
    }
}

proof fn lemma_children_pairs(
    s: Declared,
    type_id: TypeItemId,
    sort: TypeSort,
    children: Seq<NamedSyntax>,
)
    ensures
        ({
            let a = s.pairs;
            let b = s.children(type_id, sort, children).pairs;
            let same = Pairs {
                constructor_to_term: a.constructor_to_term,
                class_member_to_term: a.class_member_to_term,
                ..b
            };
            &&& same == a
            &&& keys(b.constructor_to_term) == keys(a.constructor_to_term) + (if sort
                == TypeSort::Class {
                Seq::empty()
            } else {
                child_ids(children)
            })
            &&& keys(b.class_member_to_term) == keys(a.class_member_to_term) + (if sort
                == TypeSort::Class {
                child_ids(children)
            } else {
                Seq::empty()
            })
        }),
    decreases children.len(),
{
    let a = s.pairs;
    let b = s.children(type_id, sort, children).pairs;
    if children.len() == 0 {
        assert(child_ids(children) =~= Seq::empty());
    } else {
        let c = s.children(type_id, sort, children.drop_last()).pairs;
        lemma_children_pairs(s, type_id, sort, children.drop_last());
        assert(child_ids(children) =~= child_ids(children.drop_last()).push(children.last().id));
        if sort == TypeSort::Class {
            assert(keys(b.class_member_to_term) =~= keys(c.class_member_to_term).push(
                children.last().id,
            ));
        } else {
            assert(keys(b.constructor_to_term) =~= keys(c.constructor_to_term).push(
                children.last().id,
            ));
        }
    }
    assert(keys(b.constructor_to_term) =~= keys(a.constructor_to_term) + (if sort
        == TypeSort::Class {
        Seq::empty()
    } else {
        child_ids(children)
    }));
    assert(keys(b.class_member_to_term) =~= keys(a.class_member_to_term) + (if sort
        == TypeSort::Class {
        child_ids(children)
    } else {
        Seq::empty()
    }));
}

proof fn lemma_chain_pairs(
    s: Declared,
    declaration: DeclarationId,
    chain: InstanceChainId,
    instances: Seq<InstanceSyntax>,
    bound: AstId,
)
    requires
        bounded(s.pairs.declaration_to_instance, bound),
        bound.raw <= declaration.raw,
    ensures
        ({
            let a = s.pairs;
            let b = s.instance_chain(declaration, chain, instances).pairs;
            let ids = instances.map_values(|instance: InstanceSyntax| instance.id);
            let same = Pairs {
                instance_chain: a.instance_chain,
                instance_to_item: a.instance_to_item,
                instance_members: a.instance_members,
                declaration_to_instance: a.declaration_to_instance,
                ..b
            };
            &&& same == a
            &&& keys(b.instance_to_item) == keys(a.instance_to_item) + ids
            &&& chain_keys(b.instance_chain) == chain_keys(a.instance_chain) + ids
            &&& bounded(b.declaration_to_instance, declaration)
        }),
    decreases instances.len(),
{
    let a = s.pairs;
    let b = s.instance_chain(declaration, chain, instances).pairs;
    let ids = instances.map_values(|instance: InstanceSyntax| instance.id);
    if instances.len() > 0 {
        let c = s.instance_chain(declaration, chain, instances.drop_last());
        let before = instances.drop_last().map_values(|instance: InstanceSyntax| instance.id);
        lemma_chain_pairs(s, declaration, chain, instances.drop_last(), bound);
        lemma_bounded_push(
            c.pairs.declaration_to_instance,
            declaration,
            declaration,
            c.next_instance(),
        );
        assert(ids =~= before.push(instances.last().id));
        assert(keys(b.instance_to_item) =~= keys(c.pairs.instance_to_item).push(
            instances.last().id,
        ));
        assert(chain_keys(b.instance_chain) =~= chain_keys(c.pairs.instance_chain).push(
            instances.last().id,
        ));
    }
    assert(keys(b.instance_to_item) =~= keys(a.instance_to_item) + ids);
    assert(chain_keys(b.instance_chain) =~= chain_keys(a.instance_chain) + ids);
}

#[verifier::rlimit(60)]
proof fn lemma_declaration_pairs(s: Declared, declaration: Declaration, bound: AstId)
    requires
        declarations_bounded(s.pairs, bound),
        bound.raw <= declaration.id.raw,
    ensures
        ({
            let a = s.pairs;
            let b = s.declaration(declaration).pairs;
            &&& keys(b.constructor_to_term) == keys(a.constructor_to_term)
                + declaration.constructor_ids()
            &&& keys(b.class_member_to_term) == keys(a.class_member_to_term)
                + declaration.class_member_ids()
            &&& keys(b.instance_to_item) == keys(a.instance_to_item) + declaration.instance_ids()
            &&& chain_keys(b.instance_chain) == chain_keys(a.instance_chain)
                + declaration.instance_ids()
            &&& keys(b.derive_to_item) == keys(a.derive_to_item) + declaration.derive_ids()
            &&& declarations_bounded(b, declaration.id)
        }),
{
    let a = s.pairs;
    let b = s.declaration(declaration).pairs;
    let id = declaration.id;
    assert forall|item: TermItemId| bounded(#[trigger] a.declaration_to_term.push((id, item)), id) by {
        lemma_bounded_push(a.declaration_to_term, bound, id, item);
    }
    assert forall|item: TypeItemId| bounded(#[trigger] a.declaration_to_type.push((id, item)), id) by {
        lemma_bounded_push(a.declaration_to_type, bound, id, item);
    }
    lemma_bounded_push(a.declaration_to_derive, bound, id, s.next_derive());
    match declaration.kind {
        DeclarationKind::InstanceChain { id: chain, instances } => {
            lemma_chain_pairs(s, id, chain, instances@, bound);
        },
        DeclarationKind::ClassDeclaration { id: part, name, members } => {
            let opened = s.type_part(TypePart::Equation, TypeSort::Class, part, name_text(name));
            lemma_children_pairs(
                opened,
                s.joined_type(name_text(name)),
                TypeSort::Class,
                members@,
            );
        },
        DeclarationKind::NewtypeEquation { id: part, name, constructors } => {
            let opened = s.type_part(TypePart::Equation, TypeSort::Newtype, part, name_text(name));
            lemma_children_pairs(
                opened,
                s.joined_type(name_text(name)),
                TypeSort::Newtype,
                constructors@,
            );
        },
        DeclarationKind::DataEquation { id: part, name, constructors } => {
            let opened = s.type_part(TypePart::Equation, TypeSort::Data, part, name_text(name));
            lemma_children_pairs(
                opened,
                s.joined_type(name_text(name)),
                TypeSort::Data,
                constructors@,
            );
        },
        DeclarationKind::Derive { id: derive, name } => {
            assert(keys(b.derive_to_item) =~= keys(a.derive_to_item).push(derive));
        },
        _ => {},
    }
    assert(keys(b.constructor_to_term) =~= keys(a.constructor_to_term)
        + declaration.constructor_ids());
    assert(keys(b.class_member_to_term) =~= keys(a.class_member_to_term)
        + declaration.class_member_ids());
    assert(keys(b.instance_to_item) =~= keys(a.instance_to_item) + declaration.instance_ids());
    assert(chain_keys(b.instance_chain) =~= chain_keys(a.instance_chain)
        + declaration.instance_ids());
    assert(keys(b.derive_to_item) =~= keys(a.derive_to_item) + declaration.derive_ids());
}

proof fn lemma_prefix_in_source_order(declarations: Seq<Declaration>)
    requires
        in_source_order(declarations),
        declarations.len() > 0,
    ensures
        in_source_order(declarations.drop_last()),
{
    let prefix = declarations.drop_last();
    let all_ids = declarations.map_values(|declaration: Declaration| declaration.id);
    let ids = prefix.map_values(|declaration: Declaration| declaration.id);
    assert forall|i: int, j: int| 0 <= i < j < ids.len() implies ids[i].raw < ids[j].raw by {
        assert(all_ids[i].raw < all_ids[j].raw);
    }
    assert forall|f: spec_fn(Declaration) -> Seq<AstId>|
        strictly_ascending(#[trigger] gather(declarations, f)) implies strictly_ascending(
        gather(prefix, f),
    ) by {
        let all = gather(declarations, f);
        let some = gather(prefix, f);
        assert forall|i: int, j: int| 0 <= i < j < some.len() implies some[i].raw < some[j].raw by {
            assert(all[i] == some[i]);
            assert(all[j] == some[j]);
        }
    }
}

proof fn lemma_declarations_pairs(declarations: Seq<Declaration>)
    requires
        in_source_order(declarations),
    ensures
        exact_keys(Declared::empty().declarations(declarations).pairs, declarations),
        declarations.len() > 0 ==> declarations_bounded(
            Declared::empty().declarations(declarations).pairs,
            declarations.last().id,
        ),
        declarations.len() == 0 ==> Declared::empty().declarations(declarations).pairs
            == Pairs::empty(),
    decreases declarations.len(),
{
    let pairs = Declared::empty().declarations(declarations).pairs;
    if declarations.len() == 0 {
        assert(keys(pairs.constructor_to_term) =~= Seq::empty());
        assert(keys(pairs.class_member_to_term) =~= Seq::empty());
        assert(keys(pairs.instance_to_item) =~= Seq::empty());
        assert(chain_keys(pairs.instance_chain) =~= Seq::empty());
        assert(keys(pairs.derive_to_item) =~= Seq::empty());
    } else {
        let prefix = declarations.drop_last();
        let before = Declared::empty().declarations(prefix);
        let last = declarations.last();
        lemma_prefix_in_source_order(declarations);
        lemma_declarations_pairs(prefix);
        if prefix.len() > 0 {
            let ids = declarations.map_values(|declaration: Declaration| declaration.id);
            assert(ids[prefix.len() - 1].raw < ids[prefix.len() as int].raw);
            lemma_declaration_pairs(before, last, prefix.last().id);
        } else {
            lemma_declaration_pairs(before, last, last.id);
        }
    }
}

/// Where the identities of a module's syntax are numbered in the order of the
/// source, so are the keys of all pairs, and every constructor, class member,
/// instance and derived instance is paired with its item once.
pub proof fn lemma_pairs_in_source_order(declarations: Seq<Declaration>)
    requires
        in_source_order(declarations),
    ensures
        Declared::empty().declarations(declarations).pairs.wf(),
        exact_keys(Declared::empty().declarations(declarations).pairs, declarations),
{
    lemma_declarations_pairs(declarations);
}

// Instances

/// Every instance is paired with its position.
pub open spec fn items_paired(items: Items, pairs: Pairs) -> bool {
    &&& pairs.instance_to_item.len() == items.instances.len()
    &&& pairs.derive_to_item.len() == items.derives.len()
    &&& forall|i: int|
        0 <= i < items.instances.len() ==> #[trigger] pairs.instance_to_item[i] == (
            items.instances[i].id,
            InstanceItemId { raw: i as u32 },
        )
    &&& forall|i: int|
        0 <= i < items.derives.len() ==> #[trigger] pairs.derive_to_item[i] == (
            items.derives[i].id,
            DeriveItemId { raw: i as u32 },
        )
}

/// Neither instances nor their pairs have changed.
spec fn same_instances(before: Declared, after: Declared) -> bool {
    &&& after.items.instances == before.items.instances
    &&& after.items.derives == before.items.derives
    &&& after.pairs.instance_to_item == before.pairs.instance_to_item
    &&& after.pairs.derive_to_item == before.pairs.derive_to_item
}

proof fn lemma_children_instances(
    s: Declared,
    type_id: TypeItemId,
    sort: TypeSort,
    children: Seq<NamedSyntax>,
)
    ensures
        same_instances(s, s.children(type_id, sort, children)),
    decreases children.len(),
{
    if children.len() > 0 {
        lemma_children_instances(s, type_id, sort, children.drop_last());
    }
}

proof fn lemma_chain_instances(
    s: Declared,
    declaration: DeclarationId,
    chain: InstanceChainId,
    instances: Seq<InstanceSyntax>,
)
    requires
        items_paired(s.items, s.pairs),
    ensures
        ({
            let after = s.instance_chain(declaration, chain, instances);
            items_paired(after.items, after.pairs)
        }),
    decreases instances.len(),
{
    if instances.len() > 0 {
        lemma_chain_instances(s, declaration, chain, instances.drop_last());
    }
}

proof fn lemma_declaration_instances(s: Declared, declaration: Declaration)
    requires
        items_paired(s.items, s.pairs),
    ensures
        items_paired(s.declaration(declaration).items, s.declaration(declaration).pairs),
{
    match declaration.kind {
        DeclarationKind::InstanceChain { id: chain, instances } => {
            lemma_chain_instances(s, declaration.id, chain, instances@);
        },
        DeclarationKind::ClassDeclaration { id: part, name, members } => {
            let opened = s.type_part(TypePart::Equation, TypeSort::Class, part, name_text(name));
            lemma_children_instances(
                opened,
                s.joined_type(name_text(name)),
                TypeSort::Class,
                members@,
            );
        },
        DeclarationKind::NewtypeEquation { id: part, name, constructors } => {
            let opened = s.type_part(TypePart::Equation, TypeSort::Newtype, part, name_text(name));
            lemma_children_instances(
                opened,
                s.joined_type(name_text(name)),
                TypeSort::Newtype,
                constructors@,
            );
        },
        DeclarationKind::DataEquation { id: part, name, constructors } => {
            let opened = s.type_part(TypePart::Equation, TypeSort::Data, part, name_text(name));
            lemma_children_instances(
                opened,
                s.joined_type(name_text(name)),
                TypeSort::Data,
                constructors@,
            );
        },
        DeclarationKind::Derive { .. } => {},
        _ => {
            assert(same_instances(s, s.declaration(declaration)));
        },
    }
}

proof fn lemma_declarations_instances(declarations: Seq<Declaration>)
    ensures
        items_paired(
            Declared::empty().declarations(declarations).items,
            Declared::empty().declarations(declarations).pairs,
        ),
    decreases declarations.len(),
{
    if declarations.len() > 0 {
        lemma_declarations_instances(declarations.drop_last());
        lemma_declaration_instances(
            Declared::empty().declarations(declarations.drop_last()),
            declarations.last(),
        );
    }
}

/// Every instance is found by its identity.
pub open spec fn instances_found(items: Items, pairs: Pairs) -> bool {
    &&& forall|i: int|
        0 <= i < items.instances.len() ==> first_value(
            pairs.instance_to_item,
            (#[trigger] items.instances[i]).id,
        ) == Some(InstanceItemId { raw: i as u32 })
    &&& forall|i: int|
        0 <= i < items.derives.len() ==> first_value(
            pairs.derive_to_item,
            (#[trigger] items.derives[i]).id,
        ) == Some(DeriveItemId { raw: i as u32 })
}

/// Where the identities of a module's syntax are numbered in the order of the source,
/// every instance is found by its identity.
pub proof fn lemma_instances_found(declarations: Seq<Declaration>)
    requires
        in_source_order(declarations),
    ensures
        instances_found(
            Declared::empty().declarations(declarations).items,
            Declared::empty().declarations(declarations).pairs,
        ),
{
    let after = Declared::empty().declarations(declarations);
    let (items, pairs) = (after.items, after.pairs);
    lemma_declarations_instances(declarations);
    lemma_declarations_pairs(declarations);
    assert forall|i: int| 0 <= i < items.instances.len() implies first_value(
        pairs.instance_to_item,
        (#[trigger] items.instances[i]).id,
    ) == Some(InstanceItemId { raw: i as u32 }) by {
        assert(pairs.instance_to_item[i].0 == items.instances[i].id);
        lemma_first_value_at(pairs.instance_to_item, i);
    }
    assert forall|i: int| 0 <= i < items.derives.len() implies first_value(
        pairs.derive_to_item,
        (#[trigger] items.derives[i]).id,
    ) == Some(DeriveItemId { raw: i as u32 }) by {
        assert(pairs.derive_to_item[i].0 == items.derives[i].id);
        lemma_first_value_at(pairs.derive_to_item, i);
    }
}

} // verus!
