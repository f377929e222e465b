//! Turns declarations into items.

use super::error::{ExistingKind, IndexingError, ItemKind};
use super::items::{
    DeriveItemId, IndexedDeriveItem, IndexedInstanceItem, IndexedTermItem, IndexedTermItemKind,
    IndexedTypeItem, IndexedTypeItemKind, InstanceItemId, InstanceSourceItemId, OrderedTermItemId,
    TermItemId, TypeItemId, TypeSort,
};
use super::model::{
    fresh_type, is_sort, part_kind, part_of, views, with_child, with_part, Declared, Items,
    OpenItemGroup, TypePart,
};
use super::pairs::{IndexedPairs, Pairs};
use super::source::{
    name_text, AstId, Declaration, DeclarationId, DeclarationKind, InstanceChainId, InstanceSyntax,
    NamedSyntax,
};
use crate::collections::ItemArena;
use vstd::prelude::*;

verus! {

/// The items of a module.
pub struct IndexedItems {
    pub terms: ItemArena<IndexedTermItem>,
    pub types: ItemArena<IndexedTypeItem>,
    pub instances: ItemArena<IndexedInstanceItem>,
    pub derives: ItemArena<IndexedDeriveItem>,
    pub instance_sources: Vec<InstanceSourceItemId>,
    pub ordered_terms: Vec<OrderedTermItemId>,
}

impl View for IndexedItems {
    type V = Items;

    open spec fn view(&self) -> Items {
        Items {
            terms: views(self.terms@),
            types: views(self.types@),
            instances: views(self.instances@),
            derives: views(self.derives@),
            instance_sources: self.instance_sources@,
            ordered_terms: self.ordered_terms@,
        }
    }
}

/// The state of the pass over the declarations.
pub struct State {
    pub(crate) open: Option<OpenItemGroup>,
    pub(crate) items: IndexedItems,
    pub(crate) pairs: IndexedPairs,
    pub(crate) errors: Vec<IndexingError>,
}

impl View for State {
    type V = Declared;

    closed spec fn view(&self) -> Declared {
        Declared {
            open: self.open,
            items: self.items@,
            pairs: self.pairs@,
            errors: self.errors@,
        }
    }
}

/// Whether two optional names read the same.
fn same_name(left: &Option<String>, right: &Option<String>) -> (same: bool)
    ensures
        same == (name_text(*left) == name_text(*right)),
{
    match (left, right) {
        (Some(left), Some(right)) => *left == *right,
        (None, None) => true,
        _ => false,
    }
}

/// A copy of an optional name.
pub(crate) fn copy_name(name: &Option<String>) -> (copy: Option<String>)
    ensures
        name_text(copy) == name_text(*name),
{
    match name {
        Some(name) => Some(name.clone()),
        None => None,
    }
}

impl State {
    pub fn new() -> (state: State)
        ensures
            state@ == Declared::empty(),
            state@.wf(),
    {
        let state = State {
            open: None,
            items: IndexedItems {
                terms: ItemArena::new(),
                types: ItemArena::new(),
                instances: ItemArena::new(),
                derives: ItemArena::new(),
                instance_sources: Vec::new(),
                ordered_terms: Vec::new(),
            },
            pairs: IndexedPairs::new(),
            errors: Vec::new(),
        };
        assert(state@ =~~= Declared::empty());
        state
    }

    /// The items, the pairs and the errors.
    pub fn into_parts(self) -> (parts: (IndexedItems, IndexedPairs, Vec<IndexingError>))
        ensures
            parts.0@ == self@.items,
            parts.1@ == self@.pairs,
            parts.2@ == self@.errors,
    {
        (self.items, self.pairs, self.errors)
    }

    fn push_error(&mut self, error: IndexingError)
        ensures
            final(self)@ == old(self)@.with_error(error),
    {
        self.errors.push(error);
        assert(self@ =~~= old(self)@.with_error(error));
    }

    /// The open term, where it has the name.
    fn open_term_group(&self, name: &Option<String>) -> (id: Option<TermItemId>)
        requires
            self@.wf(),
        ensures
            id == self@.open_term(name_text(*name)),
            id matches Some(id) ==> id.raw < self@.items.terms.len(),
    {
        match self.open {
            Some(OpenItemGroup::Term(id)) => {
                let item = self.items.terms.get(id.raw);
                if same_name(&item.name, name) {
                    Some(id)
                } else {
                    None
                }
            },
            _ => None,
        }
    }

    /// The open type, where it has the name.
    fn open_type_group(&self, name: &Option<String>) -> (id: Option<TypeItemId>)
        requires
            self@.wf(),
        ensures
            id == self@.open_type(name_text(*name)),
            id matches Some(id) ==> id.raw < self@.items.types.len(),
    {
        match self.open {
            Some(OpenItemGroup::Type(id)) => {
                let item = self.items.types.get(id.raw);
                if same_name(&item.name, name) {
                    Some(id)
                } else {
                    None
                }
            },
            _ => None,
        }
    }

    /// Adds a term without opening it.
    fn alloc_child_term(&mut self, name: Option<String>, kind: IndexedTermItemKind) -> (id:
        TermItemId)
        requires
            old(self)@.items.room(1),
        ensures
            id == old(self)@.next_term(),
            final(self)@ == old(self)@.add_child_term(name_text(name), kind@),
    {
        let item = IndexedTermItem { name, kind, exported: false };
        let ghost model = item@;
        let id = TermItemId { raw: self.items.terms.push(item) };
        self.items.ordered_terms.push(OrderedTermItemId::Term(id));
        assert(views(self.items.terms@) =~= views(old(self).items.terms@).push(model));
        assert(self@ =~~= old(self)@.add_child_term(model.name, model.kind));
        id
    }

    /// Adds a term and opens it.
    fn alloc_term(&mut self, name: Option<String>, kind: IndexedTermItemKind) -> (id: TermItemId)
        requires
            old(self)@.items.room(1),
        ensures
            id == old(self)@.next_term(),
            final(self)@ == old(self)@.add_term(name_text(name), kind@),
    {
        let id = self.alloc_child_term(name, kind);
        self.open = Some(OpenItemGroup::Term(id));
        id
    }

    /// Adds a type and opens it.
    fn alloc_type(&mut self, name: Option<String>, kind: IndexedTypeItemKind) -> (id: TypeItemId)
        requires
            old(self)@.items.room(1),
        ensures
            id == old(self)@.next_type(),
            final(self)@ == old(self)@.add_type(name_text(name), kind@),
    {
        let item = IndexedTypeItem { name, kind, exported: false };
        let ghost model = item@;
        let id = TypeItemId { raw: self.items.types.push(item) };
        self.open = Some(OpenItemGroup::Type(id));
        assert(views(self.items.types@) =~= views(old(self).items.types@).push(model));
        assert(self@ =~~= old(self)@.add_type(model.name, model.kind));
        id
    }

    /// Adds an instance and closes the open item.
    fn alloc_instance(&mut self, item: IndexedInstanceItem) -> (id: InstanceItemId)
        requires
            old(self)@.items.room(1),
        ensures
            id == old(self)@.next_instance(),
            final(self)@ == old(self)@.add_instance(item@.name, item.id),
    {
        let ghost model = item@;
        let id = InstanceItemId { raw: self.items.instances.push(item) };
        self.items.instance_sources.push(InstanceSourceItemId::Instance(id));
        self.items.ordered_terms.push(OrderedTermItemId::Instance(id));
        self.open = None;
        assert(views(self.items.instances@) =~= views(old(self).items.instances@).push(model));
        assert(self@ =~~= old(self)@.add_instance(model.name, model.id));
        id
    }

    /// Adds a derived instance and closes the open item.
    fn alloc_derive(&mut self, item: IndexedDeriveItem) -> (id: DeriveItemId)
        requires
            old(self)@.items.room(1),
        ensures
            id == old(self)@.next_derive(),
            final(self)@ == old(self)@.add_derive(item@.name, item.id),
    {
        let ghost model = item@;
        let id = DeriveItemId { raw: self.items.derives.push(item) };
        self.items.instance_sources.push(InstanceSourceItemId::Derive(id));
        self.items.ordered_terms.push(OrderedTermItemId::Derive(id));
        self.open = None;
        assert(views(self.items.derives@) =~= views(old(self).items.derives@).push(model));
        assert(self@ =~~= old(self)@.add_derive(model.name, model.id));
        id
    }

    fn pair_term(&mut self, declaration: DeclarationId, item: TermItemId)
        ensures
            final(self)@ == old(self)@.pair_term(declaration, item),
    {
        self.pairs.push_declaration_to_term(declaration, item);
        assert(self@ =~~= old(self)@.pair_term(declaration, item));
    }

    fn pair_type(&mut self, declaration: DeclarationId, item: TypeItemId)
        ensures
            final(self)@ == old(self)@.pair_type(declaration, item),
    {
        self.pairs.push_declaration_to_type(declaration, item);
        assert(self@ =~~= old(self)@.pair_type(declaration, item));
    }
}

/// How an error names one half of a type's declaration.
fn item_kind(part: TypePart, sort: TypeSort, id: AstId) -> (kind: ItemKind)
    ensures
        kind == part_kind(part, sort, id),
{
    match (part, sort) {
        (TypePart::Signature, TypeSort::Synonym) => ItemKind::SynonymSignature(id),
        (TypePart::Signature, TypeSort::Class) => ItemKind::ClassSignature(id),
        (TypePart::Signature, TypeSort::Newtype) => ItemKind::NewtypeSignature(id),
        (TypePart::Signature, TypeSort::Data) => ItemKind::DataSignature(id),
        (TypePart::Equation, TypeSort::Synonym) => ItemKind::SynonymEquation(id),
        (TypePart::Equation, TypeSort::Class) => ItemKind::ClassDeclaration(id),
        (TypePart::Equation, TypeSort::Newtype) => ItemKind::NewtypeEquation(id),
        (TypePart::Equation, TypeSort::Data) => ItemKind::DataEquation(id),
    }
}

/// A type of which only one half has been seen.
fn fresh_type_item(part: TypePart, sort: TypeSort, id: AstId) -> (kind: IndexedTypeItemKind)
    ensures
        kind@ == fresh_type(part, sort, id),
{
    let (signature, equation) = match part {
        TypePart::Signature => (Some(id), None),
        TypePart::Equation => (None, Some(id)),
    };
    let kind = match sort {
        TypeSort::Synonym => IndexedTypeItemKind::Synonym { signature, equation },
        TypeSort::Class => IndexedTypeItemKind::Class {
            signature,
            declaration: equation,
            members: Vec::new(),
        },
        TypeSort::Newtype => IndexedTypeItemKind::Newtype {
            signature,
            equation,
            role: None,
            constructors: Vec::new(),
        },
        TypeSort::Data => IndexedTypeItemKind::Data {
            signature,
            equation,
            role: None,
            constructors: Vec::new(),
        },
    };
    assert(kind@ == fresh_type(part, sort, id));
    kind
}

/// The half that a node of a type's declaration fills.
fn declared_part(kind: &IndexedTypeItemKind, part: TypePart, sort: TypeSort) -> (id: Option<
    Option<AstId>,
>)
    ensures
        id == part_of(kind@, part, sort),
{
    let (actual, signature, equation) = match kind {
        IndexedTypeItemKind::Synonym { signature, equation } => (
            TypeSort::Synonym,
            *signature,
            *equation,
        ),
        IndexedTypeItemKind::Class { signature, declaration, .. } => (
            TypeSort::Class,
            *signature,
            *declaration,
        ),
        IndexedTypeItemKind::Newtype { signature, equation, .. } => (
            TypeSort::Newtype,
            *signature,
            *equation,
        ),
        IndexedTypeItemKind::Data { signature, equation, .. } => (
            TypeSort::Data,
            *signature,
            *equation,
        ),
        _ => return None,
    };
    if actual != sort {
        return None;
    }
    match part {
        TypePart::Signature => Some(signature),
        TypePart::Equation => Some(equation),
    }
}

/// Fills one half of a type's declaration.
fn fill_part(kind: &mut IndexedTypeItemKind, part: TypePart, id: AstId)
    ensures
        final(kind)@ == with_part(old(kind)@, part, id),
{
    match kind {
        IndexedTypeItemKind::Synonym { signature, equation } => match part {
            TypePart::Signature => *signature = Some(id),
            TypePart::Equation => *equation = Some(id),
        },
        IndexedTypeItemKind::Class { signature, declaration, .. } => match part {
            TypePart::Signature => *signature = Some(id),
            TypePart::Equation => *declaration = Some(id),
        },
        IndexedTypeItemKind::Newtype { signature, equation, .. } => match part {
            TypePart::Signature => *signature = Some(id),
            TypePart::Equation => *equation = Some(id),
        },
        IndexedTypeItemKind::Data { signature, equation, .. } => match part {
            TypePart::Signature => *signature = Some(id),
            TypePart::Equation => *equation = Some(id),
        },
        _ => {},
    }
}

/// Whether a type was declared as one of the sort.
fn has_sort(kind: &IndexedTypeItemKind, sort: TypeSort) -> (same: bool)
    ensures
        same == is_sort(kind@, sort),
{
    match kind {
        IndexedTypeItemKind::Synonym { .. } => sort == TypeSort::Synonym,
        IndexedTypeItemKind::Class { .. } => sort == TypeSort::Class,
        IndexedTypeItemKind::Newtype { .. } => sort == TypeSort::Newtype,
        IndexedTypeItemKind::Data { .. } => sort == TypeSort::Data,
        _ => false,
    }
}

/// Adds a constructor or a member to a type that can have some.
fn attach_child(kind: &mut IndexedTypeItemKind, child: TermItemId)
    requires
        is_sort(old(kind)@, TypeSort::Class) || is_sort(old(kind)@, TypeSort::Newtype) || is_sort(
            old(kind)@,
            TypeSort::Data,
        ),
    ensures
        final(kind)@ == with_child(old(kind)@, child),
{
    match kind {
        IndexedTypeItemKind::Class { members, .. } => members.push(child),
        IndexedTypeItemKind::Newtype { constructors, .. } => constructors.push(child),
        IndexedTypeItemKind::Data { constructors, .. } => constructors.push(child),
        _ => {},
    }
}

fn index_value_signature(state: &mut State, id: AstId, name: &Option<String>) -> (term_id:
    TermItemId)
    requires
        old(state)@.wf(),
        old(state)@.items.room(1),
    ensures
        final(state)@ == old(state)@.value_signature(id, name_text(*name)),
        term_id == old(state)@.joined_term(name_text(*name)),
{
    let Some(active_id) = state.open_term_group(name) else {
        let kind = IndexedTermItemKind::Value { signature: Some(id), equations: Vec::new() };
        return state.alloc_term(copy_name(name), kind);
    };
    let ghost before = state@;
    let kind = ItemKind::ValueSignature(id);
    let existing = ExistingKind::Term(active_id);
    let active = state.items.terms.get(active_id.raw);
    match &active.kind {
        IndexedTermItemKind::Value { signature, .. } => {
            if signature.is_some() {
                state.push_error(IndexingError::DuplicateItem { kind, existing });
            } else {
                let active = state.items.terms.get_mut(active_id.raw);
                match &mut active.kind {
                    IndexedTermItemKind::Value { signature, .. } => {
                        *signature = Some(id);
                    },
                    _ => {},
                }
                assert(state@ =~~= before.value_signature(id, name_text(*name)));
            }
        },
        _ => {
            state.push_error(IndexingError::MismatchedItem { kind, existing });
        },
    }
    active_id
}

fn index_value_equation(state: &mut State, id: AstId, name: &Option<String>) -> (term_id:
    TermItemId)
    requires
        old(state)@.wf(),
        old(state)@.items.room(1),
    ensures
        final(state)@ == old(state)@.value_equation(id, name_text(*name)),
        term_id == old(state)@.joined_term(name_text(*name)),
{
    let Some(active_id) = state.open_term_group(name) else {
        let mut equations: Vec<AstId> = Vec::new();
        equations.push(id);
        assert(equations@ =~= seq![id]);
        let kind = IndexedTermItemKind::Value { signature: None, equations };
        return state.alloc_term(copy_name(name), kind);
    };
    let ghost before = state@;
    let mut joined = false;
    let active = state.items.terms.get_mut(active_id.raw);
    match &mut active.kind {
        IndexedTermItemKind::Value { equations, .. } => {
            equations.push(id);
            joined = true;
        },
        _ => {},
    }
    if !joined {
        let kind = ItemKind::ValueEquation(id);
        let existing = ExistingKind::Term(active_id);
        assert(state@ =~~= before);
        state.push_error(IndexingError::MismatchedItem { kind, existing });
    }
    assert(state@ =~~= before.value_equation(id, name_text(*name)));
    active_id
}

fn index_infix(
    state: &mut State,
    declaration_id: DeclarationId,
    id: AstId,
    type_keyword: bool,
    operator: &Option<String>,
)
    requires
        old(state)@.items.room(1),
    ensures
        final(state)@ == (if type_keyword {
            old(state)@.add_type(name_text(*operator), IndexedTypeItemKind::Operator { id }@).pair_type(
                declaration_id,
                old(state)@.next_type(),
            )
        } else {
            old(state)@.add_term(name_text(*operator), IndexedTermItemKind::Operator { id }@).pair_term(
                declaration_id,
                old(state)@.next_term(),
            )
        }),
{
    let name = copy_name(operator);
    if type_keyword {
        let type_id = state.alloc_type(name, IndexedTypeItemKind::Operator { id });
        state.pair_type(declaration_id, type_id);
    } else {
        let term_id = state.alloc_term(name, IndexedTermItemKind::Operator { id });
        state.pair_term(declaration_id, term_id);
    }
}

fn index_type_role(state: &mut State, id: AstId, name: &Option<String>)
    requires
        old(state)@.wf(),
    ensures
        final(state)@ == old(state)@.type_role(id, name_text(*name)),
{
    let Some(active_id) = state.open_type_group(name) else {
        state.push_error(IndexingError::InvalidRole { id, existing: None });
        return;
    };
    let ghost before = state@;
    let mut error: Option<IndexingError> = None;
    let active = state.items.types.get_mut(active_id.raw);
    match &mut active.kind {
        IndexedTypeItemKind::Data { role, .. } => {
            if role.is_some() {
                error = Some(IndexingError::InvalidRole { id, existing: Some(active_id) });
            } else {
                *role = Some(id);
            }
        },
        IndexedTypeItemKind::Newtype { role, .. } => {
            if role.is_some() {
                error = Some(IndexingError::InvalidRole { id, existing: Some(active_id) });
            } else {
                *role = Some(id);
            }
        },
        IndexedTypeItemKind::Foreign { role, .. } => {
            if role.is_some() {
                error = Some(IndexingError::InvalidRole { id, existing: Some(active_id) });
            } else {
                *role = Some(id);
            }
        },
        _ => {
            error = Some(IndexingError::InvalidRole { id, existing: None });
        },
    }
    if let Some(error) = error {
        assert(state@ =~~= before);
        state.push_error(error);
    }
    assert(state@ =~~= before.type_role(id, name_text(*name)));
}

/// One half of a type's declaration.
fn index_type_part(
    state: &mut State,
    part: TypePart,
    sort: TypeSort,
    id: AstId,
    name: &Option<String>,
) -> (type_id: TypeItemId)
    requires
        old(state)@.wf(),
        old(state)@.items.room(1),
    ensures
        final(state)@ == old(state)@.type_part(part, sort, id, name_text(*name)),
        type_id == old(state)@.joined_type(name_text(*name)),
{
    let Some(active_id) = state.open_type_group(name) else {
        return state.alloc_type(copy_name(name), fresh_type_item(part, sort, id));
    };
    let ghost before = state@;
    let kind = item_kind(part, sort, id);
    let existing = ExistingKind::Type(active_id);
    match declared_part(&state.items.types.get(active_id.raw).kind, part, sort) {
        None => {
            state.push_error(IndexingError::MismatchedItem { kind, existing });
        },
        Some(Some(_)) => {
            state.push_error(IndexingError::DuplicateItem { kind, existing });
        },
        Some(None) => {
            fill_part(&mut state.items.types.get_mut(active_id.raw).kind, part, id);
            assert(state@ =~~= before.type_part(part, sort, id, name_text(*name)));
        },
    }
    active_id
}

fn index_type_signature(
    state: &mut State,
    declaration_id: DeclarationId,
    sort: TypeSort,
    id: AstId,
    name: &Option<String>,
)
    requires
        old(state)@.wf(),
        old(state)@.items.room(1),
    ensures
        final(state)@ == old(state)@.type_part(
            TypePart::Signature,
            sort,
            id,
            name_text(*name),
        ).pair_type(declaration_id, old(state)@.joined_type(name_text(*name))),
{
    let type_id = index_type_part(state, TypePart::Signature, sort, id, name);
    state.pair_type(declaration_id, type_id);
}

/// A constructor or a member of a type.
fn index_child(state: &mut State, type_id: TypeItemId, sort: TypeSort, child: &NamedSyntax)
    requires
        sort != TypeSort::Synonym,
        type_id.raw < old(state)@.items.types.len(),
        old(state)@.items.room(1),
    ensures
        final(state)@ == old(state)@.child(type_id, sort, *child),
{
    let ghost before = state@;
    let id = child.id;
    let attached = has_sort(&state.items.types.get(type_id.raw).kind, sort);
    let kind = if sort == TypeSort::Class {
        IndexedTermItemKind::ClassMember { id, parent: type_id }
    } else {
        IndexedTermItemKind::Constructor { id, type_id: if attached { Some(type_id) } else { None } }
    };
    let term_id = state.alloc_child_term(copy_name(&child.name), kind);
    let ghost added = state@;
    if attached {
        attach_child(&mut state.items.types.get_mut(type_id.raw).kind, term_id);
        assert(state@ =~~= added.set_type_kind(
            type_id,
            with_child(added.type_kind(type_id), term_id),
        ));
    }
    if sort == TypeSort::Class {
        state.pairs.push_class_member_to_term(id, term_id);
    } else {
        state.pairs.push_constructor_to_term(id, term_id);
    }
    assert(state@ =~~= before.child(type_id, sort, *child));
}

/// The equation of a type, with its constructors or members.
fn index_type_declaration(
    state: &mut State,
    declaration_id: DeclarationId,
    sort: TypeSort,
    id: AstId,
    name: &Option<String>,
    children: &Vec<NamedSyntax>,
)
    requires
        sort == TypeSort::Synonym ==> children@.len() == 0,
        old(state)@.wf(),
        old(state)@.items.room(1 + children@.len()),
    ensures
        final(state)@ == old(state)@.type_with_children(
            declaration_id,
            sort,
            id,
            name_text(*name),
            children@,
        ),
{
    let type_id = index_type_part(state, TypePart::Equation, sort, id, name);
    let ghost before = state@;
    let mut index: usize = 0;
    assert(children@.take(0) =~= Seq::empty());
    while index < children.len()
        invariant
            index <= children.len(),
            sort == TypeSort::Synonym ==> children@.len() == 0,
            type_id.raw < before.items.types.len(),
            before.items.room(children@.len()),
            state@ == before.children(type_id, sort, children@.take(index as int)),
            state@.items.types.len() == before.items.types.len(),
            state@.items.terms.len() == before.items.terms.len() + index,
            state@.items.instances.len() == before.items.instances.len(),
            state@.items.derives.len() == before.items.derives.len(),
        decreases children.len() - index,
    {
        assert(children@.take(index + 1).drop_last() =~= children@.take(index as int));
        index_child(state, type_id, sort, &children[index]);
        index += 1;
    }
    assert(children@.take(index as int) =~= children@);
    state.pair_type(declaration_id, type_id);
}

fn index_instance(
    state: &mut State,
    declaration_id: DeclarationId,
    chain_id: InstanceChainId,
    instance: &InstanceSyntax,
    position: u32,
)
    requires
        old(state)@.items.room(1),
    ensures
        final(state)@ == old(state)@.chained_instance(
            declaration_id,
            chain_id,
            *instance,
            position,
        ),
{
    let ghost before = state@;
    let id = instance.id;
    let item_id = state.alloc_instance(IndexedInstanceItem { name: copy_name(&instance.name), id });
    state.pairs.push_instance_chain(id, chain_id, position);
    state.pairs.push_instance_to_item(id, item_id);
    state.pairs.push_declaration_to_instance(declaration_id, item_id);
    let ghost paired = state@;
    let ghost members = instance.members@.map_values(|member: AstId| (instance.id, member));
    let mut index: usize = 0;
    while index < instance.members.len()
        invariant
            index <= instance.members.len(),
            id == instance.id,
            members == instance.members@.map_values(|member: AstId| (instance.id, member)),
            state@ == (Declared {
                pairs: Pairs {
                    instance_members: paired.pairs.instance_members + members.take(index as int),
                    ..paired.pairs
                },
                ..paired
            }),
        decreases instance.members.len() - index,
    {
        let ghost taken = state@.pairs.instance_members;
        state.pairs.push_instance_members(id, instance.members[index]);
        assert(members.take(index + 1) =~= members.take(index as int).push(members[index as int]));
        assert(state@.pairs.instance_members =~= paired.pairs.instance_members + members.take(
            index + 1,
        ));
        assert(state@ =~~= (Declared {
            pairs: Pairs {
                instance_members: paired.pairs.instance_members + members.take(index + 1),
                ..paired.pairs
            },
            ..paired
        }));
        index += 1;
    }
    assert(members.take(index as int) =~= members);
    assert(state@ =~~= before.chained_instance(declaration_id, chain_id, *instance, position));
}

fn index_instance_chain(
    state: &mut State,
    declaration_id: DeclarationId,
    chain_id: InstanceChainId,
    instances: &Vec<InstanceSyntax>,
)
    requires
        old(state)@.items.room(instances@.len()),
    ensures
        final(state)@ == old(state)@.instance_chain(declaration_id, chain_id, instances@),
{
    let ghost before = state@;
    let mut index: usize = 0;
    assert(instances@.take(0) =~= Seq::empty());
    while index < instances.len()
        invariant
            index <= instances.len(),
            before.items.room(instances@.len()),
            state@ == before.instance_chain(
                declaration_id,
                chain_id,
                instances@.take(index as int),
            ),
            state@.items.types.len() == before.items.types.len(),
            state@.items.terms.len() == before.items.terms.len(),
            state@.items.instances.len() == before.items.instances.len() + index,
            state@.items.derives.len() == before.items.derives.len(),
        decreases instances.len() - index,
    {
        assert(instances@.take(index + 1).drop_last() =~= instances@.take(index as int));
        index_instance(state, declaration_id, chain_id, &instances[index], index as u32);
        index += 1;
    }
    assert(instances@.take(index as int) =~= instances@);
}

fn index_derive(
    state: &mut State,
    declaration_id: DeclarationId,
    id: AstId,
    name: &Option<String>,
)
    requires
        old(state)@.items.room(1),
    ensures
        final(state)@ == old(state)@.derived(declaration_id, id, name_text(*name)),
{
    let ghost before = state@;
    let item_id = state.alloc_derive(IndexedDeriveItem { name: copy_name(name), id });
    state.pairs.push_derive_to_item(id, item_id);
    state.pairs.push_declaration_to_derive(declaration_id, item_id);
    assert(state@ =~~= before.derived(declaration_id, id, name_text(*name)));
}

/// Adds one declaration to the items.
pub fn index_declaration(state: &mut State, declaration: &Declaration)
    requires
        old(state)@.wf(),
        old(state)@.items.room(declaration.size()),
    ensures
        final(state)@ == old(state)@.declaration(*declaration),
{
    let declaration_id = declaration.id;
    match &declaration.kind {
        DeclarationKind::ValueSignature { id, name } => {
            let term_id = index_value_signature(state, *id, name);
            state.pair_term(declaration_id, term_id);
        },
        DeclarationKind::ValueEquation { id, name } => {
            let term_id = index_value_equation(state, *id, name);
            state.pair_term(declaration_id, term_id);
        },
        DeclarationKind::Infix { id, type_keyword, operator } => {
            index_infix(state, declaration_id, *id, *type_keyword, operator);
        },
        DeclarationKind::TypeRole { id, name } => {
            index_type_role(state, *id, name);
        },
        DeclarationKind::InstanceChain { id, instances } => {
            index_instance_chain(state, declaration_id, *id, instances);
        },
        DeclarationKind::TypeSynonymSignature { id, name } => {
            index_type_signature(state, declaration_id, TypeSort::Synonym, *id, name);
        },
        DeclarationKind::TypeSynonymEquation { id, name } => {
            let type_id = index_type_part(state, TypePart::Equation, TypeSort::Synonym, *id, name);
            state.pair_type(declaration_id, type_id);
        },
        DeclarationKind::ClassSignature { id, name } => {
            index_type_signature(state, declaration_id, TypeSort::Class, *id, name);
        },
        DeclarationKind::ClassDeclaration { id, name, members } => {
            index_type_declaration(state, declaration_id, TypeSort::Class, *id, name, members);
        },
        DeclarationKind::ForeignImportData { id, name } => {
            let kind = IndexedTypeItemKind::Foreign { id: *id, role: None };
            let type_id = state.alloc_type(copy_name(name), kind);
            state.pair_type(declaration_id, type_id);
        },
        DeclarationKind::ForeignImportValue { id, name } => {
            let kind = IndexedTermItemKind::Foreign { id: *id };
            let term_id = state.alloc_term(copy_name(name), kind);
            state.pair_term(declaration_id, term_id);
        },
        DeclarationKind::NewtypeSignature { id, name } => {
            index_type_signature(state, declaration_id, TypeSort::Newtype, *id, name);
        },
        DeclarationKind::NewtypeEquation { id, name, constructors } => {
            index_type_declaration(
                state,
                declaration_id,
                TypeSort::Newtype,
                *id,
                name,
                constructors,
            );
        },
        DeclarationKind::DataSignature { id, name } => {
            index_type_signature(state, declaration_id, TypeSort::Data, *id, name);
        },
        DeclarationKind::DataEquation { id, name, constructors } => {
            index_type_declaration(state, declaration_id, TypeSort::Data, *id, name, constructors);
        },
        DeclarationKind::Derive { id, name } => {
            index_derive(state, declaration_id, *id, name);
        },
    }
}

} // verus!
