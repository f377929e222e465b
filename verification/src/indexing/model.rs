//! The mathematical model of how declarations become items.

use super::error::{ExistingKind, IndexingError, ItemKind};
use super::items::{
    DeriveItemId, InstanceItem, InstanceItemId, InstanceSourceItemId, OrderedTermItemId, TermItem,
    TermItemId, TermKind, TypeItem, TypeItemId, TypeKind, TypeSort,
};
use super::pairs::Pairs;
use super::source::{
    name_text, AstId, Declaration, DeclarationId, DeclarationKind, InstanceChainId, InstanceSyntax,
    NamedSyntax,
};
use vstd::prelude::*;

verus! {

/// The views of a sequence of values.
pub open spec fn views<T: View>(values: Seq<T>) -> Seq<T::V> {
    Seq::new(values.len(), |i: int| values[i]@)
}

/// The item that a directly following declaration of the same name joins.
#[derive(Clone, Copy, Debug, PartialEq, Eq, Structural)]
pub enum OpenItemGroup {
    Term(TermItemId),
    Type(TypeItemId),
}

/// The half of a type's declaration that a node stands for.
#[derive(Clone, Copy, Debug, PartialEq, Eq, Structural)]
pub enum TypePart {
    Signature,
    Equation,
}

/// All items of a module.
#[verifier::ext_equal]
pub struct Items {
    pub terms: Seq<TermItem>,
    pub types: Seq<TypeItem>,
    pub instances: Seq<InstanceItem>,
    pub derives: Seq<InstanceItem>,
    pub instance_sources: Seq<InstanceSourceItemId>,
    pub ordered_terms: Seq<OrderedTermItemId>,
}

impl Items {
    pub open spec fn empty() -> Items {
        Items {
            terms: Seq::empty(),
            types: Seq::empty(),
            instances: Seq::empty(),
            derives: Seq::empty(),
            instance_sources: Seq::empty(),
            ordered_terms: Seq::empty(),
        }
    }

    /// There are positions left for `count` more items of each kind.
    pub open spec fn room(self, count: nat) -> bool {
        &&& self.terms.len() + count <= u32::MAX
        &&& self.types.len() + count <= u32::MAX
        &&& self.instances.len() + count <= u32::MAX
        &&& self.derives.len() + count <= u32::MAX
    }
}

/// What has been collected from the declarations so far.
#[verifier::ext_equal]
pub struct Declared {
    pub open: Option<OpenItemGroup>,
    pub items: Items,
    pub pairs: Pairs,
    pub errors: Seq<IndexingError>,
}

/// How an error names one half of a type's declaration.
pub open spec fn part_kind(part: TypePart, sort: TypeSort, id: AstId) -> ItemKind {
    match (part, sort) {
        (TypePart::Signature, TypeSort::Synonym) => ItemKind::SynonymSignature(id),
        (TypePart::Signature, TypeSort::Class) => ItemKind::ClassSignature(id),
        (TypePart::Signature, TypeSort::Newtype) => ItemKind::NewtypeSignature(id),
        (TypePart::Signature, TypeSort::Data) => ItemKind::DataSignature(id),
        (TypePart::Equation, TypeSort::Synonym) => ItemKind::SynonymEquation(id),
        (TypePart::Equation, TypeSort::Class) => ItemKind::ClassDeclaration(id),
        (TypePart::Equation, TypeSort::Newtype) => ItemKind::NewtypeEquation(id),
        (TypePart::Equation, TypeSort::Data) => ItemKind::DataEquation(id),
    }
}

/// The half that a node of a type's declaration fills: nothing where the type
/// is of another sort.
pub open spec fn part_of(kind: TypeKind, part: TypePart, sort: TypeSort) -> Option<Option<AstId>> {
    match kind {
        TypeKind::Declared { sort: actual, signature, equation, .. } if actual == sort => match part {
            TypePart::Signature => Some(signature),
            TypePart::Equation => Some(equation),
        },
        _ => None,
    }
}

/// The type with one half of its declaration filled.
pub open spec fn with_part(kind: TypeKind, part: TypePart, id: AstId) -> TypeKind {
    match kind {
        TypeKind::Declared { sort, signature, equation, role, children } => match part {
            TypePart::Signature => TypeKind::Declared {
                sort,
                signature: Some(id),
                equation,
                role,
                children,
            },
            TypePart::Equation => TypeKind::Declared {
                sort,
                signature,
                equation: Some(id),
                role,
                children,
            },
        },
        _ => kind,
    }
}

/// A type of which only one half has been seen.
pub open spec fn fresh_type(part: TypePart, sort: TypeSort, id: AstId) -> TypeKind {
    with_part(
        TypeKind::Declared {
            sort,
            signature: None,
            equation: None,
            role: None,
            children: Seq::empty(),
        },
        part,
        id,
    )
}

/// Whether a type was declared as one of the sort.
pub open spec fn is_sort(kind: TypeKind, sort: TypeSort) -> bool {
    kind matches TypeKind::Declared { sort: actual, .. } && actual == sort
}

/// The type with one more constructor or member.
pub open spec fn with_child(kind: TypeKind, child: TermItemId) -> TypeKind {
    match kind {
        TypeKind::Declared { sort, signature, equation, role, children } => TypeKind::Declared {
            sort,
            signature,
            equation,
            role,
            children: children.push(child),
        },
        _ => kind,
    }
}

impl Declared {
    pub open spec fn empty() -> Declared {
        Declared { open: None, items: Items::empty(), pairs: Pairs::empty(), errors: Seq::empty() }
    }

    /// The open item exists.
    pub open spec fn wf(self) -> bool {
        &&& self.open matches Some(OpenItemGroup::Term(id)) ==> id.raw < self.items.terms.len()
        &&& self.open matches Some(OpenItemGroup::Type(id)) ==> id.raw < self.items.types.len()
    }

    pub open spec fn with_error(self, error: IndexingError) -> Declared {
        Declared { errors: self.errors.push(error), ..self }
    }

    /// The term that a declaration of this name joins.
    pub open spec fn open_term(self, name: Option<Seq<char>>) -> Option<TermItemId> {
        match self.open {
            Some(OpenItemGroup::Term(id)) if self.items.terms[id.raw as int].name == name => Some(
                id,
            ),
            _ => None,
        }
    }

    /// The type that a declaration of this name joins.
    pub open spec fn open_type(self, name: Option<Seq<char>>) -> Option<TypeItemId> {
        match self.open {
            Some(OpenItemGroup::Type(id)) if self.items.types[id.raw as int].name == name => Some(
                id,
            ),
            _ => None,
        }
    }

    pub open spec fn next_term(self) -> TermItemId {
        TermItemId { raw: self.items.terms.len() as u32 }
    }

    pub open spec fn next_type(self) -> TypeItemId {
        TypeItemId { raw: self.items.types.len() as u32 }
    }

    pub open spec fn next_instance(self) -> InstanceItemId {
        InstanceItemId { raw: self.items.instances.len() as u32 }
    }

    pub open spec fn next_derive(self) -> DeriveItemId {
        DeriveItemId { raw: self.items.derives.len() as u32 }
    }

    /// One more term; the open item stays.
    pub open spec fn add_child_term(self, name: Option<Seq<char>>, kind: TermKind) -> Declared {
        Declared {
            items: Items {
                terms: self.items.terms.push(TermItem { name, kind, exported: false }),
                ordered_terms: self.items.ordered_terms.push(
                    OrderedTermItemId::Term(self.next_term()),
                ),
                ..self.items
            },
            ..self
        }
    }

    /// One more term, which is open from now on.
    pub open spec fn add_term(self, name: Option<Seq<char>>, kind: TermKind) -> Declared {
        Declared {
            open: Some(OpenItemGroup::Term(self.next_term())),
            ..self.add_child_term(name, kind)
        }
    }

    /// One more type, which is open from now on.
    pub open spec fn add_type(self, name: Option<Seq<char>>, kind: TypeKind) -> Declared {
        Declared {
            open: Some(OpenItemGroup::Type(self.next_type())),
            items: Items {
                types: self.items.types.push(TypeItem { name, kind, exported: false }),
                ..self.items
            },
            ..self
        }
    }

    /// One more instance; no item is open from now on.
    pub open spec fn add_instance(self, name: Option<Seq<char>>, id: AstId) -> Declared {
        let item = self.next_instance();
        Declared {
            open: None,
            items: Items {
                instances: self.items.instances.push(InstanceItem { name, id }),
                instance_sources: self.items.instance_sources.push(
                    InstanceSourceItemId::Instance(item),
                ),
                ordered_terms: self.items.ordered_terms.push(OrderedTermItemId::Instance(item)),
                ..self.items
            },
            ..self
        }
    }

    /// One more derived instance; no item is open from now on.
    pub open spec fn add_derive(self, name: Option<Seq<char>>, id: AstId) -> Declared {
        let item = self.next_derive();
        Declared {
            open: None,
            items: Items {
                derives: self.items.derives.push(InstanceItem { name, id }),
                instance_sources: self.items.instance_sources.push(
                    InstanceSourceItemId::Derive(item),
                ),
                ordered_terms: self.items.ordered_terms.push(OrderedTermItemId::Derive(item)),
                ..self.items
            },
            ..self
        }
    }

    pub open spec fn set_term_kind(self, id: TermItemId, kind: TermKind) -> Declared {
        let item = self.items.terms[id.raw as int];
        Declared {
            items: Items {
                terms: self.items.terms.update(id.raw as int, TermItem { kind, ..item }),
                ..self.items
            },
            ..self
        }
    }

    pub open spec fn set_type_kind(self, id: TypeItemId, kind: TypeKind) -> Declared {
        let item = self.items.types[id.raw as int];
        Declared {
            items: Items {
                types: self.items.types.update(id.raw as int, TypeItem { kind, ..item }),
                ..self.items
            },
            ..self
        }
    }

    pub open spec fn term_kind(self, id: TermItemId) -> TermKind {
        self.items.terms[id.raw as int].kind
    }

    pub open spec fn type_kind(self, id: TypeItemId) -> TypeKind {
        self.items.types[id.raw as int].kind
    }

    /// The item that a value's signature or equation belongs to.
    pub open spec fn joined_term(self, name: Option<Seq<char>>) -> TermItemId {
        match self.open_term(name) {
            Some(id) => id,
            None => self.next_term(),
        }
    }

    /// The item that one half of a type's declaration belongs to.
    pub open spec fn joined_type(self, name: Option<Seq<char>>) -> TypeItemId {
        match self.open_type(name) {
            Some(id) => id,
            None => self.next_type(),
        }
    }

    /// A value has at most one signature; it joins the open value of its name.
    pub open spec fn value_signature(self, id: AstId, name: Option<Seq<char>>) -> Declared {
        match self.open_term(name) {
            None => self.add_term(
                name,
                TermKind::Value { signature: Some(id), equations: Seq::empty() },
            ),
            Some(active) => match self.term_kind(active) {
                TermKind::Value { signature: None, equations } => self.set_term_kind(
                    active,
                    TermKind::Value { signature: Some(id), equations },
                ),
                TermKind::Value { signature: Some(_), .. } => self.with_error(
                    IndexingError::DuplicateItem {
                        kind: ItemKind::ValueSignature(id),
                        existing: ExistingKind::Term(active),
                    },
                ),
                _ => self.with_error(
                    IndexingError::MismatchedItem {
                        kind: ItemKind::ValueSignature(id),
                        existing: ExistingKind::Term(active),
                    },
                ),
            },
        }
    }

    /// An equation joins the open value of its name.
    pub open spec fn value_equation(self, id: AstId, name: Option<Seq<char>>) -> Declared {
        match self.open_term(name) {
            None => self.add_term(
                name,
                TermKind::Value { signature: None, equations: seq![id] },
            ),
            Some(active) => match self.term_kind(active) {
                TermKind::Value { signature, equations } => self.set_term_kind(
                    active,
                    TermKind::Value { signature, equations: equations.push(id) },
                ),
                _ => self.with_error(
                    IndexingError::MismatchedItem {
                        kind: ItemKind::ValueEquation(id),
                        existing: ExistingKind::Term(active),
                    },
                ),
            },
        }
    }

    /// A role belongs to the open data type, newtype or foreign type of its
    /// name, which has none yet.
    pub open spec fn type_role(self, id: AstId, name: Option<Seq<char>>) -> Declared {
        match self.open_type(name) {
            None => self.with_error(IndexingError::InvalidRole { id, existing: None }),
            Some(active) => match self.type_kind(active) {
                TypeKind::Declared { sort, signature, equation, role, children } if sort
                    == TypeSort::Data || sort == TypeSort::Newtype => match role {
                    Some(_) => self.with_error(
                        IndexingError::InvalidRole { id, existing: Some(active) },
                    ),
                    None => self.set_type_kind(
                        active,
                        TypeKind::Declared { sort, signature, equation, role: Some(id), children },
                    ),
                },
                TypeKind::Foreign { id: foreign, role } => match role {
                    Some(_) => self.with_error(
                        IndexingError::InvalidRole { id, existing: Some(active) },
                    ),
                    None => self.set_type_kind(
                        active,
                        TypeKind::Foreign { id: foreign, role: Some(id) },
                    ),
                },
                _ => self.with_error(IndexingError::InvalidRole { id, existing: None }),
            },
        }
    }

    /// One half of a type's declaration joins the open type of its name, which
    /// must be of the same sort and without that half.
    pub open spec fn type_part(
        self,
        part: TypePart,
        sort: TypeSort,
        id: AstId,
        name: Option<Seq<char>>,
    ) -> Declared {
        match self.open_type(name) {
            None => self.add_type(name, fresh_type(part, sort, id)),
            Some(active) => match part_of(self.type_kind(active), part, sort) {
                None => self.with_error(
                    IndexingError::MismatchedItem {
                        kind: part_kind(part, sort, id),
                        existing: ExistingKind::Type(active),
                    },
                ),
                Some(Some(_)) => self.with_error(
                    IndexingError::DuplicateItem {
                        kind: part_kind(part, sort, id),
                        existing: ExistingKind::Type(active),
                    },
                ),
                Some(None) => self.set_type_kind(
                    active,
                    with_part(self.type_kind(active), part, id),
                ),
            },
        }
    }

    /// A constructor or a member of a type. Where the type turned out to be of
    /// another sort, a constructor has no type; a member keeps its parent, but
    /// is no member of it.
    pub open spec fn child(self, type_id: TypeItemId, sort: TypeSort, child: NamedSyntax) -> Declared {
        let term = self.next_term();
        let attached = is_sort(self.type_kind(type_id), sort);
        let kind = if sort == TypeSort::Class {
            TermKind::ClassMember { id: child.id, parent: type_id }
        } else {
            TermKind::Constructor {
                id: child.id,
                type_id: if attached {
                    Some(type_id)
                } else {
                    None
                },
            }
        };
        let added = self.add_child_term(name_text(child.name), kind);
        let linked = if attached {
            added.set_type_kind(type_id, with_child(added.type_kind(type_id), term))
        } else {
            added
        };
        if sort == TypeSort::Class {
            Declared {
                pairs: Pairs {
                    class_member_to_term: self.pairs.class_member_to_term.push((child.id, term)),
                    ..self.pairs
                },
                ..linked
            }
        } else {
            Declared {
                pairs: Pairs {
                    constructor_to_term: self.pairs.constructor_to_term.push((child.id, term)),
                    ..self.pairs
                },
                ..linked
            }
        }
    }

    pub open spec fn children(
        self,
        type_id: TypeItemId,
        sort: TypeSort,
        children: Seq<NamedSyntax>,
    ) -> Declared
        decreases children.len(),
    {
        if children.len() == 0 {
            self
        } else {
            self.children(type_id, sort, children.drop_last()).child(type_id, sort, children.last())
        }
    }

    /// The equation of a type, with its constructors or members.
    pub open spec fn type_with_children(
        self,
        declaration: DeclarationId,
        sort: TypeSort,
        id: AstId,
        name: Option<Seq<char>>,
        children: Seq<NamedSyntax>,
    ) -> Declared {
        let type_id = self.joined_type(name);
        self.type_part(TypePart::Equation, sort, id, name).children(
            type_id,
            sort,
            children,
        ).pair_type(declaration, type_id)
    }

    pub open spec fn pair_term(self, declaration: DeclarationId, item: TermItemId) -> Declared {
        Declared {
            pairs: Pairs {
                declaration_to_term: self.pairs.declaration_to_term.push((declaration, item)),
                ..self.pairs
            },
            ..self
        }
    }

    pub open spec fn pair_type(self, declaration: DeclarationId, item: TypeItemId) -> Declared {
        Declared {
            pairs: Pairs {
                declaration_to_type: self.pairs.declaration_to_type.push((declaration, item)),
                ..self.pairs
            },
            ..self
        }
    }

    /// One instance of a chain.
    pub open spec fn chained_instance(
        self,
        declaration: DeclarationId,
        chain: InstanceChainId,
        instance: InstanceSyntax,
        position: u32,
    ) -> Declared {
        let item = self.next_instance();
        Declared {
            pairs: Pairs {
                instance_chain: self.pairs.instance_chain.push((instance.id, chain, position)),
                instance_to_item: self.pairs.instance_to_item.push((instance.id, item)),
                declaration_to_instance: self.pairs.declaration_to_instance.push(
                    (declaration, item),
                ),
                instance_members: self.pairs.instance_members + instance.members@.map_values(
                    |member: AstId| (instance.id, member),
                ),
                ..self.pairs
            },
            ..self.add_instance(name_text(instance.name), instance.id)
        }
    }

    /// All instances of a chain, in order.
    pub open spec fn instance_chain(
        self,
        declaration: DeclarationId,
        chain: InstanceChainId,
        instances: Seq<InstanceSyntax>,
    ) -> Declared
        decreases instances.len(),
    {
        if instances.len() == 0 {
            self
        } else {
            self.instance_chain(declaration, chain, instances.drop_last()).chained_instance(
                declaration,
                chain,
                instances.last(),
                (instances.len() - 1) as u32,
            )
        }
    }

    /// A derived instance.
    pub open spec fn derived(
        self,
        declaration: DeclarationId,
        id: AstId,
        name: Option<Seq<char>>,
    ) -> Declared {
        let item = self.next_derive();
        Declared {
            pairs: Pairs {
                derive_to_item: self.pairs.derive_to_item.push((id, item)),
                declaration_to_derive: self.pairs.declaration_to_derive.push((declaration, item)),
                ..self.pairs
            },
            ..self.add_derive(name, id)
        }
    }

    /// What one more declaration adds.
    pub open spec fn declaration(self, declaration: Declaration) -> Declared {
        let pair = declaration.id;
        match declaration.kind {
            DeclarationKind::ValueSignature { id, name } => self.value_signature(
                id,
                name_text(name),
            ).pair_term(pair, self.joined_term(name_text(name))),
            DeclarationKind::ValueEquation { id, name } => self.value_equation(
                id,
                name_text(name),
            ).pair_term(pair, self.joined_term(name_text(name))),
            DeclarationKind::Infix { id, type_keyword, operator } => if type_keyword {
                self.add_type(name_text(operator), TypeKind::Operator { id }).pair_type(
                    pair,
                    self.next_type(),
                )
            } else {
                self.add_term(name_text(operator), TermKind::Operator { id }).pair_term(
                    pair,
                    self.next_term(),
                )
            },
            DeclarationKind::TypeRole { id, name } => self.type_role(id, name_text(name)),
            DeclarationKind::InstanceChain { id, instances } => self.instance_chain(
                pair,
                id,
                instances@,
            ),
            DeclarationKind::TypeSynonymSignature { id, name } => self.type_part(
                TypePart::Signature,
                TypeSort::Synonym,
                id,
                name_text(name),
            ).pair_type(pair, self.joined_type(name_text(name))),
            DeclarationKind::TypeSynonymEquation { id, name } => self.type_part(
                TypePart::Equation,
                TypeSort::Synonym,
                id,
                name_text(name),
            ).pair_type(pair, self.joined_type(name_text(name))),
            DeclarationKind::ClassSignature { id, name } => self.type_part(
                TypePart::Signature,
                TypeSort::Class,
                id,
                name_text(name),
            ).pair_type(pair, self.joined_type(name_text(name))),
            DeclarationKind::ClassDeclaration { id, name, members } => self.type_with_children(
                pair,
                TypeSort::Class,
                id,
                name_text(name),
                members@,
            ),
            DeclarationKind::ForeignImportData { id, name } => self.add_type(
                name_text(name),
                TypeKind::Foreign { id, role: None },
            ).pair_type(pair, self.next_type()),
            DeclarationKind::ForeignImportValue { id, name } => self.add_term(
                name_text(name),
                TermKind::Foreign { id },
            ).pair_term(pair, self.next_term()),
            DeclarationKind::NewtypeSignature { id, name } => self.type_part(
                TypePart::Signature,
                TypeSort::Newtype,
                id,
                name_text(name),
            ).pair_type(pair, self.joined_type(name_text(name))),
            DeclarationKind::NewtypeEquation { id, name, constructors } => self.type_with_children(
                pair,
                TypeSort::Newtype,
                id,
                name_text(name),
                constructors@,
            ),
            DeclarationKind::DataSignature { id, name } => self.type_part(
                TypePart::Signature,
                TypeSort::Data,
                id,
                name_text(name),
            ).pair_type(pair, self.joined_type(name_text(name))),
            DeclarationKind::DataEquation { id, name, constructors } => self.type_with_children(
                pair,
                TypeSort::Data,
                id,
                name_text(name),
                constructors@,
            ),
            DeclarationKind::Derive { id, name } => self.derived(pair, id, name_text(name)),
        }
    }

    /// What a list of declarations adds.
    pub open spec fn declarations(self, declarations: Seq<Declaration>) -> Declared
        decreases declarations.len(),
    {
        if declarations.len() == 0 {
            self
        } else {
            self.declarations(declarations.drop_last()).declaration(declarations.last())
        }
    }
}

} // verus!
