//! What declarations mean for the items of a module: each of them is found again in an
//! item of its name, or is reported.

use super::error::{IndexingError, ItemKind};
use super::items::{TermItem, TermItemId, TermKind, TypeItem, TypeItemId, TypeKind, TypeSort};
use super::laws::lemma_declarations_sound;
use super::model::{
    fresh_type, is_sort, part_kind, part_of, with_child, with_part, Declared, Items, TypePart,
};
use super::source::{
    declarations_size, name_text, AstId, Declaration, DeclarationKind, InstanceSyntax, NamedSyntax,
};
use vstd::prelude::*;

verus! {

// What stays

/// A part stays where it was filled.
pub open spec fn part_stays(before: Option<AstId>, after: Option<AstId>) -> bool {
    before is Some ==> after == before
}

/// A term keeps its name and what was declared of it.
pub open spec fn term_stays(before: TermItem, after: TermItem) -> bool {
    &&& after.name == before.name
    &&& match (before.kind, after.kind) {
        (
            TermKind::Value { signature, equations },
            TermKind::Value { signature: later, equations: all },
        ) => part_stays(signature, later) && equations.is_prefix_of(all),
        (kind, other) => kind == other,
    }
}

/// A type keeps its name and what was declared of it.
pub open spec fn type_stays(before: TypeItem, after: TypeItem) -> bool {
    &&& after.name == before.name
    &&& match (before.kind, after.kind) {
        (
            TypeKind::Declared { sort, signature, equation, role, children },
            TypeKind::Declared {
                sort: own,
                signature: later_signature,
                equation: later_equation,
                role: later_role,
                children: all,
            },
        ) => {
            &&& own == sort
            &&& part_stays(signature, later_signature)
            &&& part_stays(equation, later_equation)
            &&& part_stays(role, later_role)
            &&& children.is_prefix_of(all)
        },
        (TypeKind::Foreign { id, role }, TypeKind::Foreign { id: own, role: later }) => own == id
            && part_stays(role, later),
        (kind, other) => kind == other,
    }
}

/// Items stay at their places, and complaints are not taken back.
pub open spec fn stays(before: Declared, after: Declared) -> bool {
    &&& before.items.terms.len() <= after.items.terms.len()
    &&& before.items.types.len() <= after.items.types.len()
    &&& before.items.instances.is_prefix_of(after.items.instances)
    &&& before.items.derives.is_prefix_of(after.items.derives)
    &&& before.errors.is_prefix_of(after.errors)
    &&& forall|i: int|
        0 <= i < before.items.terms.len() ==> term_stays(
            #[trigger] before.items.terms[i],
            after.items.terms[i],
        )
    &&& forall|i: int|
        0 <= i < before.items.types.len() ==> type_stays(
            #[trigger] before.items.types[i],
            after.items.types[i],
        )
}

proof fn lemma_stays_reflexive(declared: Declared)
    ensures
        stays(declared, declared),
{
}

proof fn lemma_stays_transitive(first: Declared, second: Declared, third: Declared)
    requires
        stays(first, second),
        stays(second, third),
    ensures
        stays(first, third),
{
    assert forall|i: int| 0 <= i < first.items.terms.len() implies term_stays(
        #[trigger] first.items.terms[i],
        third.items.terms[i],
    ) by {
        assert(term_stays(first.items.terms[i], second.items.terms[i]));
        assert(term_stays(second.items.terms[i], third.items.terms[i]));
    }
    assert forall|i: int| 0 <= i < first.items.types.len() implies type_stays(
        #[trigger] first.items.types[i],
        third.items.types[i],
    ) by {
        assert(type_stays(first.items.types[i], second.items.types[i]));
        assert(type_stays(second.items.types[i], third.items.types[i]));
    }
}

proof fn lemma_add_stays(declared: Declared, name: Option<Seq<char>>, term: TermKind, kind: TypeKind)
    ensures
        stays(declared, declared.add_child_term(name, term)),
        stays(declared, declared.add_term(name, term)),
        stays(declared, declared.add_type(name, kind)),
{
}

proof fn lemma_error_stays(declared: Declared, error: IndexingError)
    ensures
        stays(declared, declared.with_error(error)),
        declared.with_error(error).errors.contains(error),
{
    let after = declared.with_error(error);
    assert(after.errors.last() == error);
}

proof fn lemma_set_term_stays(declared: Declared, id: TermItemId, kind: TermKind)
    requires
        id.raw < declared.items.terms.len(),
        term_stays(
            declared.items.terms[id.raw as int],
            TermItem { kind, ..declared.items.terms[id.raw as int] },
        ),
    ensures
        stays(declared, declared.set_term_kind(id, kind)),
{
}

proof fn lemma_set_type_stays(declared: Declared, id: TypeItemId, kind: TypeKind)
    requires
        id.raw < declared.items.types.len(),
        type_stays(
            declared.items.types[id.raw as int],
            TypeItem { kind, ..declared.items.types[id.raw as int] },
        ),
    ensures
        stays(declared, declared.set_type_kind(id, kind)),
{
}

// What is found

/// The complaint is about the node.
pub open spec fn is_reported(errors: Seq<IndexingError>, node: ItemKind) -> bool {
    exists|i: int|
        0 <= i < errors.len() && match #[trigger] errors[i] {
            IndexingError::DuplicateItem { kind, .. } => kind == node,
            IndexingError::MismatchedItem { kind, .. } => kind == node,
            _ => false,
        }
}

/// The complaint is about the role.
pub open spec fn is_invalid_role(errors: Seq<IndexingError>, node: AstId) -> bool {
    exists|i: int|
        0 <= i < errors.len() && (#[trigger] errors[i] matches IndexingError::InvalidRole { id, .. }
            && id == node)
}

/// The term is a value of the name with the signature.
pub open spec fn has_signature(item: TermItem, name: Option<Seq<char>>, id: AstId) -> bool {
    item.name == name && (item.kind matches TermKind::Value { signature, .. } && signature == Some(
        id,
    ))
}

/// The term is a value of the name with the equation.
pub open spec fn has_equation(item: TermItem, name: Option<Seq<char>>, id: AstId) -> bool {
    item.name == name && (item.kind matches TermKind::Value { equations, .. } && equations.contains(
        id,
    ))
}

/// The type is one of the sort and the name with the part.
pub open spec fn has_part(
    item: TypeItem,
    sort: TypeSort,
    name: Option<Seq<char>>,
    part: TypePart,
    id: AstId,
) -> bool {
    item.name == name && (item.kind matches TypeKind::Declared {
        sort: own,
        signature,
        equation,
        ..
    } && own == sort && match part {
        TypePart::Signature => signature == Some(id),
        TypePart::Equation => equation == Some(id),
    })
}

/// The type bears the name and has the role.
pub open spec fn has_role(item: TypeItem, name: Option<Seq<char>>, id: AstId) -> bool {
    item.name == name && match item.kind {
        TypeKind::Declared { sort, role, .. } => role == Some(id) && (sort == TypeSort::Data || sort
            == TypeSort::Newtype),
        TypeKind::Foreign { role, .. } => role == Some(id),
        TypeKind::Operator { .. } => false,
    }
}

/// A child is a term of its name; where it is attached to a type, the type has it as a
/// child.
pub open spec fn child_found(items: Items, sort: TypeSort, child: NamedSyntax) -> bool {
    exists|t: int|
        0 <= t < items.terms.len() && (#[trigger] items.terms[t]).name == name_text(child.name)
            && match items.terms[t].kind {
            TermKind::ClassMember { id, .. } => sort == TypeSort::Class && id == child.id,
            TermKind::Constructor { id, .. } => sort != TypeSort::Class && id == child.id,
            _ => false,
        }
}

/// Some term is so.
pub open spec fn some_term(items: Items, holds: spec_fn(TermItem) -> bool) -> bool {
    exists|t: int| 0 <= t < items.terms.len() && holds(#[trigger] items.terms[t])
}

/// Some type is so.
pub open spec fn some_type(items: Items, holds: spec_fn(TypeItem) -> bool) -> bool {
    exists|t: int| 0 <= t < items.types.len() && holds(#[trigger] items.types[t])
}

/// One half of a type's declaration is found in a type of its sort and name, or is
/// reported.
pub open spec fn part_found(
    declared: Declared,
    sort: TypeSort,
    name: Option<Seq<char>>,
    part: TypePart,
    id: AstId,
    node: ItemKind,
) -> bool {
    some_type(declared.items, |item: TypeItem| has_part(item, sort, name, part, id)) || is_reported(
        declared.errors,
        node,
    )
}

/// All children are found.
pub open spec fn children_found(items: Items, sort: TypeSort, children: Seq<NamedSyntax>) -> bool {
    forall|c: int| 0 <= c < children.len() ==> child_found(items, sort, #[trigger] children[c])
}

/// The declaration is found in the items: in one of its name and its kind. Where a
/// second signature, an item of another kind or a misplaced role rules that out, it is
/// reported.
pub open spec fn is_found(declared: Declared, declaration: Declaration) -> bool {
    let items = declared.items;
    match declaration.kind {
        DeclarationKind::ValueSignature { id, name } => some_term(
            items,
            |item: TermItem| has_signature(item, name_text(name), id),
        ) || is_reported(declared.errors, ItemKind::ValueSignature(id)),
        DeclarationKind::ValueEquation { id, name } => some_term(
            items,
            |item: TermItem| has_equation(item, name_text(name), id),
        ) || is_reported(declared.errors, ItemKind::ValueEquation(id)),
        DeclarationKind::Infix { id, type_keyword, operator } => if type_keyword {
            some_type(
                items,
                |item: TypeItem|
                    item.name == name_text(operator) && item.kind == (TypeKind::Operator { id }),
            )
        } else {
            some_term(
                items,
                |item: TermItem|
                    item.name == name_text(operator) && item.kind == (TermKind::Operator { id }),
            )
        },
        DeclarationKind::TypeRole { id, name } => some_type(
            items,
            |item: TypeItem| has_role(item, name_text(name), id),
        ) || is_invalid_role(declared.errors, id),
        DeclarationKind::InstanceChain { instances, .. } => forall|i: int|
            0 <= i < instances@.len() ==> #[trigger] instance_found(items, instances@[i]),
        DeclarationKind::TypeSynonymSignature { id, name } => part_found(
            declared,
            TypeSort::Synonym,
            name_text(name),
            TypePart::Signature,
            id,
            ItemKind::SynonymSignature(id),
        ),
        DeclarationKind::TypeSynonymEquation { id, name } => part_found(
            declared,
            TypeSort::Synonym,
            name_text(name),
            TypePart::Equation,
            id,
            ItemKind::SynonymEquation(id),
        ),
        DeclarationKind::ClassSignature { id, name } => part_found(
            declared,
            TypeSort::Class,
            name_text(name),
            TypePart::Signature,
            id,
            ItemKind::ClassSignature(id),
        ),
        DeclarationKind::ClassDeclaration { id, name, members } => part_found(
            declared,
            TypeSort::Class,
            name_text(name),
            TypePart::Equation,
            id,
            ItemKind::ClassDeclaration(id),
        ) && children_found(items, TypeSort::Class, members@),
        DeclarationKind::ForeignImportData { id, name } => some_type(
            items,
            |item: TypeItem|
                item.name == name_text(name) && (item.kind matches TypeKind::Foreign {
                    id: own,
                    ..
                } && own == id),
        ),
        DeclarationKind::ForeignImportValue { id, name } => some_term(
            items,
            |item: TermItem|
                item.name == name_text(name) && item.kind == (TermKind::Foreign { id }),
        ),
        DeclarationKind::NewtypeSignature { id, name } => part_found(
            declared,
            TypeSort::Newtype,
            name_text(name),
            TypePart::Signature,
            id,
            ItemKind::NewtypeSignature(id),
        ),
        DeclarationKind::NewtypeEquation { id, name, constructors } => part_found(
            declared,
            TypeSort::Newtype,
            name_text(name),
            TypePart::Equation,
            id,
            ItemKind::NewtypeEquation(id),
        ) && children_found(items, TypeSort::Newtype, constructors@),
        DeclarationKind::DataSignature { id, name } => part_found(
            declared,
            TypeSort::Data,
            name_text(name),
            TypePart::Signature,
            id,
            ItemKind::DataSignature(id),
        ),
        DeclarationKind::DataEquation { id, name, constructors } => part_found(
            declared,
            TypeSort::Data,
            name_text(name),
            TypePart::Equation,
            id,
            ItemKind::DataEquation(id),
        ) && children_found(items, TypeSort::Data, constructors@),
        DeclarationKind::Derive { id, name } => exists|i: int|
            0 <= i < items.derives.len() && (#[trigger] items.derives[i]).id == id
                && items.derives[i].name == name_text(name),
    }
}

/// The instance is one of the items, under its name.
pub open spec fn instance_found(items: Items, instance: InstanceSyntax) -> bool {
    exists|i: int|
        0 <= i < items.instances.len() && (#[trigger] items.instances[i]).id == instance.id
            && items.instances[i].name == name_text(instance.name)
}

proof fn lemma_child_found_stays(
    before: Declared,
    after: Declared,
    sort: TypeSort,
    child: NamedSyntax,
)
    requires
        stays(before, after),
        child_found(before.items, sort, child),
    ensures
        child_found(after.items, sort, child),
{
    let t = choose|t: int|
        0 <= t < before.items.terms.len() && (#[trigger] before.items.terms[t]).name == name_text(
            child.name,
        ) && match before.items.terms[t].kind {
            TermKind::ClassMember { id, .. } => sort == TypeSort::Class && id == child.id,
            TermKind::Constructor { id, .. } => sort != TypeSort::Class && id == child.id,
            _ => false,
        };
    assert(term_stays(before.items.terms[t], after.items.terms[t]));
}

proof fn lemma_reported_stays(before: Declared, after: Declared)
    requires
        stays(before, after),
    ensures
        forall|node: ItemKind| #[trigger]
            is_reported(before.errors, node) ==> is_reported(after.errors, node),
        forall|id: AstId| #[trigger]
            is_invalid_role(before.errors, id) ==> is_invalid_role(after.errors, id),
{
    assert forall|node: ItemKind| #[trigger] is_reported(before.errors, node) implies is_reported(
        after.errors,
        node,
    ) by {
        let i = choose|i: int|
            0 <= i < before.errors.len() && match #[trigger] before.errors[i] {
                IndexingError::DuplicateItem { kind, .. } => kind == node,
                IndexingError::MismatchedItem { kind, .. } => kind == node,
                _ => false,
            };
        assert(after.errors[i] == before.errors[i]);
    }
    assert forall|id: AstId| #[trigger]
        is_invalid_role(before.errors, id) implies is_invalid_role(after.errors, id) by {
        let i = choose|i: int|
            0 <= i < before.errors.len() && (#[trigger] before.errors[i]
                matches IndexingError::InvalidRole { id: own, .. } && own == id);
        assert(after.errors[i] == before.errors[i]);
    }
}

proof fn lemma_term_found_stays(
    before: Declared,
    after: Declared,
    holds: spec_fn(TermItem) -> bool,
)
    requires
        stays(before, after),
        forall|one: TermItem, two: TermItem| #[trigger]
            term_stays(one, two) && holds(one) ==> holds(two),
        some_term(before.items, holds),
    ensures
        some_term(after.items, holds),
{
    let t = choose|t: int|
        0 <= t < before.items.terms.len() && holds(#[trigger] before.items.terms[t]);
    assert(term_stays(before.items.terms[t], after.items.terms[t]));
    assert(holds(after.items.terms[t]));
}

proof fn lemma_type_found_stays(
    before: Declared,
    after: Declared,
    holds: spec_fn(TypeItem) -> bool,
)
    requires
        stays(before, after),
        forall|one: TypeItem, two: TypeItem| #[trigger]
            type_stays(one, two) && holds(one) ==> holds(two),
        some_type(before.items, holds),
    ensures
        some_type(after.items, holds),
{
    let t = choose|t: int|
        0 <= t < before.items.types.len() && holds(#[trigger] before.items.types[t]);
    assert(type_stays(before.items.types[t], after.items.types[t]));
    assert(holds(after.items.types[t]));
}

proof fn lemma_part_found_stays(
    before: Declared,
    after: Declared,
    sort: TypeSort,
    name: Option<Seq<char>>,
    part: TypePart,
    id: AstId,
    node: ItemKind,
)
    requires
        stays(before, after),
        part_found(before, sort, name, part, id, node),
    ensures
        part_found(after, sort, name, part, id, node),
{
    lemma_reported_stays(before, after);
    let holds = |item: TypeItem| has_part(item, sort, name, part, id);
    if some_type(before.items, holds) {
        lemma_type_found_stays(before, after, holds);
    }
}

proof fn lemma_children_found_stays(
    before: Declared,
    after: Declared,
    sort: TypeSort,
    children: Seq<NamedSyntax>,
)
    requires
        stays(before, after),
        children_found(before.items, sort, children),
    ensures
        children_found(after.items, sort, children),
{
    assert forall|c: int| 0 <= c < children.len() implies child_found(
        after.items,
        sort,
        #[trigger] children[c],
    ) by {
        lemma_child_found_stays(before, after, sort, children[c]);
    }
}

/// What is found stays found.
proof fn lemma_found_stays(before: Declared, after: Declared, declaration: Declaration)
    requires
        stays(before, after),
        is_found(before, declaration),
    ensures
        is_found(after, declaration),
{
    lemma_reported_stays(before, after);
    match declaration.kind {
        DeclarationKind::ValueSignature { id, name } => {
            let holds = |item: TermItem| has_signature(item, name_text(name), id);
            if some_term(before.items, holds) {
                lemma_term_found_stays(before, after, holds);
            }
        },
        DeclarationKind::ValueEquation { id, name } => {
            let holds = |item: TermItem| has_equation(item, name_text(name), id);
            if some_term(before.items, holds) {
                assert forall|one: TermItem, two: TermItem| #[trigger]
                    term_stays(one, two) && holds(one) implies holds(two) by {
                    if let (
                        TermKind::Value { equations, .. },
                        TermKind::Value { equations: all, .. },
                    ) = (one.kind, two.kind) {
                        let k = choose|k: int| 0 <= k < equations.len() && equations[k] == id;
                        assert(all[k] == id);
                    }
                }
                lemma_term_found_stays(before, after, holds);
            }
        },
        DeclarationKind::Infix { id, type_keyword, operator } => {
            if type_keyword {
                lemma_type_found_stays(
                    before,
                    after,
                    |item: TypeItem|
                        item.name == name_text(operator) && item.kind == (TypeKind::Operator {
                            id,
                        }),
                );
            } else {
                lemma_term_found_stays(
                    before,
                    after,
                    |item: TermItem|
                        item.name == name_text(operator) && item.kind == (TermKind::Operator {
                            id,
                        }),
                );
            }
        },
        DeclarationKind::TypeRole { id, name } => {
            let holds = |item: TypeItem| has_role(item, name_text(name), id);
            if some_type(before.items, holds) {
                lemma_type_found_stays(before, after, holds);
            }
        },
        DeclarationKind::InstanceChain { instances, .. } => {
            assert forall|i: int| 0 <= i < instances@.len() implies #[trigger] instance_found(
                after.items,
                instances@[i],
            ) by {
                assert(instance_found(before.items, instances@[i]));
                let k = choose|k: int|
                    0 <= k < before.items.instances.len() && (
                    #[trigger] before.items.instances[k]).id == instances@[i].id
                        && before.items.instances[k].name == name_text(instances@[i].name);
                assert(after.items.instances[k] == before.items.instances[k]);
            }
        },
        DeclarationKind::TypeSynonymSignature { id, name } => {
            let node = ItemKind::SynonymSignature(id);
            let (sort, part) = (TypeSort::Synonym, TypePart::Signature);
            lemma_part_found_stays(before, after, sort, name_text(name), part, id, node);
        },
        DeclarationKind::TypeSynonymEquation { id, name } => {
            let node = ItemKind::SynonymEquation(id);
            let (sort, part) = (TypeSort::Synonym, TypePart::Equation);
            lemma_part_found_stays(before, after, sort, name_text(name), part, id, node);
        },
        DeclarationKind::ClassSignature { id, name } => {
            let node = ItemKind::ClassSignature(id);
            let (sort, part) = (TypeSort::Class, TypePart::Signature);
            lemma_part_found_stays(before, after, sort, name_text(name), part, id, node);
        },
        DeclarationKind::ClassDeclaration { id, name, members } => {
            let node = ItemKind::ClassDeclaration(id);
            let (sort, part) = (TypeSort::Class, TypePart::Equation);
            lemma_part_found_stays(before, after, sort, name_text(name), part, id, node);
            lemma_children_found_stays(before, after, sort, members@);
        },
        DeclarationKind::ForeignImportData { id, name } => {
            lemma_type_found_stays(
                before,
                after,
                |item: TypeItem|
                    item.name == name_text(name) && (item.kind matches TypeKind::Foreign {
                        id: own,
                        ..
                    } && own == id),
            );
        },
        DeclarationKind::ForeignImportValue { id, name } => {
            lemma_term_found_stays(
                before,
                after,
                |item: TermItem|
                    item.name == name_text(name) && item.kind == (TermKind::Foreign { id }),
            );
        },
        DeclarationKind::NewtypeSignature { id, name } => {
            let node = ItemKind::NewtypeSignature(id);
            let (sort, part) = (TypeSort::Newtype, TypePart::Signature);
            lemma_part_found_stays(before, after, sort, name_text(name), part, id, node);
        },
        DeclarationKind::NewtypeEquation { id, name, constructors } => {
            let node = ItemKind::NewtypeEquation(id);
            let (sort, part) = (TypeSort::Newtype, TypePart::Equation);
            lemma_part_found_stays(before, after, sort, name_text(name), part, id, node);
            lemma_children_found_stays(before, after, sort, constructors@);
        },
        DeclarationKind::DataSignature { id, name } => {
            let node = ItemKind::DataSignature(id);
            let (sort, part) = (TypeSort::Data, TypePart::Signature);
            lemma_part_found_stays(before, after, sort, name_text(name), part, id, node);
        },
        DeclarationKind::DataEquation { id, name, constructors } => {
            let node = ItemKind::DataEquation(id);
            let (sort, part) = (TypeSort::Data, TypePart::Equation);
            lemma_part_found_stays(before, after, sort, name_text(name), part, id, node);
            lemma_children_found_stays(before, after, sort, constructors@);
        },
        DeclarationKind::Derive { id, name } => {
            let k = choose|k: int|
                0 <= k < before.items.derives.len() && (#[trigger] before.items.derives[k]).id
                    == id && before.items.derives[k].name == name_text(name);
            assert(after.items.derives[k] == before.items.derives[k]);
        },
    }
}

// One more declaration

proof fn lemma_value_signature(declared: Declared, id: AstId, name: Option<Seq<char>>)
    requires
        declared.wf(),
    ensures
        ({
            let after = declared.value_signature(id, name);
            &&& stays(declared, after)
            &&& some_term(after.items, |item: TermItem| has_signature(item, name, id))
                || is_reported(after.errors, ItemKind::ValueSignature(id))
        }),
{
    let after = declared.value_signature(id, name);
    match declared.open_term(name) {
        None => {
            let kind = TermKind::Value { signature: Some(id), equations: Seq::empty() };
            lemma_add_stays(declared, name, kind, TypeKind::Operator { id });
            let last = after.items.terms.len() - 1;
            assert(has_signature(after.items.terms[last], name, id));
        },
        Some(active) => match declared.term_kind(active) {
            TermKind::Value { signature: None, equations } => {
                let kind = TermKind::Value { signature: Some(id), equations };
                lemma_set_term_stays(declared, active, kind);
                assert(has_signature(after.items.terms[active.raw as int], name, id));
            },
            _ => {
                lemma_error_stays(declared, after.errors.last());
                assert(match after.errors[after.errors.len() - 1] {
                    IndexingError::DuplicateItem { kind, .. } => kind == ItemKind::ValueSignature(
                        id,
                    ),
                    IndexingError::MismatchedItem { kind, .. } => kind
                        == ItemKind::ValueSignature(id),
                    _ => false,
                });
            },
        },
    }
}

proof fn lemma_value_equation(declared: Declared, id: AstId, name: Option<Seq<char>>)
    requires
        declared.wf(),
    ensures
        ({
            let after = declared.value_equation(id, name);
            &&& stays(declared, after)
            &&& some_term(after.items, |item: TermItem| has_equation(item, name, id))
                || is_reported(after.errors, ItemKind::ValueEquation(id))
        }),
{
    let after = declared.value_equation(id, name);
    match declared.open_term(name) {
        None => {
            let kind = TermKind::Value { signature: None, equations: seq![id] };
            lemma_add_stays(declared, name, kind, TypeKind::Operator { id });
            let last = after.items.terms.len() - 1;
            assert(seq![id][0] == id);
            assert(has_equation(after.items.terms[last], name, id));
        },
        Some(active) => match declared.term_kind(active) {
            TermKind::Value { signature, equations } => {
                let kind = TermKind::Value { signature, equations: equations.push(id) };
                lemma_set_term_stays(declared, active, kind);
                assert(equations.push(id).last() == id);
                assert(has_equation(after.items.terms[active.raw as int], name, id));
            },
            _ => {
                lemma_error_stays(declared, after.errors.last());
                assert(match after.errors[after.errors.len() - 1] {
                    IndexingError::DuplicateItem { kind, .. } => kind == ItemKind::ValueEquation(
                        id,
                    ),
                    IndexingError::MismatchedItem { kind, .. } => kind == ItemKind::ValueEquation(
                        id,
                    ),
                    _ => false,
                });
            },
        },
    }
}

proof fn lemma_type_part(
    declared: Declared,
    part: TypePart,
    sort: TypeSort,
    id: AstId,
    name: Option<Seq<char>>,
)
    requires
        declared.wf(),
        declared.items.types.len() < u32::MAX,
    ensures
        ({
            let after = declared.type_part(part, sort, id, name);
            &&& stays(declared, after)
            &&& part_found(after, sort, name, part, id, part_kind(part, sort, id))
            &&& declared.joined_type(name).raw < after.items.types.len()
            &&& after.items.types[declared.joined_type(name).raw as int].name == name
        }),
{
    let after = declared.type_part(part, sort, id, name);
    match declared.open_type(name) {
        None => {
            let kind = fresh_type(part, sort, id);
            lemma_add_stays(declared, name, TermKind::Operator { id }, kind);
            let last = after.items.types.len() - 1;
            assert(has_part(after.items.types[last], sort, name, part, id));
        },
        Some(active) => match part_of(declared.type_kind(active), part, sort) {
            Some(None) => {
                let kind = with_part(declared.type_kind(active), part, id);
                lemma_set_type_stays(declared, active, kind);
                assert(has_part(after.items.types[active.raw as int], sort, name, part, id));
            },
            _ => {
                lemma_error_stays(declared, after.errors.last());
                let node = part_kind(part, sort, id);
                assert(match after.errors[after.errors.len() - 1] {
                    IndexingError::DuplicateItem { kind, .. } => kind == node,
                    IndexingError::MismatchedItem { kind, .. } => kind == node,
                    _ => false,
                });
            },
        },
    }
}

proof fn lemma_type_role(declared: Declared, id: AstId, name: Option<Seq<char>>)
    requires
        declared.wf(),
    ensures
        ({
            let after = declared.type_role(id, name);
            &&& stays(declared, after)
            &&& some_type(after.items, |item: TypeItem| has_role(item, name, id))
                || is_invalid_role(after.errors, id)
        }),
{
    let after = declared.type_role(id, name);
    if after.errors.len() > declared.errors.len() {
        lemma_error_stays(declared, after.errors.last());
        assert(after.errors[after.errors.len() - 1] matches IndexingError::InvalidRole {
            id: own,
            ..
        } && own == id);
    } else {
        let active = declared.open_type(name)->0;
        lemma_set_type_stays(
            declared,
            active,
            after.items.types[active.raw as int].kind,
        );
        assert(has_role(after.items.types[active.raw as int], name, id));
    }
}

proof fn lemma_child(declared: Declared, type_id: TypeItemId, sort: TypeSort, child: NamedSyntax)
    requires
        type_id.raw < declared.items.types.len(),
    ensures
        ({
            let after = declared.child(type_id, sort, child);
            &&& stays(declared, after)
            &&& child_found(after.items, sort, child)
            &&& after.items.types.len() == declared.items.types.len()
        }),
{
    let attached = is_sort(declared.type_kind(type_id), sort);
    let kind = if sort == TypeSort::Class {
        TermKind::ClassMember { id: child.id, parent: type_id }
    } else {
        TermKind::Constructor {
            id: child.id,
            type_id: if attached {
                Some(type_id)
            } else {
                None
            },
        }
    };
    lemma_add_stays(declared, name_text(child.name), kind, declared.type_kind(type_id));
    let added = declared.add_child_term(name_text(child.name), kind);
    let after = declared.child(type_id, sort, child);
    if attached {
        let linked = with_child(added.type_kind(type_id), declared.next_term());
        lemma_set_type_stays(added, type_id, linked);
        lemma_stays_transitive(declared, added, added.set_type_kind(type_id, linked));
    }
    let last = declared.items.terms.len() as int;
    assert(after.items.terms[last].name == name_text(child.name));
}

proof fn lemma_children(
    declared: Declared,
    type_id: TypeItemId,
    sort: TypeSort,
    children: Seq<NamedSyntax>,
)
    requires
        type_id.raw < declared.items.types.len(),
    ensures
        ({
            let after = declared.children(type_id, sort, children);
            &&& stays(declared, after)
            &&& children_found(after.items, sort, children)
            &&& after.items.types.len() == declared.items.types.len()
        }),
    decreases children.len(),
{
    lemma_stays_reflexive(declared);
    if children.len() > 0 {
        let rest = children.drop_last();
        lemma_children(declared, type_id, sort, rest);
        let before = declared.children(type_id, sort, rest);
        let after = declared.children(type_id, sort, children);
        lemma_child(before, type_id, sort, children.last());
        lemma_stays_transitive(declared, before, after);
        assert forall|c: int| 0 <= c < children.len() implies child_found(
            after.items,
            sort,
            #[trigger] children[c],
        ) by {
            if c < rest.len() {
                assert(child_found(before.items, sort, rest[c]));
                lemma_child_found_stays(before, after, sort, rest[c]);
            }
        }
    }
}

proof fn lemma_equation(
    declared: Declared,
    sort: TypeSort,
    id: AstId,
    name: Option<Seq<char>>,
    children: Seq<NamedSyntax>,
)
    requires
        declared.wf(),
        declared.items.types.len() < u32::MAX,
    ensures
        ({
            let after = declared.type_part(TypePart::Equation, sort, id, name).children(
                declared.joined_type(name),
                sort,
                children,
            );
            &&& stays(declared, after)
            &&& part_found(
                after,
                sort,
                name,
                TypePart::Equation,
                id,
                part_kind(TypePart::Equation, sort, id),
            )
            &&& children_found(after.items, sort, children)
        }),
{
    let part = declared.type_part(TypePart::Equation, sort, id, name);
    let type_id = declared.joined_type(name);
    lemma_type_part(declared, TypePart::Equation, sort, id, name);
    lemma_children(part, type_id, sort, children);
    let after = part.children(type_id, sort, children);
    lemma_stays_transitive(declared, part, after);
    lemma_part_found_stays(
        part,
        after,
        sort,
        name,
        TypePart::Equation,
        id,
        part_kind(TypePart::Equation, sort, id),
    );
}

proof fn lemma_chain(
    declared: Declared,
    declaration: AstId,
    chain: AstId,
    instances: Seq<InstanceSyntax>,
)
    ensures
        ({
            let after = declared.instance_chain(declaration, chain, instances);
            &&& stays(declared, after)
            &&& forall|i: int|
                0 <= i < instances.len() ==> #[trigger] instance_found(after.items, instances[i])
        }),
    decreases instances.len(),
{
    lemma_stays_reflexive(declared);
    if instances.len() > 0 {
        let rest = instances.drop_last();
        lemma_chain(declared, declaration, chain, rest);
        let before = declared.instance_chain(declaration, chain, rest);
        let after = declared.instance_chain(declaration, chain, instances);
        assert(stays(before, after));
        lemma_stays_transitive(declared, before, after);
        assert forall|i: int| 0 <= i < instances.len() implies #[trigger] instance_found(
            after.items,
            instances[i],
        ) by {
            if i < rest.len() {
                assert(instance_found(before.items, rest[i]));
                let k = choose|k: int|
                    0 <= k < before.items.instances.len() && (
                    #[trigger] before.items.instances[k]).id == rest[i].id
                        && before.items.instances[k].name == name_text(rest[i].name);
                assert(after.items.instances[k] == before.items.instances[k]);
            } else {
                let last = after.items.instances.len() - 1;
                assert(after.items.instances[last].id == instances[i].id);
            }
        }
    }
}

proof fn lemma_declaration(declared: Declared, declaration: Declaration)
    requires
        declared.wf(),
        declared.items.types.len() < u32::MAX,
    ensures
        stays(declared, declared.declaration(declaration)),
        is_found(declared.declaration(declaration), declaration),
{
    let after = declared.declaration(declaration);
    let (signature, equation) = (TypePart::Signature, TypePart::Equation);
    match declaration.kind {
        DeclarationKind::ValueSignature { id, name } => {
            lemma_value_signature(declared, id, name_text(name));
        },
        DeclarationKind::ValueEquation { id, name } => {
            lemma_value_equation(declared, id, name_text(name));
        },
        DeclarationKind::Infix { id, type_keyword, operator } => {
            let name = name_text(operator);
            lemma_add_stays(declared, name, TermKind::Operator { id }, TypeKind::Operator { id });
            if type_keyword {
                let last = after.items.types.len() - 1;
                assert(after.items.types[last].name == name);
            } else {
                let last = after.items.terms.len() - 1;
                assert(after.items.terms[last].name == name);
            }
        },
        DeclarationKind::TypeRole { id, name } => {
            lemma_type_role(declared, id, name_text(name));
        },
        DeclarationKind::InstanceChain { id, instances } => {
            lemma_chain(declared, declaration.id, id, instances@);
        },
        DeclarationKind::TypeSynonymSignature { id, name } => {
            lemma_type_part(declared, signature, TypeSort::Synonym, id, name_text(name));
        },
        DeclarationKind::TypeSynonymEquation { id, name } => {
            lemma_type_part(declared, equation, TypeSort::Synonym, id, name_text(name));
        },
        DeclarationKind::ClassSignature { id, name } => {
            lemma_type_part(declared, signature, TypeSort::Class, id, name_text(name));
        },
        DeclarationKind::ClassDeclaration { id, name, members } => {
            lemma_equation(declared, TypeSort::Class, id, name_text(name), members@);
        },
        DeclarationKind::ForeignImportData { id, name } => {
            let kind = TypeKind::Foreign { id, role: None };
            lemma_add_stays(declared, name_text(name), TermKind::Foreign { id }, kind);
            let last = after.items.types.len() - 1;
            assert(after.items.types[last].name == name_text(name));
        },
        DeclarationKind::ForeignImportValue { id, name } => {
            let kind = TypeKind::Foreign { id, role: None };
            lemma_add_stays(declared, name_text(name), TermKind::Foreign { id }, kind);
            let last = after.items.terms.len() - 1;
            assert(after.items.terms[last].name == name_text(name));
        },
        DeclarationKind::NewtypeSignature { id, name } => {
            lemma_type_part(declared, signature, TypeSort::Newtype, id, name_text(name));
        },
        DeclarationKind::NewtypeEquation { id, name, constructors } => {
            lemma_equation(declared, TypeSort::Newtype, id, name_text(name), constructors@);
        },
        DeclarationKind::DataSignature { id, name } => {
            lemma_type_part(declared, signature, TypeSort::Data, id, name_text(name));
        },
        DeclarationKind::DataEquation { id, name, constructors } => {
            lemma_equation(declared, TypeSort::Data, id, name_text(name), constructors@);
        },
        DeclarationKind::Derive { id, name } => {
            let last = after.items.derives.len() - 1;
            assert(after.items.derives[last].id == id);
        },
    }
}

// Laws

/// Every declaration of a module is found in an item of its name and its kind, or is
/// reported.
pub proof fn lemma_all_found(declarations: Seq<Declaration>)
    requires
        declarations_size(declarations) <= u32::MAX,
    ensures
        forall|k: int|
            0 <= k < declarations.len() ==> is_found(
                Declared::empty().declarations(declarations),
                #[trigger] declarations[k],
            ),
    decreases declarations.len(),
{
    if declarations.len() > 0 {
        let rest = declarations.drop_last();
        lemma_all_found(rest);
        lemma_declarations_sound(rest);
        let before = Declared::empty().declarations(rest);
        let after = Declared::empty().declarations(declarations);
        lemma_declaration(before, declarations.last());
        assert forall|k: int| 0 <= k < declarations.len() implies is_found(
            after,
            #[trigger] declarations[k],
        ) by {
            if k < rest.len() {
                assert(is_found(before, rest[k]));
                lemma_found_stays(before, after, rest[k]);
            }
        }
    }
}

/// The declaration is a signature or an equation of a value of the name.
pub open spec fn declares_value(declaration: Declaration, name: Option<Seq<char>>) -> bool {
    match declaration.kind {
        DeclarationKind::ValueSignature { name: own, .. } => name_text(own) == name,
        DeclarationKind::ValueEquation { name: own, .. } => name_text(own) == name,
        _ => false,
    }
}

/// Two declarations of values, one behind the other, belong to one item exactly where
/// they bear the same name.
pub proof fn lemma_values_join(
    declared: Declared,
    first: Declaration,
    second: Declaration,
    name: Option<Seq<char>>,
    other: Option<Seq<char>>,
)
    requires
        declared.wf(),
        declared.items.terms.len() + 1 < u32::MAX,
        declares_value(first, name),
        declares_value(second, other),
    ensures
        ({
            let pairs = declared.declaration(first).declaration(second).pairs.declaration_to_term;
            let count = declared.pairs.declaration_to_term.len() as int;
            &&& pairs.len() == count + 2
            &&& pairs[count].0 == first.id
            &&& pairs[count + 1].0 == second.id
            &&& pairs[count].1 == pairs[count + 1].1 <==> name == other
        }),
{
    let middle = declared.declaration(first);
    let id = match first.kind {
        DeclarationKind::ValueSignature { id, .. } => id,
        DeclarationKind::ValueEquation { id, .. } => id,
        _ => first.id,
    };
    lemma_value_signature(declared, id, name);
    lemma_value_equation(declared, id, name);
    let joined = declared.joined_term(name);
    assert(joined.raw < middle.items.terms.len());
    assert(middle.items.terms[joined.raw as int].name == name) by {
        if let Some(active) = declared.open_term(name) {
            assert(term_stays(
                declared.items.terms[active.raw as int],
                middle.items.terms[active.raw as int],
            ));
        }
    }
}

/// The declaration is a half of a type of the sort and the name.
pub open spec fn declares_type(
    declaration: Declaration,
    sort: TypeSort,
    name: Option<Seq<char>>,
) -> bool {
    match declaration.kind {
        DeclarationKind::TypeSynonymSignature { name: own, .. } => sort == TypeSort::Synonym
            && name_text(own) == name,
        DeclarationKind::TypeSynonymEquation { name: own, .. } => sort == TypeSort::Synonym
            && name_text(own) == name,
        DeclarationKind::ClassSignature { name: own, .. } => sort == TypeSort::Class && name_text(
            own,
        ) == name,
        DeclarationKind::NewtypeSignature { name: own, .. } => sort == TypeSort::Newtype
            && name_text(own) == name,
        DeclarationKind::DataSignature { name: own, .. } => sort == TypeSort::Data && name_text(
            own,
        ) == name,
        _ => false,
    }
}

/// Two halves of types, one behind the other, belong to one item exactly where they bear
/// the same name.
pub proof fn lemma_types_join(
    declared: Declared,
    first: Declaration,
    second: Declaration,
    sort: TypeSort,
    other_sort: TypeSort,
    name: Option<Seq<char>>,
    other: Option<Seq<char>>,
)
    requires
        declared.wf(),
        declared.items.types.len() + 1 < u32::MAX,
        declares_type(first, sort, name),
        declares_type(second, other_sort, other),
    ensures
        ({
            let pairs = declared.declaration(first).declaration(second).pairs.declaration_to_type;
            let count = declared.pairs.declaration_to_type.len() as int;
            &&& pairs.len() == count + 2
            &&& pairs[count].0 == first.id
            &&& pairs[count + 1].0 == second.id
            &&& pairs[count].1 == pairs[count + 1].1 <==> name == other
        }),
{
    let middle = declared.declaration(first);
    let id = match first.kind {
        DeclarationKind::TypeSynonymSignature { id, .. } => id,
        DeclarationKind::TypeSynonymEquation { id, .. } => id,
        DeclarationKind::ClassSignature { id, .. } => id,
        DeclarationKind::NewtypeSignature { id, .. } => id,
        DeclarationKind::DataSignature { id, .. } => id,
        _ => first.id,
    };
    lemma_type_part(declared, TypePart::Signature, sort, id, name);
    lemma_type_part(declared, TypePart::Equation, sort, id, name);
}

} // verus!
