//! What an export list means for the items of a module.

use super::error::IndexingError;
use super::exports::{Exported, ExportKind, ExportScope, Selection};
use super::imports::{operator_text, Import};
use super::items::{TermItemId, TermKind, TypeItem, TypeItemId, TypeKind, TypeSort};
use super::laws::{children_of, has_constructors, lemma_declarations_sound};
use super::marking::{
    exports_children, in_range, lemma_exports, lemma_mark_keeps, same_terms, same_types, Marked,
};
use super::model::{fresh_type, is_sort, with_child, with_part, Declared, Items, TypePart};
use super::module::{
    before_exports, indexed, lemma_linked_children, marked_exports, named, term_id, term_names,
    type_id, type_names, Module,
};
use super::names::first_entry;
use super::source::{
    declarations_size, name_text, name_texts, AstId, Declaration, DeclarationKind, ExportItem,
    ExportItemId, ExportItemKind, InstanceSyntax, ModuleSyntax, NamedSyntax, TypeItems,
};
use crate::text::{trim_back, trim_front};
use vstd::prelude::*;

verus! {

// Names

/// The name is written so: as it is, or within parentheses where it is an operator.
pub open spec fn is_written(written: Seq<char>, name: Seq<char>, operator: bool) -> bool {
    if operator {
        &&& written == seq!['('] + name + seq![')']
        &&& name.len() > 0
        &&& name[0] != '('
        &&& name.last() != ')'
    } else {
        written == name
    }
}

/// The parentheses around an operator are no part of its name.
pub proof fn lemma_operator_text(written: Seq<char>, name: Seq<char>)
    requires
        is_written(written, name, true),
    ensures
        operator_text(written) == name,
{
    let open = |character: char| character == '(';
    let close = |character: char| character == ')';
    let rest = name + seq![')'];
    assert(written.skip(1) =~= rest);
    assert(written[0] == '(');
    assert(rest[0] == name[0]);
    reveal_with_fuel(trim_front, 3);
    assert(trim_front(written, open) == rest);
    assert(rest.drop_last() =~= name);
    assert(rest.last() == ')');
    reveal_with_fuel(trim_back, 3);
    assert(trim_back(rest, close) == name);
}

/// The export item names the term.
pub open spec fn names_term(item: ExportItem, name: Seq<char>) -> bool {
    match item.kind {
        ExportItemKind::Value { name: Some(written) } => is_written(written@, name, false),
        ExportItemKind::Operator { name: Some(written) } => is_written(written@, name, true),
        _ => false,
    }
}

/// The export item names the type, with the list behind it.
pub open spec fn names_type(item: ExportItem, name: Seq<char>, list: Option<TypeItems>) -> bool {
    match item.kind {
        ExportItemKind::Class { name: Some(written) } => is_written(written@, name, false)
            && list is None,
        ExportItemKind::Type { name: Some(written), items } => is_written(written@, name, false)
            && list == items,
        ExportItemKind::TypeOperator { name: Some(written) } => is_written(written@, name, true)
            && list is None,
        _ => false,
    }
}

/// The number of items that name terms.
pub open spec fn term_count(items: Seq<ExportItem>) -> nat
    decreases items.len(),
{
    if items.len() == 0 {
        0
    } else {
        term_count(items.drop_last()) + match items.last().kind {
            ExportItemKind::Value { name: Some(_) } => 1nat,
            ExportItemKind::Operator { name: Some(_) } => 1nat,
            _ => 0nat,
        }
    }
}

/// The number of items that name types.
pub open spec fn type_count(items: Seq<ExportItem>) -> nat
    decreases items.len(),
{
    if items.len() == 0 {
        0
    } else {
        type_count(items.drop_last()) + match items.last().kind {
            ExportItemKind::Class { name: Some(_) } => 1nat,
            ExportItemKind::Type { name: Some(_), .. } => 1nat,
            ExportItemKind::TypeOperator { name: Some(_) } => 1nat,
            _ => 0nat,
        }
    }
}

/// The number of items that name modules.
pub open spec fn module_count(items: Seq<ExportItem>) -> nat
    decreases items.len(),
{
    if items.len() == 0 {
        0
    } else {
        module_count(items.drop_last()) + match items.last().kind {
            ExportItemKind::Module { name: Some(_) } => 1nat,
            _ => 0nat,
        }
    }
}

/// The term is the first one that bears the name, or none bears it.
pub open spec fn is_first_term(items: Items, name: Seq<char>, found: Option<TermItemId>) -> bool {
    match found {
        Some(id) => {
            &&& id.raw < items.terms.len()
            &&& items.terms[id.raw as int].name == Some(name)
            &&& forall|i: int|
                0 <= i < id.raw ==> (#[trigger] items.terms[i]).name != Some(name)
        },
        None => forall|i: int|
            0 <= i < items.terms.len() ==> (#[trigger] items.terms[i]).name != Some(name),
    }
}

/// The type is the first one that bears the name, or none bears it.
pub open spec fn is_first_type(items: Items, name: Seq<char>, found: Option<TypeItemId>) -> bool {
    match found {
        Some(id) => {
            &&& id.raw < items.types.len()
            &&& items.types[id.raw as int].name == Some(name)
            &&& forall|i: int|
                0 <= i < id.raw ==> (#[trigger] items.types[i]).name != Some(name)
        },
        None => forall|i: int|
            0 <= i < items.types.len() ==> (#[trigger] items.types[i]).name != Some(name),
    }
}

/// The first item of a name is found under the name.
proof fn lemma_first_named<Id>(
    names: Seq<Option<Seq<char>>>,
    id: spec_fn(int) -> Id,
    name: Seq<char>,
) -> (index: int)
    ensures
        first_entry(named(names, id), name) is None ==> forall|i: int|
            0 <= i < names.len() ==> #[trigger] names[i] != Some(name),
        first_entry(named(names, id), name) is Some ==> {
            &&& 0 <= index < names.len()
            &&& first_entry(named(names, id), name) == Some(id(index))
            &&& names[index] == Some(name)
            &&& forall|i: int| 0 <= i < index ==> #[trigger] names[i] != Some(name)
        },
    decreases names.len(),
{
    if names.len() == 0 {
        0
    } else {
        let rest = names.drop_last();
        let found = lemma_first_named(rest, id, name);
        let entries = named(names, id);
        if names.last() is Some {
            assert(entries.drop_last() =~= named(rest, id));
        }
        assert(forall|i: int| 0 <= i < rest.len() ==> names[i] == rest[i]);
        if first_entry(named(rest, id), name) is Some {
            assert(names[found] == rest[found]);
            found
        } else {
            assert forall|i: int| 0 <= i < rest.len() implies #[trigger] names[i] != Some(
                name,
            ) by {
                assert(rest[i] != Some(name));
            }
            names.len() - 1
        }
    }
}

proof fn lemma_first_term(items: Items, name: Seq<char>)
    requires
        items.terms.len() <= u32::MAX,
    ensures
        is_first_term(
            items,
            name,
            first_entry(named(term_names(items), |i: int| term_id(i)), name),
        ),
{
    let names = term_names(items);
    let index = lemma_first_named(names, |i: int| term_id(i), name);
    assert(forall|i: int| 0 <= i < names.len() ==> names[i] == (#[trigger] items.terms[i]).name);
}

proof fn lemma_first_type(items: Items, name: Seq<char>)
    requires
        items.types.len() <= u32::MAX,
    ensures
        is_first_type(
            items,
            name,
            first_entry(named(type_names(items), |i: int| type_id(i)), name),
        ),
{
    let names = type_names(items);
    let index = lemma_first_named(names, |i: int| type_id(i), name);
    assert(forall|i: int| 0 <= i < names.len() ==> names[i] == (#[trigger] items.types[i]).name);
}

// The list

proof fn lemma_item_kind(item: ExportItem)
    ensures
        forall|name: Seq<char>| #[trigger] names_term(item, name) ==> match item.kind {
            ExportItemKind::Value { name: Some(written) } => written@ == name,
            ExportItemKind::Operator { name: Some(written) } => operator_text(written@) == name,
            _ => false,
        },
        forall|name: Seq<char>, list: Option<TypeItems>| #[trigger]
            names_type(item, name, list) ==> match item.kind {
                ExportItemKind::Class { name: Some(written) } => written@ == name,
                ExportItemKind::Type { name: Some(written), .. } => written@ == name,
                ExportItemKind::TypeOperator { name: Some(written) } => operator_text(written@)
                    == name,
                _ => false,
            },
{
    assert forall|name: Seq<char>| #[trigger] names_term(item, name) implies match item.kind {
        ExportItemKind::Value { name: Some(written) } => written@ == name,
        ExportItemKind::Operator { name: Some(written) } => operator_text(written@) == name,
        _ => false,
    } by {
        if let ExportItemKind::Operator { name: Some(written) } = item.kind {
            lemma_operator_text(written@, name);
        }
    }
    assert forall|name: Seq<char>, list: Option<TypeItems>| #[trigger]
        names_type(item, name, list) implies match item.kind {
        ExportItemKind::Class { name: Some(written) } => written@ == name,
        ExportItemKind::Type { name: Some(written), .. } => written@ == name,
        ExportItemKind::TypeOperator { name: Some(written) } => operator_text(written@) == name,
        _ => false,
    } by {
        if let ExportItemKind::TypeOperator { name: Some(written) } = item.kind {
            lemma_operator_text(written@, name);
        }
    }
}

/// What a list selects behind a type.
pub open spec fn is_selection(list: Option<TypeItems>, selection: Option<Selection>) -> bool {
    match (list, selection) {
        (None, None) => true,
        (Some(TypeItems::All), Some(Selection::Everything)) => true,
        (Some(TypeItems::List(written)), Some(Selection::Enumerated(names))) => {
            &&& names.len() == written@.len()
            &&& forall|i: int| 0 <= i < names.len() ==> #[trigger] names[i] == written@[i]@
        },
        _ => false,
    }
}

/// The exports of an item stand at its place among those of its level, and its name is
/// marked as exported.
pub open spec fn is_listed(
    exported: Exported,
    scope: ExportScope,
    items: Seq<ExportItem>,
    index: int,
) -> bool {
    let item = items[index];
    let terms = term_count(items.take(index)) as int;
    let types = type_count(items.take(index)) as int;
    let modules = module_count(items.take(index)) as int;
    &&& forall|name: Seq<char>| #[trigger]
        names_term(item, name) ==> {
            &&& terms < exported.terms.len()
            &&& exported.terms[terms].id == item.id
            &&& exported.terms[terms].name == name
            &&& exported.terms[terms].item == first_entry(scope.terms, name)
            &&& exported.term_ids.contains_key(name)
        }
    &&& forall|name: Seq<char>, list: Option<TypeItems>| #[trigger]
        names_type(item, name, list) ==> {
            &&& types < exported.types.len()
            &&& exported.types[types].id == item.id
            &&& exported.types[types].name == name
            &&& exported.types[types].item == first_entry(scope.types, name)
            &&& is_selection(list, exported.types[types].selection)
            &&& exported.type_ids.contains_key(name)
        }
    &&& item.kind matches ExportItemKind::Module { name: Some(written) } ==> {
        &&& modules < exported.modules.len()
        &&& exported.modules[modules].id == item.id
        &&& exported.modules[modules].name == written@
    }
}

proof fn lemma_listed(
    before: Exported,
    scope: ExportScope,
    items: Seq<ExportItem>,
)
    requires
        before.terms.len() == 0,
        before.types.len() == 0,
        before.modules.len() == 0,
    ensures
        ({
            let exported = before.list(scope, items);
            &&& exported.terms.len() == term_count(items)
            &&& exported.types.len() == type_count(items)
            &&& exported.modules.len() == module_count(items)
            &&& forall|i: int| 0 <= i < items.len() ==> #[trigger] is_listed(exported, scope, items, i)
        }),
    decreases items.len(),
{
    if items.len() > 0 {
        let rest = items.drop_last();
        let item = items.last();
        lemma_listed(before, scope, rest);
        let earlier = before.list(scope, rest);
        let exported = before.list(scope, items);
        lemma_item_kind(item);
        assert forall|i: int| 0 <= i < items.len() implies #[trigger] is_listed(
            exported,
            scope,
            items,
            i,
        ) by {
            if i < rest.len() {
                assert(rest.take(i) =~= items.take(i));
                assert(is_listed(earlier, scope, rest, i));
            } else {
                assert(items.take(i) =~= rest);
                if let ExportItemKind::Type { name: Some(_), items: Some(TypeItems::List(written)) } =
                    item.kind {
                    assert(forall|k: int|
                        0 <= k < written@.len() ==> name_texts(written@)[k] == written@[k]@);
                }
            }
        }
    }
}

// Marking

/// Marking adds to the names that are exported and leaves the list alone.
pub open spec fn keeps_list(before: Exported, after: Exported) -> bool {
    &&& after.kind == before.kind
    &&& after.terms == before.terms
    &&& after.types == before.types
    &&& after.modules == before.modules
    &&& after.imports == before.imports
    &&& after.type_ids == before.type_ids
    &&& forall|name: Seq<char>| #[trigger]
        before.term_ids.contains_key(name) ==> after.term_ids.contains_key(name)
}

proof fn lemma_select_keeps(
    marked: Marked,
    constructors: Seq<TermItemId>,
    names: Seq<Seq<char>>,
    id: ExportItemId,
)
    ensures
        keeps_list(marked.exported, marked.select_all(constructors, names, id).exported),
    decreases names.len(),
{
    if names.len() > 0 {
        lemma_select_keeps(marked, constructors, names.drop_last(), id);
    }
}

proof fn lemma_mark_types_keeps(marked: Marked, count: nat)
    ensures
        keeps_list(marked.exported, marked.mark_types(count).exported),
    decreases count,
{
    if count > 0 {
        lemma_mark_types_keeps(marked, (count - 1) as nat);
        let before = marked.mark_types((count - 1) as nat);
        let item = before.types[count - 1];
        if let Some(name) = item.name {
            if before.exported.type_ids.contains_key(name) {
                let (id, selection) = before.exported.type_ids[name];
                let typed = Marked {
                    types: before.types.update(count - 1, TypeItem { exported: true, ..item }),
                    ..before
                };
                if let Some(Selection::Enumerated(names)) = selection {
                    lemma_select_keeps(typed, children_of(item.kind), names, id);
                    lemma_select_keeps(typed, Seq::empty(), names, id);
                }
            }
        }
    }
}

// Items before exports are marked

/// Nothing is marked as exported.
pub open spec fn none_exported(items: Items) -> bool {
    &&& forall|i: int| 0 <= i < items.terms.len() ==> !(#[trigger] items.terms[i]).exported
    &&& forall|i: int| 0 <= i < items.types.len() ==> !(#[trigger] items.types[i]).exported
}

proof fn lemma_add_unexported(
    declared: Declared,
    name: Option<Seq<char>>,
    term: TermKind,
    kind: TypeKind,
)
    requires
        none_exported(declared.items),
    ensures
        none_exported(declared.add_child_term(name, term).items),
        none_exported(declared.add_term(name, term).items),
        none_exported(declared.add_type(name, kind).items),
{
}

proof fn lemma_set_term_unexported(declared: Declared, id: TermItemId, kind: TermKind)
    requires
        none_exported(declared.items),
        id.raw < declared.items.terms.len(),
    ensures
        none_exported(declared.set_term_kind(id, kind).items),
{
    let after = declared.set_term_kind(id, kind).items;
    assert forall|i: int| 0 <= i < after.terms.len() implies !(#[trigger] after.terms[i]).exported by {
        assert(!declared.items.terms[i].exported);
    }
}

proof fn lemma_set_type_unexported(declared: Declared, id: TypeItemId, kind: TypeKind)
    requires
        none_exported(declared.items),
        id.raw < declared.items.types.len(),
    ensures
        none_exported(declared.set_type_kind(id, kind).items),
{
    let after = declared.set_type_kind(id, kind).items;
    assert forall|i: int| 0 <= i < after.types.len() implies !(#[trigger] after.types[i]).exported by {
        assert(!declared.items.types[i].exported);
    }
}

proof fn lemma_children_unexported(
    declared: Declared,
    type_id: TypeItemId,
    sort: TypeSort,
    children: Seq<NamedSyntax>,
)
    requires
        none_exported(declared.items),
        type_id.raw < declared.items.types.len(),
    ensures
        none_exported(declared.children(type_id, sort, children).items),
        declared.children(type_id, sort, children).items.types.len()
            == declared.items.types.len(),
    decreases children.len(),
{
    if children.len() > 0 {
        lemma_children_unexported(declared, type_id, sort, children.drop_last());
        let before = declared.children(type_id, sort, children.drop_last());
        let child = children.last();
        let attached = is_sort(before.type_kind(type_id), sort);
        let kind = if sort == TypeSort::Class {
            TermKind::ClassMember { id: child.id, parent: type_id }
        } else {
            TermKind::Constructor {
                id: child.id,
                type_id: if attached {
                    Some(type_id)
                } else {
                    None
                },
            }
        };
        lemma_add_unexported(before, name_text(child.name), kind, before.type_kind(type_id));
        let added = before.add_child_term(name_text(child.name), kind);
        lemma_set_type_unexported(
            added,
            type_id,
            with_child(added.type_kind(type_id), before.next_term()),
        );
    }
}

proof fn lemma_part_unexported(
    declared: Declared,
    part: TypePart,
    sort: TypeSort,
    id: AstId,
    name: Option<Seq<char>>,
)
    requires
        declared.wf(),
        none_exported(declared.items),
        declared.items.types.len() < u32::MAX,
    ensures
        none_exported(declared.type_part(part, sort, id, name).items),
        declared.joined_type(name).raw < declared.type_part(part, sort, id, name).items.types.len(),
{
    match declared.open_type(name) {
        None => {
            let kind = fresh_type(part, sort, id);
            lemma_add_unexported(declared, name, TermKind::Operator { id }, kind);
        },
        Some(active) => {
            lemma_set_type_unexported(
                declared,
                active,
                with_part(declared.type_kind(active), part, id),
            );
        },
    }
}

proof fn lemma_chain_unexported(
    declared: Declared,
    declaration: AstId,
    chain: AstId,
    instances: Seq<InstanceSyntax>,
)
    requires
        none_exported(declared.items),
    ensures
        none_exported(declared.instance_chain(declaration, chain, instances).items),
    decreases instances.len(),
{
    if instances.len() > 0 {
        lemma_chain_unexported(declared, declaration, chain, instances.drop_last());
    }
}

proof fn lemma_value_unexported(declared: Declared, id: AstId, name: Option<Seq<char>>)
    requires
        declared.wf(),
        none_exported(declared.items),
    ensures
        none_exported(declared.value_signature(id, name).items),
        none_exported(declared.value_equation(id, name).items),
{
    let unused = TypeKind::Operator { id };
    match declared.open_term(name) {
        None => {
            lemma_add_unexported(
                declared,
                name,
                TermKind::Value { signature: Some(id), equations: Seq::empty() },
                unused,
            );
            lemma_add_unexported(
                declared,
                name,
                TermKind::Value { signature: None, equations: seq![id] },
                unused,
            );
        },
        Some(active) => {
            if let TermKind::Value { signature, equations } = declared.term_kind(active) {
                lemma_set_term_unexported(
                    declared,
                    active,
                    TermKind::Value { signature: Some(id), equations },
                );
                lemma_set_term_unexported(
                    declared,
                    active,
                    TermKind::Value { signature, equations: equations.push(id) },
                );
            }
        },
    }
}

proof fn lemma_role_unexported(declared: Declared, id: AstId, name: Option<Seq<char>>)
    requires
        declared.wf(),
        none_exported(declared.items),
    ensures
        none_exported(declared.type_role(id, name).items),
{
    if let Some(active) = declared.open_type(name) {
        match declared.type_kind(active) {
            TypeKind::Declared { sort, signature, equation, children, .. } => {
                lemma_set_type_unexported(
                    declared,
                    active,
                    TypeKind::Declared { sort, signature, equation, role: Some(id), children },
                );
            },
            TypeKind::Foreign { id: foreign, .. } => {
                lemma_set_type_unexported(
                    declared,
                    active,
                    TypeKind::Foreign { id: foreign, role: Some(id) },
                );
            },
            _ => {},
        }
    }
}

proof fn lemma_declaration_unexported(declared: Declared, declaration: Declaration)
    requires
        declared.wf(),
        none_exported(declared.items),
        declared.items.types.len() < u32::MAX,
    ensures
        none_exported(declared.declaration(declaration).items),
{
    match declaration.kind {
        DeclarationKind::ValueSignature { id, name } => {
            lemma_value_unexported(declared, id, name_text(name));
        },
        DeclarationKind::ValueEquation { id, name } => {
            lemma_value_unexported(declared, id, name_text(name));
        },
        DeclarationKind::Infix { id, operator, .. } => {
            lemma_add_unexported(
                declared,
                name_text(operator),
                TermKind::Operator { id },
                TypeKind::Operator { id },
            );
        },
        DeclarationKind::TypeRole { id, name } => {
            lemma_role_unexported(declared, id, name_text(name));
        },
        DeclarationKind::InstanceChain { id, instances } => {
            lemma_chain_unexported(declared, declaration.id, id, instances@);
        },
        DeclarationKind::ForeignImportData { id, name } => {
            lemma_add_unexported(
                declared,
                name_text(name),
                TermKind::Foreign { id },
                TypeKind::Foreign { id, role: None },
            );
        },
        DeclarationKind::ForeignImportValue { id, name } => {
            lemma_add_unexported(
                declared,
                name_text(name),
                TermKind::Foreign { id },
                TypeKind::Foreign { id, role: None },
            );
        },
        DeclarationKind::Derive { .. } => {},
        DeclarationKind::TypeSynonymSignature { id, name } => {
            let sort = TypeSort::Synonym;
            lemma_part_unexported(declared, TypePart::Signature, sort, id, name_text(name));
        },
        DeclarationKind::TypeSynonymEquation { id, name } => {
            let sort = TypeSort::Synonym;
            lemma_part_unexported(declared, TypePart::Equation, sort, id, name_text(name));
        },
        DeclarationKind::ClassSignature { id, name } => {
            let sort = TypeSort::Class;
            lemma_part_unexported(declared, TypePart::Signature, sort, id, name_text(name));
        },
        DeclarationKind::NewtypeSignature { id, name } => {
            let sort = TypeSort::Newtype;
            lemma_part_unexported(declared, TypePart::Signature, sort, id, name_text(name));
        },
        DeclarationKind::DataSignature { id, name } => {
            let sort = TypeSort::Data;
            lemma_part_unexported(declared, TypePart::Signature, sort, id, name_text(name));
        },
        DeclarationKind::ClassDeclaration { id, name, members } => {
            lemma_equation_unexported(declared, TypeSort::Class, id, name_text(name), members@);
        },
        DeclarationKind::NewtypeEquation { id, name, constructors } => {
            let sort = TypeSort::Newtype;
            lemma_equation_unexported(declared, sort, id, name_text(name), constructors@);
        },
        DeclarationKind::DataEquation { id, name, constructors } => {
            lemma_equation_unexported(declared, TypeSort::Data, id, name_text(name), constructors@);
        },
    }
}

proof fn lemma_equation_unexported(
    declared: Declared,
    sort: TypeSort,
    id: AstId,
    name: Option<Seq<char>>,
    children: Seq<NamedSyntax>,
)
    requires
        declared.wf(),
        none_exported(declared.items),
        declared.items.types.len() < u32::MAX,
    ensures
        none_exported(
            declared.type_part(TypePart::Equation, sort, id, name).children(
                declared.joined_type(name),
                sort,
                children,
            ).items,
        ),
{
    lemma_part_unexported(declared, TypePart::Equation, sort, id, name);
    lemma_children_unexported(
        declared.type_part(TypePart::Equation, sort, id, name),
        declared.joined_type(name),
        sort,
        children,
    );
}

proof fn lemma_unexported(declarations: Seq<Declaration>)
    requires
        declarations_size(declarations) <= u32::MAX,
    ensures
        none_exported(Declared::empty().declarations(declarations).items),
    decreases declarations.len(),
{
    if declarations.len() > 0 {
        let rest = declarations.drop_last();
        lemma_unexported(rest);
        lemma_declarations_sound(rest);
        lemma_declaration_unexported(Declared::empty().declarations(rest), declarations.last());
    }
}

// Laws

/// A module without an export list marks no item: everything is exported.
pub proof fn lemma_implicit_exports(syntax: ModuleSyntax)
    requires
        declarations_size(syntax.declarations@) <= u32::MAX,
        syntax.exports is None,
    ensures
        indexed(syntax).kind == ExportKind::Implicit,
        none_exported(indexed(syntax).items),
        indexed(syntax).term_exports.len() == 0,
        indexed(syntax).type_exports.len() == 0,
        indexed(syntax).module_exports.len() == 0,
{
    lemma_unexported(syntax.declarations@);
}

proof fn lemma_indexed(syntax: ModuleSyntax)
    requires
        declarations_size(syntax.declarations@) <= u32::MAX,
        syntax.exports is Some,
    ensures
        ({
            let module = indexed(syntax);
            let items = syntax.exports->0@;
            let before = before_exports(syntax);
            let scope = ExportScope {
                module: name_text(syntax.name),
                terms: before.term_names,
                types: before.type_names,
            };
            let listed = marked_exports(syntax).exported;
            let marked = marked_exports(syntax).mark();
            &&& before.items.terms.len() <= u32::MAX
            &&& before.items.types.len() <= u32::MAX
            &&& module.items.terms == marked.terms
            &&& module.items.types == marked.types
            &&& same_terms(module.items.terms, before.items.terms)
            &&& same_types(module.items.types, before.items.types)
            &&& module.term_exports == listed.terms
            &&& module.type_exports == listed.types
            &&& module.module_exports == listed.modules
            &&& module.term_exports.len() == term_count(items)
            &&& module.type_exports.len() == type_count(items)
            &&& module.module_exports.len() == module_count(items)
            &&& keeps_list(listed, marked.exported)
            &&& forall|i: int| 0 <= i < items.len() ==> #[trigger] is_listed(listed, scope, items, i)
        }),
{
    let items = syntax.exports->0@;
    let before = before_exports(syntax);
    lemma_declarations_sound(syntax.declarations@);
    lemma_linked_children(before.items);
    let marked = marked_exports(syntax);
    lemma_mark_keeps(marked);
    lemma_mark_types_keeps(marked, marked.types.len());
    lemma_listed(
        Exported {
            kind: ExportKind::Explicit,
            terms: Seq::empty(),
            types: Seq::empty(),
            modules: Seq::empty(),
            imports: before.imports,
            errors: before.errors,
            term_ids: Map::empty(),
            type_ids: Map::empty(),
        },
        ExportScope {
            module: name_text(syntax.name),
            terms: before.term_names,
            types: before.type_names,
        },
        items,
    );
}

/// A term or an operator in an export list is listed at its place, under its own name
/// and with the first term of that name; and the terms of that name are exported.
pub proof fn lemma_term_exported(syntax: ModuleSyntax, index: int, name: Seq<char>)
    requires
        declarations_size(syntax.declarations@) <= u32::MAX,
        syntax.exports is Some,
        0 <= index < syntax.exports->0@.len(),
        names_term(syntax.exports->0@[index], name),
    ensures
        ({
            let module = indexed(syntax);
            let place = term_count(syntax.exports->0@.take(index)) as int;
            &&& place < module.term_exports.len()
            &&& module.term_exports[place].id == syntax.exports->0@[index].id
            &&& module.term_exports[place].name == name
            &&& is_first_term(module.items, name, module.term_exports[place].item)
            &&& forall|i: int|
                0 <= i < module.items.terms.len() && (#[trigger] module.items.terms[i]).name
                    == Some(name) ==> module.items.terms[i].exported
        }),
{
    let module = indexed(syntax);
    let before = before_exports(syntax);
    lemma_indexed(syntax);
    lemma_first_term(before.items, name);
    let items = syntax.exports->0@;
    let scope = ExportScope {
        module: name_text(syntax.name),
        terms: before.term_names,
        types: before.type_names,
    };
    let listed = marked_exports(syntax).exported;
    assert(is_listed(listed, scope, items, index));
    assert(names_term(items[index], name));
    assert(is_first_term(before.items, name, first_entry(scope.terms, name)));
    assert(forall|i: int|
        0 <= i < module.items.terms.len() ==> (#[trigger] module.items.terms[i]).name
            == before.items.terms[i].name);
    lemma_explicit(syntax);
}

/// What an export list of a module exports, in terms of the names it lists.
proof fn lemma_explicit(syntax: ModuleSyntax)
    requires
        declarations_size(syntax.declarations@) <= u32::MAX,
        syntax.exports is Some,
    ensures
        ({
            let module = indexed(syntax);
            let listed = marked_exports(syntax).exported;
            &&& forall|i: int|
                0 <= i < module.items.types.len() ==> ((#[trigger] module.items.types[i]).exported
                    <==> (module.items.types[i].name matches Some(name)
                    && listed.type_ids.contains_key(name)))
            &&& forall|i: int|
                0 <= i < module.items.terms.len() && ((#[trigger] module.items.terms[i]).name matches Some(
                    name,
                ) && listed.term_ids.contains_key(name)) ==> module.items.terms[i].exported
        }),
{
    lemma_indexed(syntax);
    lemma_unexported(syntax.declarations@);
    lemma_declarations_sound(syntax.declarations@);
    lemma_linked_children(before_exports(syntax).items);
    let marked = marked_exports(syntax);
    lemma_exports(marked);
    let module = indexed(syntax);
    let after = marked.mark();
    assert forall|i: int|
        0 <= i < module.items.terms.len() && ((#[trigger] module.items.terms[i]).name matches Some(
            name,
        ) && marked.exported.term_ids.contains_key(name)) implies module.items.terms[i].exported by {
        assert(after.exported.lists_term(after.terms[i]));
    }
}

/// A type, a class or a type operator in an export list is listed at its place, under its
/// own name, with the first type of that name and what the list behind it selects; and
/// the types of that name are exported.
pub proof fn lemma_type_exported(
    syntax: ModuleSyntax,
    index: int,
    name: Seq<char>,
    list: Option<TypeItems>,
)
    requires
        declarations_size(syntax.declarations@) <= u32::MAX,
        syntax.exports is Some,
        0 <= index < syntax.exports->0@.len(),
        names_type(syntax.exports->0@[index], name, list),
    ensures
        ({
            let module = indexed(syntax);
            let place = type_count(syntax.exports->0@.take(index)) as int;
            &&& place < module.type_exports.len()
            &&& module.type_exports[place].id == syntax.exports->0@[index].id
            &&& module.type_exports[place].name == name
            &&& is_selection(list, module.type_exports[place].selection)
            &&& is_first_type(module.items, name, module.type_exports[place].item)
            &&& forall|i: int|
                0 <= i < module.items.types.len() && (#[trigger] module.items.types[i]).name
                    == Some(name) ==> module.items.types[i].exported
        }),
{
    let module = indexed(syntax);
    let before = before_exports(syntax);
    lemma_indexed(syntax);
    lemma_first_type(before.items, name);
    let items = syntax.exports->0@;
    let scope = ExportScope {
        module: name_text(syntax.name),
        terms: before.term_names,
        types: before.type_names,
    };
    let listed = marked_exports(syntax).exported;
    assert(is_listed(listed, scope, items, index));
    assert(names_type(items[index], name, list));
    assert(is_first_type(before.items, name, first_entry(scope.types, name)));
    assert(forall|i: int|
        0 <= i < module.items.types.len() ==> (#[trigger] module.items.types[i]).name
            == before.items.types[i].name);
    lemma_explicit(syntax);
}

/// A module in an export list is listed at its place.
pub proof fn lemma_module_exported(syntax: ModuleSyntax, index: int, name: String)
    requires
        declarations_size(syntax.declarations@) <= u32::MAX,
        syntax.exports is Some,
        0 <= index < syntax.exports->0@.len(),
        syntax.exports->0@[index].kind == (ExportItemKind::Module { name: Some(name) }),
    ensures
        ({
            let module = indexed(syntax);
            let place = module_count(syntax.exports->0@.take(index)) as int;
            &&& place < module.module_exports.len()
            &&& module.module_exports[place].id == syntax.exports->0@[index].id
            &&& module.module_exports[place].name == name@
        }),
{
    lemma_indexed(syntax);
    let before = before_exports(syntax);
    let scope = ExportScope {
        module: name_text(syntax.name),
        terms: before.term_names,
        types: before.type_names,
    };
    assert(is_listed(marked_exports(syntax).exported, scope, syntax.exports->0@, index));
}

// Whole lists

/// Operators are written within one pair of parentheses.
pub open spec fn is_regular(item: ExportItem) -> bool {
    match item.kind {
        ExportItemKind::Operator { name: Some(written) } => exists|name: Seq<char>|
            is_written(written@, name, true),
        ExportItemKind::TypeOperator { name: Some(written) } => exists|name: Seq<char>|
            is_written(written@, name, true),
        _ => true,
    }
}

/// All operators are.
pub open spec fn are_regular(items: Seq<ExportItem>) -> bool {
    forall|i: int| 0 <= i < items.len() ==> is_regular(#[trigger] items[i])
}

/// The item names the type, whatever it selects.
pub open spec fn is_type_export(item: ExportItem, name: Seq<char>) -> bool {
    exists|list: Option<TypeItems>| names_type(item, name, list)
}

/// The item is the first one that names the type.
pub open spec fn is_first_type_export(
    items: Seq<ExportItem>,
    index: int,
    name: Seq<char>,
    list: Option<TypeItems>,
) -> bool {
    &&& 0 <= index < items.len()
    &&& names_type(items[index], name, list)
    &&& forall|i: int| 0 <= i < index ==> !is_type_export(#[trigger] items[i], name)
}

/// The item is the first one that names the term.
pub open spec fn is_first_term_export(items: Seq<ExportItem>, index: int, name: Seq<char>) -> bool {
    &&& 0 <= index < items.len()
    &&& names_term(items[index], name)
    &&& forall|i: int| 0 <= i < index ==> !names_term(#[trigger] items[i], name)
}

/// The item is reported as one that repeats another.
pub open spec fn is_repeated(
    errors: Seq<IndexingError>,
    id: ExportItemId,
    existing: ExportItemId,
) -> bool {
    errors.contains(IndexingError::DuplicateExport { id, existing })
}

/// The type that an item names.
proof fn lemma_type_name(item: ExportItem, name: Seq<char>)
    requires
        is_regular(item),
    ensures
        is_type_export(item, name) <==> match item.kind {
            ExportItemKind::Class { name: Some(written) } => written@ == name,
            ExportItemKind::Type { name: Some(written), .. } => written@ == name,
            ExportItemKind::TypeOperator { name: Some(written) } => operator_text(written@)
                == name,
            _ => false,
        },
        names_term(item, name) <==> match item.kind {
            ExportItemKind::Value { name: Some(written) } => written@ == name,
            ExportItemKind::Operator { name: Some(written) } => operator_text(written@) == name,
            _ => false,
        },
{
    match item.kind {
        ExportItemKind::Class { name: Some(written) } => {
            if written@ == name {
                assert(names_type(item, name, None));
            }
        },
        ExportItemKind::Type { name: Some(written), items } => {
            if written@ == name {
                assert(names_type(item, name, items));
            }
        },
        ExportItemKind::TypeOperator { name: Some(written) } => {
            let own = choose|own: Seq<char>| is_written(written@, own, true);
            lemma_operator_text(written@, own);
            if own == name {
                assert(names_type(item, name, None));
            }
            if is_written(written@, name, true) {
                lemma_operator_text(written@, name);
            }
        },
        ExportItemKind::Operator { name: Some(written) } => {
            let own = choose|own: Seq<char>| is_written(written@, own, true);
            lemma_operator_text(written@, own);
            if is_written(written@, name, true) {
                lemma_operator_text(written@, name);
            }
        },
        _ => {},
    }
}

/// What one more item does.
proof fn lemma_item(before: Exported, scope: ExportScope, item: ExportItem, name: Seq<char>)
    requires
        is_regular(item),
    ensures
        ({
            let after = before.item(scope, item);
            &&& before.errors.is_prefix_of(after.errors)
            &&& after.type_ids.contains_key(name) <==> before.type_ids.contains_key(name)
                || is_type_export(item, name)
            &&& before.type_ids.contains_key(name) ==> after.type_ids[name]
                == before.type_ids[name]
            &&& before.type_ids.contains_key(name) && is_type_export(item, name) ==> is_repeated(
                after.errors,
                item.id,
                before.type_ids[name].0,
            )
            &&& forall|list: Option<TypeItems>|
                !before.type_ids.contains_key(name) && #[trigger] names_type(item, name, list) ==> {
                    &&& after.type_ids[name].0 == item.id
                    &&& is_selection(list, after.type_ids[name].1)
                }
            &&& after.term_ids.contains_key(name) <==> before.term_ids.contains_key(name)
                || names_term(item, name)
            &&& before.term_ids.contains_key(name) ==> after.term_ids[name]
                == before.term_ids[name]
            &&& before.term_ids.contains_key(name) && names_term(item, name) ==> is_repeated(
                after.errors,
                item.id,
                before.term_ids[name],
            )
            &&& !before.term_ids.contains_key(name) && names_term(item, name)
                ==> after.term_ids[name] == item.id
        }),
{
    lemma_type_name(item, name);
    lemma_item_kind(item);
    let after = before.item(scope, item);
    if after.errors.len() > before.errors.len() {
        assert(after.errors.last() == after.errors[after.errors.len() - 1]);
        assert(after.errors.contains(after.errors.last()));
    }
    if let ExportItemKind::Type { name: Some(_), items: Some(TypeItems::List(written)) } = item.kind {
        assert(forall|k: int|
            0 <= k < written@.len() ==> name_texts(written@)[k] == written@[k]@);
    }
}

proof fn lemma_items(before: Exported, scope: ExportScope, items: Seq<ExportItem>, name: Seq<char>)
    requires
        are_regular(items),
        !before.type_ids.contains_key(name),
        !before.term_ids.contains_key(name),
    ensures
        ({
            let after = before.list(scope, items);
            &&& after.type_ids.contains_key(name) <==> exists|i: int|
                0 <= i < items.len() && is_type_export(#[trigger] items[i], name)
            &&& after.term_ids.contains_key(name) <==> exists|i: int|
                0 <= i < items.len() && names_term(#[trigger] items[i], name)
            &&& forall|i: int, list: Option<TypeItems>| #[trigger]
                is_first_type_export(items, i, name, list) ==> {
                    &&& after.type_ids[name].0 == items[i].id
                    &&& is_selection(list, after.type_ids[name].1)
                }
            &&& forall|i: int| #[trigger]
                is_first_term_export(items, i, name) ==> after.term_ids[name] == items[i].id
            &&& forall|i: int, j: int, list: Option<TypeItems>|
                #![trigger is_first_type_export(items, i, name, list), items[j]]
                is_first_type_export(items, i, name, list) && i < j < items.len()
                    && is_type_export(items[j], name) ==> is_repeated(
                    after.errors,
                    items[j].id,
                    items[i].id,
                )
            &&& forall|i: int, j: int|
                #![trigger is_first_term_export(items, i, name), items[j]]
                is_first_term_export(items, i, name) && i < j < items.len() && names_term(
                    items[j],
                    name,
                ) ==> is_repeated(after.errors, items[j].id, items[i].id)
        }),
    decreases items.len(),
{
    if items.len() > 0 {
        let rest = items.drop_last();
        let last = items.len() - 1;
        assert forall|i: int| 0 <= i < rest.len() implies is_regular(#[trigger] rest[i]) by {
            assert(is_regular(items[i]));
        }
        lemma_items(before, scope, rest, name);
        let middle = before.list(scope, rest);
        let after = before.list(scope, items);
        assert(is_regular(items[last]));
        lemma_item(middle, scope, items.last(), name);
        assert(forall|i: int| 0 <= i < rest.len() ==> rest[i] == items[i]);
        assert forall|i: int| 0 <= i < items.len() && is_type_export(
            #[trigger] items[i],
            name,
        ) implies after.type_ids.contains_key(name) by {
            if i < last {
                assert(is_type_export(rest[i], name));
            }
        }
        assert forall|i: int| 0 <= i < items.len() && names_term(
            #[trigger] items[i],
            name,
        ) implies after.term_ids.contains_key(name) by {
            if i < last {
                assert(names_term(rest[i], name));
            }
        }
        if middle.type_ids.contains_key(name) {
            let i = choose|i: int| 0 <= i < rest.len() && is_type_export(#[trigger] rest[i], name);
            assert(is_type_export(items[i], name));
        } else if after.type_ids.contains_key(name) {
            assert(is_type_export(items[last], name));
        }
        if middle.term_ids.contains_key(name) {
            let i = choose|i: int| 0 <= i < rest.len() && names_term(#[trigger] rest[i], name);
            assert(names_term(items[i], name));
        } else if after.term_ids.contains_key(name) {
            assert(names_term(items[last], name));
        }
        assert forall|i: int, list: Option<TypeItems>| #[trigger]
            is_first_type_export(items, i, name, list) implies {
            &&& after.type_ids[name].0 == items[i].id
            &&& is_selection(list, after.type_ids[name].1)
        } by {
            if i < last {
                assert(is_first_type_export(rest, i, name, list));
                assert(is_type_export(rest[i], name));
            } else {
                assert(!middle.type_ids.contains_key(name));
            }
        }
        assert forall|i: int| #[trigger]
            is_first_term_export(items, i, name) implies after.term_ids[name] == items[i].id by {
            if i < last {
                assert(is_first_term_export(rest, i, name));
                assert(names_term(rest[i], name));
            } else {
                assert(!middle.term_ids.contains_key(name));
            }
        }
        assert forall|i: int, j: int, list: Option<TypeItems>|
            #![trigger is_first_type_export(items, i, name, list), items[j]]
            is_first_type_export(items, i, name, list) && i < j < items.len() && is_type_export(
                items[j],
                name,
            ) implies is_repeated(after.errors, items[j].id, items[i].id) by {
            assert(is_first_type_export(rest, i, name, list));
            assert(is_type_export(rest[i], name));
            if j < last {
                assert(rest[j] == items[j]);
                let error = IndexingError::DuplicateExport {
                    id: items[j].id,
                    existing: items[i].id,
                };
                assert(is_repeated(middle.errors, rest[j].id, rest[i].id));
                let k = choose|k: int| 0 <= k < middle.errors.len() && middle.errors[k] == error;
                assert(after.errors[k] == error);
            }
        }
        assert forall|i: int, j: int|
            #![trigger is_first_term_export(items, i, name), items[j]]
            is_first_term_export(items, i, name) && i < j < items.len() && names_term(
                items[j],
                name,
            ) implies is_repeated(after.errors, items[j].id, items[i].id) by {
            assert(is_first_term_export(rest, i, name));
            assert(names_term(rest[i], name));
            if j < last {
                assert(rest[j] == items[j]);
                let error = IndexingError::DuplicateExport {
                    id: items[j].id,
                    existing: items[i].id,
                };
                assert(is_repeated(middle.errors, rest[j].id, rest[i].id));
                let k = choose|k: int| 0 <= k < middle.errors.len() && middle.errors[k] == error;
                assert(after.errors[k] == error);
            }
        }
    }
}

proof fn lemma_marked_list(syntax: ModuleSyntax, name: Seq<char>)
    requires
        syntax.exports is Some,
        are_regular(syntax.exports->0@),
    ensures
        ({
            let items = syntax.exports->0@;
            let listed = marked_exports(syntax).exported;
            &&& listed.type_ids.contains_key(name) <==> exists|i: int|
                0 <= i < items.len() && is_type_export(#[trigger] items[i], name)
            &&& forall|i: int, list: Option<TypeItems>| #[trigger]
                is_first_type_export(items, i, name, list) ==> {
                    &&& listed.type_ids[name].0 == items[i].id
                    &&& is_selection(list, listed.type_ids[name].1)
                }
        }),
{
    let before = before_exports(syntax);
    lemma_items(
        Exported {
            kind: ExportKind::Explicit,
            terms: Seq::empty(),
            types: Seq::empty(),
            modules: Seq::empty(),
            imports: before.imports,
            errors: before.errors,
            term_ids: Map::empty(),
            type_ids: Map::empty(),
        },
        ExportScope {
            module: name_text(syntax.name),
            terms: before.term_names,
            types: before.type_names,
        },
        syntax.exports->0@,
        name,
    );
}

/// Where a module has an export list, a type is exported exactly if the list names it.
pub proof fn lemma_types_exported_exactly(syntax: ModuleSyntax, index: int)
    requires
        declarations_size(syntax.declarations@) <= u32::MAX,
        syntax.exports is Some,
        are_regular(syntax.exports->0@),
        0 <= index < indexed(syntax).items.types.len(),
    ensures
        ({
            let item = indexed(syntax).items.types[index];
            let items = syntax.exports->0@;
            item.exported <==> (item.name matches Some(name) && exists|i: int|
                0 <= i < items.len() && is_type_export(#[trigger] items[i], name))
        }),
{
    lemma_explicit(syntax);
    let item = indexed(syntax).items.types[index];
    if let Some(name) = item.name {
        lemma_marked_list(syntax, name);
    }
}

/// A type that is exported with everything exports its constructors, and an exported
/// class its members.
pub proof fn lemma_children_exported(
    syntax: ModuleSyntax,
    place: int,
    name: Seq<char>,
    list: Option<TypeItems>,
    index: int,
    child: TermItemId,
)
    requires
        declarations_size(syntax.declarations@) <= u32::MAX,
        syntax.exports is Some,
        are_regular(syntax.exports->0@),
        is_first_type_export(syntax.exports->0@, place, name, list),
        0 <= index < indexed(syntax).items.types.len(),
        indexed(syntax).items.types[index].name == Some(name),
        children_of(indexed(syntax).items.types[index].kind).contains(child),
        is_sort(indexed(syntax).items.types[index].kind, TypeSort::Class) || (list matches Some(
            TypeItems::All,
        ) && has_constructors(indexed(syntax).items.types[index].kind)),
    ensures
        child.raw < indexed(syntax).items.terms.len(),
        indexed(syntax).items.terms[child.raw as int].exported,
{
    lemma_indexed(syntax);
    lemma_marked_list(syntax, name);
    lemma_unexported(syntax.declarations@);
    lemma_declarations_sound(syntax.declarations@);
    lemma_linked_children(before_exports(syntax).items);
    let marked = marked_exports(syntax);
    lemma_exports(marked);
    let before = before_exports(syntax).items;
    assert(marked.types[index] == before.types[index]);
    assert(indexed(syntax).items.types[index].kind == before.types[index].kind);
    assert(indexed(syntax).items.types[index].name == before.types[index].name);
    let children = children_of(before.types[index].kind);
    let c = choose|c: int| 0 <= c < children.len() && children[c] == child;
    assert(is_type_export(syntax.exports->0@[place], name));
    assert(exports_children(marked, index));
    assert(marked.mark().terms[children_of(marked.types[index].kind)[c].raw as int].exported);
    assert(in_range(children_of(before.types[index].kind), before.terms.len()));
}

/// An exported term is named by the list, by what a type selects, or it belongs to an
/// exported type.
pub proof fn lemma_unnamed_terms(syntax: ModuleSyntax, index: int)
    requires
        declarations_size(syntax.declarations@) <= u32::MAX,
        syntax.exports is Some,
        0 <= index < indexed(syntax).items.terms.len(),
        indexed(syntax).items.terms[index].exported,
        forall|t: int|
            0 <= t < indexed(syntax).items.types.len() && (
            #[trigger] indexed(syntax).items.types[t]).exported ==> !children_of(
                indexed(syntax).items.types[t].kind,
            ).contains(TermItemId { raw: index as u32 }),
    ensures
        indexed(syntax).items.terms[index].name matches Some(name)
            && marked_exports(syntax).mark().exported.term_ids.contains_key(name),
{
    lemma_indexed(syntax);
    lemma_unexported(syntax.declarations@);
    lemma_declarations_sound(syntax.declarations@);
    lemma_linked_children(before_exports(syntax).items);
    let marked = marked_exports(syntax);
    lemma_exports(marked);
    let after = marked.mark();
    assert(after.terms[index].exported);
    if !after.exported.lists_term(after.terms[index]) {
        let t = choose|t: int|
            0 <= t < after.types.len() && (#[trigger] after.types[t]).exported && children_of(
                after.types[t].kind,
            ).contains(TermItemId { raw: index as u32 });
        assert(indexed(syntax).items.types[t].exported);
    }
}

/// An export of the module itself makes the list one that exports it; any other marks
/// the imports that bear the name as an alias, or without an alias as their own.
pub proof fn lemma_module_exports(before: Exported, scope: ExportScope, item: ExportItem, name: String)
    requires
        item.kind == (ExportItemKind::Module { name: Some(name) }),
    ensures
        ({
            let after = before.item(scope, item);
            &&& after.imports.dom() == before.imports.dom()
            &&& scope.module == Some(name@) ==> after.kind == ExportKind::ExplicitSelf
                && after.imports == before.imports
            &&& scope.module != Some(name@) ==> after.kind == before.kind && forall|key: u64|
                #[trigger] before.imports.contains_key(key) ==> {
                    let import = before.imports[key];
                    let meant = match import.alias {
                        Some(alias) => alias == name@,
                        None => import.name == Some(name@),
                    };
                    after.imports[key] == (Import {
                        exported: import.exported || meant,
                        ..import
                    })
                }
        }),
{
    let after = before.item(scope, item);
    assert(after.imports.dom() =~= before.imports.dom());
}

} // verus!
