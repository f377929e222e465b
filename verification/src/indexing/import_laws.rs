//! What import statements bring into a module.

use super::error::IndexingError;
use super::export_laws::{is_written, lemma_operator_text};
use super::imports::{listed_items, merged, Implicit, Import, ImportKind, ImportModel};
use super::module::Imported;
use super::source::{
    name_text, name_texts, ImportItem, ImportItemId, ImportItemKind, ImportStatement, TypeItems,
};
use vstd::prelude::*;

verus! {

/// The import item names the term.
pub open spec fn imports_term(item: ImportItem, name: Seq<char>) -> bool {
    match item.kind {
        ImportItemKind::Value { name: Some(written) } => is_written(written@, name, false),
        ImportItemKind::Operator { name: Some(written) } => is_written(written@, name, true),
        _ => false,
    }
}

/// The import item names the type, with the list behind it.
pub open spec fn imports_type(item: ImportItem, name: Seq<char>, list: Option<TypeItems>) -> bool {
    match item.kind {
        ImportItemKind::Class { name: Some(written) } => is_written(written@, name, false)
            && list is None,
        ImportItemKind::Type { name: Some(written), items } => is_written(written@, name, false)
            && list == items,
        ImportItemKind::TypeOperator { name: Some(written) } => is_written(written@, name, true)
            && list is None,
        _ => false,
    }
}

/// Operators are written within one pair of parentheses.
pub open spec fn is_regular(item: ImportItem) -> bool {
    match item.kind {
        ImportItemKind::Operator { name: Some(written) } => exists|name: Seq<char>|
            is_written(written@, name, true),
        ImportItemKind::TypeOperator { name: Some(written) } => exists|name: Seq<char>|
            is_written(written@, name, true),
        _ => true,
    }
}

/// All operators are.
pub open spec fn are_regular(items: Seq<ImportItem>) -> bool {
    forall|i: int| 0 <= i < items.len() ==> is_regular(#[trigger] items[i])
}

/// The item is the first one that names the term.
pub open spec fn is_first_import(items: Seq<ImportItem>, index: int, name: Seq<char>) -> bool {
    &&& 0 <= index < items.len()
    &&& imports_term(items[index], name)
    &&& forall|i: int| 0 <= i < index ==> !imports_term(#[trigger] items[i], name)
}

/// What one item does to the terms of an import.
proof fn lemma_item_terms(model: ImportModel, item: ImportItem, name: Seq<char>)
    requires
        is_regular(item),
    ensures
        ({
            let after = model.item(item);
            &&& model.errors.is_prefix_of(after.errors)
            &&& imports_term(item, name) ==> {
                &&& after.import.terms.contains_key(name)
                &&& !model.import.terms.contains_key(name) ==> after.import.terms[name] == item.id
                &&& model.import.terms.contains_key(name) ==> after.import.terms[name]
                    == model.import.terms[name] && after.errors.contains(
                    IndexingError::DuplicateImport {
                        duplicate: item.id,
                        existing: model.import.terms[name],
                    },
                )
            }
            &&& !imports_term(item, name) ==> {
                &&& after.import.terms.contains_key(name) == model.import.terms.contains_key(name)
                &&& model.import.terms.contains_key(name) ==> after.import.terms[name]
                    == model.import.terms[name]
            }
            &&& after.import.kind == model.import.kind
            &&& after.import.name == model.import.name
            &&& after.import.alias == model.import.alias
            &&& after.import.exported == model.import.exported
        }),
{
    let after = model.item(item);
    match item.kind {
        ImportItemKind::Operator { name: Some(written) } => {
            let own = choose|own: Seq<char>| is_written(written@, own, true);
            lemma_operator_text(written@, own);
            if is_written(written@, name, true) {
                lemma_operator_text(written@, name);
            }
        },
        _ => {},
    }
    if imports_term(item, name) && model.import.terms.contains_key(name) {
        assert(after.errors.last() == (IndexingError::DuplicateImport {
            duplicate: item.id,
            existing: model.import.terms[name],
        }));
    }
}

proof fn lemma_items_terms(model: ImportModel, items: Seq<ImportItem>, name: Seq<char>)
    requires
        are_regular(items),
        !model.import.terms.contains_key(name),
    ensures
        ({
            let after = model.items(items);
            &&& model.errors.is_prefix_of(after.errors)
            &&& after.import.terms.contains_key(name) <==> exists|i: int|
                0 <= i < items.len() && imports_term(#[trigger] items[i], name)
            &&& forall|i: int|
                #[trigger] is_first_import(items, i, name) ==> after.import.terms[name]
                    == items[i].id
            &&& forall|i: int, j: int|
                is_first_import(items, i, name) && i < j < items.len() && imports_term(
                    #[trigger] items[j],
                    name,
                ) ==> #[trigger] is_repeated(after.errors, items[j].id, items[i].id)
            &&& after.import.kind == model.import.kind
            &&& after.import.name == model.import.name
            &&& after.import.alias == model.import.alias
            &&& after.import.exported == model.import.exported
        }),
    decreases items.len(),
{
    if items.len() > 0 {
        let rest = items.drop_last();
        let last = items.len() - 1;
        assert(are_regular(rest)) by {
            assert forall|i: int| 0 <= i < rest.len() implies is_regular(#[trigger] rest[i]) by {
                assert(is_regular(items[i]));
            }
        }
        lemma_items_terms(model, rest, name);
        let before = model.items(rest);
        let after = model.items(items);
        assert(is_regular(items[last]));
        lemma_item_terms(before, items.last(), name);
        if before.import.terms.contains_key(name) {
            let i = choose|i: int| 0 <= i < rest.len() && imports_term(#[trigger] rest[i], name);
            assert(imports_term(items[i], name));
        }
        if exists|i: int| 0 <= i < items.len() && imports_term(#[trigger] items[i], name) {
            let i = choose|i: int| 0 <= i < items.len() && imports_term(#[trigger] items[i], name);
            if i < last {
                assert(imports_term(rest[i], name));
            }
        }
        if after.import.terms.contains_key(name) && !before.import.terms.contains_key(name) {
            assert(imports_term(items[last], name));
        }
        assert forall|i: int| #[trigger]
            is_first_import(items, i, name) implies after.import.terms[name] == items[i].id by {
            if i < last {
                assert(rest[i] == items[i]);
                assert forall|k: int| 0 <= k < i implies !imports_term(#[trigger] rest[k], name) by {
                    assert(rest[k] == items[k]);
                }
                assert(is_first_import(rest, i, name));
            } else {
                assert(!before.import.terms.contains_key(name)) by {
                    if before.import.terms.contains_key(name) {
                        let k = choose|k: int|
                            0 <= k < rest.len() && imports_term(#[trigger] rest[k], name);
                        assert(imports_term(items[k], name));
                    }
                }
            }
        }
        assert forall|i: int, j: int|
            is_first_import(items, i, name) && i < j < items.len() && imports_term(
                #[trigger] items[j],
                name,
            ) implies #[trigger] is_repeated(after.errors, items[j].id, items[i].id) by {
            assert(rest[i] == items[i]);
            assert forall|k: int| 0 <= k < i implies !imports_term(#[trigger] rest[k], name) by {
                assert(rest[k] == items[k]);
            }
            assert(is_first_import(rest, i, name));
            if j < last {
                assert(rest[j] == items[j]);
                assert(is_repeated(before.errors, rest[j].id, rest[i].id));
                let error = IndexingError::DuplicateImport {
                    duplicate: items[j].id,
                    existing: items[i].id,
                };
                let k = choose|k: int| 0 <= k < before.errors.len() && before.errors[k] == error;
                assert(after.errors[k] == error);
            } else {
                assert(imports_term(rest[i], name));
                assert(before.import.terms[name] == items[i].id);
            }
        }
    }
}

/// The item is reported as one that repeats another.
pub open spec fn is_repeated(
    errors: Seq<IndexingError>,
    duplicate: ImportItemId,
    existing: ImportItemId,
) -> bool {
    errors.contains(IndexingError::DuplicateImport { duplicate, existing })
}

/// An import statement brings what its list names: a term or an operator under its own
/// name, with the first item that names it. Every later item of that name is reported.
pub proof fn lemma_terms_imported(
    statement: ImportStatement,
    errors: Seq<IndexingError>,
    name: Seq<char>,
)
    requires
        statement.list is Some,
        are_regular(statement.list->0.items@),
    ensures
        ({
            let read = ImportModel::statement(statement, errors);
            let items = statement.list->0.items@;
            &&& read.import.terms.contains_key(name) <==> exists|i: int|
                0 <= i < items.len() && imports_term(#[trigger] items[i], name)
            &&& forall|i: int|
                #[trigger] is_first_import(items, i, name) ==> read.import.terms[name]
                    == items[i].id
            &&& forall|i: int, j: int|
                is_first_import(items, i, name) && i < j < items.len() && imports_term(
                    #[trigger] items[j],
                    name,
                ) ==> #[trigger] is_repeated(read.errors, items[j].id, items[i].id)
        }),
{
    let items = statement.list->0.items@;
    let bare = ImportModel::bare(statement, errors);
    let begun = ImportModel {
        import: Import {
            kind: if statement.list->0.hiding {
                ImportKind::Hidden
            } else {
                ImportKind::Explicit
            },
            ..bare.import
        },
        ..bare
    };
    lemma_items_terms(begun, items, name);
}

/// An import statement keeps the name of its module and its alias. Its list brings its
/// items or hides them; without a list it brings everything.
pub proof fn lemma_statement_kind(statement: ImportStatement, errors: Seq<IndexingError>)
    requires
        statement.list is Some ==> are_regular(statement.list->0.items@),
    ensures
        ({
            let import = ImportModel::statement(statement, errors).import;
            &&& import.name == name_text(statement.name)
            &&& import.alias == name_text(statement.alias)
            &&& !import.exported
            &&& import.kind == (match statement.list {
                None => ImportKind::Implicit,
                Some(list) => if list.hiding {
                    ImportKind::Hidden
                } else {
                    ImportKind::Explicit
                },
            })
            &&& statement.list is None ==> import.terms.dom().is_empty()
                && import.types.dom().is_empty()
        }),
{
    if let Some(list) = statement.list {
        let bare = ImportModel::bare(statement, errors);
        let begun = ImportModel {
            import: Import {
                kind: if list.hiding {
                    ImportKind::Hidden
                } else {
                    ImportKind::Explicit
                },
                ..bare.import
            },
            ..bare
        };
        lemma_items_terms(begun, list.items@, Seq::empty());
    }
}

// Types

/// The constructors that an import brings along hold what a list names.
pub open spec fn covers(implicit: Option<Implicit>, list: Option<TypeItems>) -> bool {
    match list {
        None => true,
        Some(TypeItems::All) => implicit == Some(Implicit::Everything),
        Some(TypeItems::List(names)) => match implicit {
            Some(Implicit::Everything) => true,
            Some(Implicit::Enumerated(known)) => forall|i: int|
                0 <= i < names@.len() ==> known.contains((#[trigger] names@[i])@),
            None => false,
        },
    }
}

/// What is covered stays covered when more is brought along.
proof fn lemma_merged_covers(
    existing: Option<Implicit>,
    incoming: Option<Implicit>,
    list: Option<TypeItems>,
)
    ensures
        covers(existing, list) ==> covers(merged(existing, incoming), list),
        covers(incoming, list) ==> covers(merged(existing, incoming), list),
{
}

proof fn lemma_listed_covers(items: TypeItems)
    ensures
        covers(Some(listed_items(items)), Some(items)),
{
    if let TypeItems::List(names) = items {
        let texts = name_texts(names@);
        assert forall|i: int| 0 <= i < names@.len() implies texts.to_set().contains(
            (#[trigger] names@[i])@,
        ) by {
            assert(texts[i] == names@[i]@);
        }
    }
}

/// A type that an import statement names is brought under its own name, along with the
/// constructors that the lists behind it name, all lists together.
pub proof fn lemma_types_imported(
    model: ImportModel,
    items: Seq<ImportItem>,
    index: int,
    name: Seq<char>,
    list: Option<TypeItems>,
)
    requires
        0 <= index < items.len(),
        imports_type(items[index], name, list),
    ensures
        ({
            let import = model.items(items).import;
            &&& import.types.contains_key(name)
            &&& covers(import.types[name].1, list)
        }),
    decreases items.len(),
{
    let before = model.items(items.drop_last());
    let item = items.last();
    if index == items.len() - 1 {
        if let ImportItemKind::TypeOperator { name: Some(written) } = item.kind {
            lemma_operator_text(written@, name);
        }
        if let Some(own) = list {
            lemma_listed_covers(own);
            if before.import.types.contains_key(name) {
                lemma_merged_covers(before.import.types[name].1, Some(listed_items(own)), list);
            }
        }
    } else {
        lemma_types_imported(model, items.drop_last(), index, name, list);
        let known = before.import.types[name].1;
        match item.kind {
            ImportItemKind::Type { items: Some(own), .. } => {
                lemma_merged_covers(known, Some(listed_items(own)), list);
            },
            _ => {
                lemma_merged_covers(known, None, list);
            },
        }
    }
}

// Modules

/// The import statements of a module are found by their identities.
pub proof fn lemma_imports_found(
    imported: Imported,
    statements: Seq<ImportStatement>,
    index: int,
)
    requires
        0 <= index < statements.len(),
        forall|i: int|
            index < i < statements.len() ==> (#[trigger] statements[i]).id != statements[index].id,
    ensures
        ({
            let after = imported.statements(statements);
            let key = statements[index].id.raw as u64;
            &&& after.imports.contains_key(key)
            &&& exists|errors: Seq<IndexingError>|
                after.imports[key] == (#[trigger] ImportModel::statement(
                    statements[index],
                    errors,
                )).import
        }),
    decreases statements.len(),
{
    let rest = statements.drop_last();
    let before = imported.statements(rest);
    if index == statements.len() - 1 {
        let read = ImportModel::statement(statements.last(), before.errors);
        assert(imported.statements(statements).imports[statements[index].id.raw as u64]
            == read.import);
    } else {
        assert forall|i: int| index < i < rest.len() implies (#[trigger] rest[i]).id
            != rest[index].id by {
            assert(statements[i].id != statements[index].id);
        }
        lemma_imports_found(imported, rest, index);
        assert(statements[statements.len() - 1].id != statements[index].id);
    }
}

} // verus!
