//! The index of a whole module.

use super::algorithm::{index_declaration, IndexedItems, State};
use super::error::{ExistingKind, IndexingError, ItemKind};
use super::exports::{
    imports_view, same_import_types, ExportKind, ExportScope, ExportState, Exported,
    IndexedExports, ModuleExport, TermExport, TypeExport,
};
use super::imports::{
    index_import, keeps_statement, Import, ImportModel, IndexedImport, IndexedImports,
};
use super::items::{
    DeriveItemId, IndexedDeriveItem, IndexedInstanceItem, IndexedTermItem, IndexedTermItemKind,
    IndexedTypeItem, IndexedTypeItemKind, InstanceItemId, InstanceSourceItemId, OrderedTermItemId,
    TermItem, TermItemId, TermKind, TypeItem, TypeItemId, TypeSort,
};
use super::laws::{
    children_of, has_constructors, instances_found, lemma_declarations_sound, lemma_instances_found,
    lemma_pairs_in_source_order,
};
use super::lookups::{
    chains_apart, chains_found, first_instances_found, lemma_chains_apart, lemma_chains_found,
    lemma_first_instances_found, lemma_same_terms_found, lemma_terms_found, terms_found,
};
use super::marking::{
    children_in_range, in_range, lemma_mark_keeps, marking, same_terms, same_types, Marked,
};
use super::model::{is_sort, views, Declared, Items};
use super::names::{first_entry, ItemIdentity, IndexedNames, NameIndex};
use super::pairs::{nodes_of, IndexedPairs, Pairs};
use super::stabilized::{StabilizedModule, SyntaxNodePtr};
use super::source::{
    declarations_size, in_source_order, name_text, Declaration, ImportStatement, ModuleSyntax,
};
use crate::collections::{copy_all, IdMap};
use vstd::prelude::*;

verus! {

/// The items that have a name, in order.
pub open spec fn named<Id>(names: Seq<Option<Seq<char>>>, id: spec_fn(int) -> Id) -> Seq<
    (Seq<char>, Id),
>
    decreases names.len(),
{
    if names.len() == 0 {
        Seq::empty()
    } else {
        let before = named(names.drop_last(), id);
        match names.last() {
            Some(name) => before.push((name, id(names.len() - 1))),
            None => before,
        }
    }
}

/// A complaint for every item whose name an earlier item has. It names the
/// first of them.
pub open spec fn repeated_names<Id>(
    names: Seq<Option<Seq<char>>>,
    id: spec_fn(int) -> Id,
    error: spec_fn(Id, Id) -> IndexingError,
) -> Seq<IndexingError>
    decreases names.len(),
{
    if names.len() == 0 {
        Seq::empty()
    } else {
        let before = repeated_names(names.drop_last(), id, error);
        match names.last() {
            Some(name) => match first_entry(named(names.drop_last(), id), name) {
                Some(first) => before.push(error(id(names.len() - 1), first)),
                None => before,
            },
            None => before,
        }
    }
}

pub open spec fn term_names(items: Items) -> Seq<Option<Seq<char>>> {
    items.terms.map_values(|item: TermItem| item.name)
}

pub open spec fn type_names(items: Items) -> Seq<Option<Seq<char>>> {
    items.types.map_values(|item: TypeItem| item.name)
}

pub open spec fn term_id(index: int) -> TermItemId {
    TermItemId { raw: index as u32 }
}

pub open spec fn type_id(index: int) -> TypeItemId {
    TypeItemId { raw: index as u32 }
}

pub open spec fn term_clash(id: TermItemId, existing: TermItemId) -> IndexingError {
    IndexingError::DuplicateItem {
        kind: ItemKind::Term(id),
        existing: ExistingKind::Term(existing),
    }
}

pub open spec fn type_clash(id: TypeItemId, existing: TypeItemId) -> IndexingError {
    IndexingError::DuplicateItem {
        kind: ItemKind::Type(id),
        existing: ExistingKind::Type(existing),
    }
}

/// The complaints about names that several items have.
pub open spec fn name_clashes(items: Items) -> Seq<IndexingError> {
    repeated_names(
        term_names(items),
        |i: int| term_id(i),
        |id: TermItemId, existing: TermItemId| term_clash(id, existing),
    ) + repeated_names(
        type_names(items),
        |i: int| type_id(i),
        |id: TypeItemId, existing: TypeItemId| type_clash(id, existing),
    )
}

/// An item that is found by its name comes from the list of names.
proof fn lemma_named_index<Id>(
    names: Seq<Option<Seq<char>>>,
    id: spec_fn(int) -> Id,
    name: Seq<char>,
)
    ensures
        first_entry(named(names, id), name) matches Some(first) ==> exists|i: int|
            0 <= i < names.len() && first == id(i) && #[trigger] names[i] == Some(name),
        first_entry(named(names, id), name) is None ==> forall|i: int|
            0 <= i < names.len() ==> #[trigger] names[i] != Some(name),
    decreases names.len(),
{
    if names.len() > 0 {
        let rest = names.drop_last();
        lemma_named_index(rest, id, name);
        let entries = named(names, id);
        let before = named(rest, id);
        if names.last() is Some {
            assert(entries.drop_last() =~= before);
        }
        match first_entry(before, name) {
            Some(first) => {
                let i = choose|i: int|
                    0 <= i < rest.len() && first == id(i) && #[trigger] rest[i] == Some(name);
                assert(names[i] == Some(name));
            },
            None => {
                assert forall|i: int| 0 <= i < rest.len() implies #[trigger] names[i] != Some(
                    name,
                ) by {
                    assert(rest[i] != Some(name));
                }
                if names.last() == Some(name) {
                    assert(names[names.len() - 1] == Some(name));
                }
            },
        }
    }
}

/// Names are reported as repeated exactly where two items share one.
pub proof fn lemma_repeated_names<Id>(
    names: Seq<Option<Seq<char>>>,
    id: spec_fn(int) -> Id,
    error: spec_fn(Id, Id) -> IndexingError,
)
    ensures
        repeated_names(names, id, error).len() == 0 <==> forall|i: int, j: int|
            0 <= i < j < names.len() && #[trigger] names[i] is Some ==> names[i] != #[trigger] names[j],
    decreases names.len(),
{
    if names.len() > 0 {
        let rest = names.drop_last();
        let last = names.len() - 1;
        lemma_repeated_names(rest, id, error);
        if let Some(name) = names.last() {
            lemma_named_index(rest, id, name);
            match first_entry(named(rest, id), name) {
                Some(first) => {
                    let i = choose|i: int|
                        0 <= i < rest.len() && first == id(i) && #[trigger] rest[i] == Some(name);
                    assert(names[i] is Some && names[i] == names[last]);
                },
                None => {
                    assert forall|i: int| 0 <= i < last implies #[trigger] names[i]
                        != names[last] by {
                        assert(rest[i] != Some(name));
                    }
                },
            }
        }
        if repeated_names(rest, id, error).len() == 0 {
            assert forall|i: int, j: int|
                0 <= i < j < last && #[trigger] names[i] is Some implies names[i]
                != #[trigger] names[j] by {
                assert(rest[i] is Some);
                assert(rest[i] != rest[j]);
            }
        } else {
            let (i, j) = choose|i: int, j: int|
                0 <= i < j < rest.len() && #[trigger] rest[i] is Some && rest[i]
                    == #[trigger] rest[j];
            assert(names[i] is Some);
            assert(names[i] == names[j]);
        }
    }
}

/// The imports of a module and all complaints so far.
#[verifier::ext_equal]
pub struct Imported {
    pub imports: Map<u64, Import>,
    pub errors: Seq<IndexingError>,
}

impl Imported {
    pub open spec fn statement(self, statement: ImportStatement) -> Imported {
        let read = ImportModel::statement(statement, self.errors);
        Imported {
            imports: self.imports.insert(statement.id.raw as u64, read.import),
            errors: read.errors,
        }
    }

    pub open spec fn statements(self, statements: Seq<ImportStatement>) -> Imported
        decreases statements.len(),
    {
        if statements.len() == 0 {
            self
        } else {
            self.statements(statements.drop_last()).statement(statements.last())
        }
    }
}

/// The model of [`IndexedModule`].
#[verifier::ext_equal]
pub struct Module {
    pub kind: ExportKind,
    pub term_names: Seq<(Seq<char>, TermItemId)>,
    pub type_names: Seq<(Seq<char>, TypeItemId)>,
    pub term_exports: Seq<TermExport>,
    pub type_exports: Seq<TypeExport>,
    pub module_exports: Seq<ModuleExport>,
    pub items: Items,
    pub imports: Map<u64, Import>,
    pub pairs: Pairs,
    pub errors: Seq<IndexingError>,
}

/// The index of a module before its exports are read.
pub open spec fn before_exports(syntax: ModuleSyntax) -> Module {
    let declared = Declared::empty().declarations(syntax.declarations@);
    let imported = (Imported {
        imports: Map::empty(),
        errors: declared.errors + name_clashes(declared.items),
    }).statements(syntax.imports@);
    Module {
        kind: ExportKind::Implicit,
        term_names: named(term_names(declared.items), |i: int| term_id(i)),
        type_names: named(type_names(declared.items), |i: int| type_id(i)),
        term_exports: Seq::empty(),
        type_exports: Seq::empty(),
        module_exports: Seq::empty(),
        items: declared.items,
        imports: imported.imports,
        pairs: declared.pairs,
        errors: imported.errors,
    }
}

/// The items and exports of a module when its export list has been read.
pub open spec fn marked_exports(syntax: ModuleSyntax) -> Marked {
    let module = before_exports(syntax);
    let exported = Exported {
        kind: ExportKind::Explicit,
        terms: Seq::empty(),
        types: Seq::empty(),
        modules: Seq::empty(),
        imports: module.imports,
        errors: module.errors,
        term_ids: Map::empty(),
        type_ids: Map::empty(),
    };
    let scope = ExportScope {
        module: name_text(syntax.name),
        terms: module.term_names,
        types: module.type_names,
    };
    let items = match syntax.exports {
        Some(items) => items@,
        None => Seq::empty(),
    };
    Marked {
        terms: module.items.terms,
        types: module.items.types,
        exported: exported.list(scope, items),
    }
}

/// The index of a module.
pub open spec fn indexed(syntax: ModuleSyntax) -> Module {
    let module = before_exports(syntax);
    match syntax.exports {
        None => module,
        Some(_) => {
            let marked = marked_exports(syntax).mark();
            Module {
                kind: marked.exported.kind,
                term_exports: marked.exported.terms,
                type_exports: marked.exported.types,
                module_exports: marked.exported.modules,
                items: Items { terms: marked.terms, types: marked.types, ..module.items },
                imports: marked.exported.imports,
                errors: marked.exported.errors,
                ..module
            }
        },
    }
}

pub struct IndexedModule {
    pub kind: ExportKind,
    pub names: IndexedNames,
    pub exports: IndexedExports,
    pub items: IndexedItems,
    pub imports: IndexedImports,
    pub pairs: IndexedPairs,
    pub errors: Vec<IndexingError>,
}

impl View for IndexedModule {
    type V = Module;

    open spec fn view(&self) -> Module {
        Module {
            kind: self.kind,
            term_names: self.names.terms@,
            type_names: self.names.types@,
            term_exports: views(self.exports.terms@),
            type_exports: views(self.exports.types@),
            module_exports: views(self.exports.modules@),
            items: self.items@,
            imports: imports_view(self.imports@),
            pairs: self.pairs@,
            errors: self.errors@,
        }
    }
}

/// Names all items and reports names that several items have.
fn validate_items(items: &IndexedItems, errors: &mut Vec<IndexingError>) -> (names: IndexedNames)
    requires
        items@.terms.len() <= u32::MAX,
        items@.types.len() <= u32::MAX,
    ensures
        names.terms.wf(),
        names.types.wf(),
        names.terms@ == named(term_names(items@), |i: int| term_id(i)),
        names.types@ == named(type_names(items@), |i: int| type_id(i)),
        final(errors)@ == old(errors)@ + name_clashes(items@),
{
    let ghost ids = |i: int| term_id(i);
    let ghost error = |id: TermItemId, existing: TermItemId| term_clash(id, existing);
    let ghost texts = term_names(items@);
    let mut terms: NameIndex<TermItemId> = NameIndex::new();
    let mut index: usize = 0;
    let count: usize = items.terms.len();
    assert(texts.take(0) =~= Seq::empty());
    assert(errors@ =~= old(errors)@ + repeated_names(texts.take(0), ids, error));
    while index < count
        invariant
            index <= count,
            count == items@.terms.len(),
            count <= u32::MAX,
            terms.wf(),
            texts == term_names(items@),
            ids == (|i: int| term_id(i)),
            error == (|id: TermItemId, existing: TermItemId| term_clash(id, existing)),
            terms@ == named(texts.take(index as int), ids),
            errors@ == old(errors)@ + repeated_names(texts.take(index as int), ids, error),
        decreases count - index,
    {
        let id = TermItemId { raw: index as u32 };
        assert(id == ids(index as int));
        assert(texts.take(index + 1).drop_last() =~= texts.take(index as int));
        assert(texts.take(index + 1).last() == texts[index as int]);
        assert(texts[index as int] == items@.terms[index as int].name);
        if let Some(name) = &items.terms.get(index as u32).name {
            proof {
                lemma_named_index(texts.take(index as int), ids, name@);
            }
            if let Some(existing) = terms.insert(name.clone(), id) {
                let kind = ItemKind::Term(id);
                let existing = ExistingKind::Term(existing);
                errors.push(IndexingError::DuplicateItem { kind, existing });
            }
        }
        assert(errors@ =~= old(errors)@ + repeated_names(texts.take(index + 1), ids, error));
        index += 1;
    }
    assert(texts.take(index as int) =~= texts);
    let ghost middle = errors@;

    let ghost ids = |i: int| type_id(i);
    let ghost error = |id: TypeItemId, existing: TypeItemId| type_clash(id, existing);
    let ghost texts = type_names(items@);
    let mut types: NameIndex<TypeItemId> = NameIndex::new();
    let mut index: usize = 0;
    let count: usize = items.types.len();
    assert(texts.take(0) =~= Seq::empty());
    assert(errors@ =~= middle + repeated_names(texts.take(0), ids, error));
    while index < count
        invariant
            index <= count,
            count == items@.types.len(),
            count <= u32::MAX,
            types.wf(),
            texts == type_names(items@),
            ids == (|i: int| type_id(i)),
            error == (|id: TypeItemId, existing: TypeItemId| type_clash(id, existing)),
            types@ == named(texts.take(index as int), ids),
            errors@ == middle + repeated_names(texts.take(index as int), ids, error),
        decreases count - index,
    {
        let id = TypeItemId { raw: index as u32 };
        assert(id == ids(index as int));
        assert(texts.take(index + 1).drop_last() =~= texts.take(index as int));
        assert(texts.take(index + 1).last() == texts[index as int]);
        assert(texts[index as int] == items@.types[index as int].name);
        if let Some(name) = &items.types.get(index as u32).name {
            proof {
                lemma_named_index(texts.take(index as int), ids, name@);
            }
            if let Some(existing) = types.insert(name.clone(), id) {
                let kind = ItemKind::Type(id);
                let existing = ExistingKind::Type(existing);
                errors.push(IndexingError::DuplicateItem { kind, existing });
            }
        }
        assert(errors@ =~= middle + repeated_names(texts.take(index + 1), ids, error));
        index += 1;
    }
    assert(texts.take(index as int) =~= texts);
    assert(errors@ =~= old(errors)@ + name_clashes(items@));
    IndexedNames { terms, types }
}

/// Reads all declarations.
fn index_declarations(declarations: &Vec<Declaration>) -> (state: State)
    requires
        declarations_size(declarations@) <= u32::MAX,
    ensures
        state@ == Declared::empty().declarations(declarations@),
{
    let mut state = State::new();
    let mut index: usize = 0;
    assert(declarations@.take(0) =~= Seq::empty());
    while index < declarations.len()
        invariant
            index <= declarations.len(),
            declarations_size(declarations@) <= u32::MAX,
            state@ == Declared::empty().declarations(declarations@.take(index as int)),
        decreases declarations.len() - index,
    {
        let ghost taken = declarations@.take(index + 1);
        assert(taken.drop_last() =~= declarations@.take(index as int));
        proof {
            lemma_prefix_size(declarations@, index + 1);
            lemma_declarations_sound(declarations@.take(index as int));
        }
        index_declaration(&mut state, &declarations[index]);
        index += 1;
    }
    assert(declarations@.take(index as int) =~= declarations@);
    state
}

proof fn lemma_prefix_size(declarations: Seq<Declaration>, count: int)
    requires
        0 <= count <= declarations.len(),
    ensures
        declarations_size(declarations.take(count)) <= declarations_size(declarations),
    decreases declarations.len(),
{
    if count < declarations.len() {
        lemma_prefix_size(declarations.drop_last(), count);
        assert(declarations.drop_last().take(count) =~= declarations.take(count));
    } else {
        assert(declarations.take(count) =~= declarations);
    }
}

/// The last import statement with an identity.
pub open spec fn last_statement(statements: Seq<ImportStatement>, id: u64) -> Option<ImportStatement>
    decreases statements.len(),
{
    if statements.len() == 0 {
        None
    } else if statements.last().id.raw == id {
        Some(statements.last())
    } else {
        last_statement(statements.drop_last(), id)
    }
}

/// The types of every import keep the lists that are written behind them, with
/// their order and their repetitions.
pub open spec fn keeps_statements(
    imports: Map<u64, IndexedImport>,
    statements: Seq<ImportStatement>,
) -> bool {
    forall|id: u64| #[trigger]
        imports.contains_key(id) ==> (last_statement(statements, id) matches Some(statement)
            && keeps_statement(imports[id].types@, statement))
}

/// Reads all import statements.
fn index_imports(errors: &mut Vec<IndexingError>, statements: &Vec<ImportStatement>) -> (imports:
    IndexedImports)
    ensures
        (Imported { imports: imports_view(imports@), errors: final(errors)@ }) == (Imported {
            imports: Map::empty(),
            errors: old(errors)@,
        }).statements(statements@),
        keeps_statements(imports@, statements@),
{
    let mut imports: IndexedImports = IdMap::new();
    let ghost before = Imported { imports: Map::empty(), errors: errors@ };
    let mut index: usize = 0;
    assert(statements@.take(0) =~= Seq::empty());
    assert(imports_view(imports@) =~= Map::empty());
    while index < statements.len()
        invariant
            index <= statements.len(),
            (Imported { imports: imports_view(imports@), errors: errors@ }) == before.statements(
                statements@.take(index as int),
            ),
            keeps_statements(imports@, statements@.take(index as int)),
        decreases statements.len() - index,
    {
        let statement = &statements[index];
        let ghost current = imports_view(imports@);
        assert(statements@.take(index + 1).drop_last() =~= statements@.take(index as int));
        let ghost shorter = imports@;
        let import = index_import(errors, statement);
        let ghost model = import@;
        imports.insert(statement.id.raw as u64, import);
        assert(imports_view(imports@) =~= current.insert(statement.id.raw as u64, model));
        assert forall|id: u64| #[trigger] imports@.contains_key(id) implies (last_statement(
            statements@.take(index + 1),
            id,
        ) matches Some(statement) && keeps_statement(imports@[id].types@, statement)) by {
            if id != statement.id.raw {
                assert(shorter.contains_key(id));
            }
        }
        index += 1;
    }
    assert(statements@.take(index as int) =~= statements@);
    imports
}

/// Linked items have all their constructors and members.
pub proof fn lemma_linked_children(items: Items)
    requires
        items.sound(),
    ensures
        children_in_range(items.types, items.terms.len()),
{
    assert forall|t: int| 0 <= t < items.types.len() implies in_range(
        children_of((#[trigger] items.types[t]).kind),
        items.terms.len(),
    ) by {
        let children = children_of(items.types[t].kind);
        assert forall|c: int| 0 <= c < children.len() implies (#[trigger] children[c]).raw
            < items.terms.len() by {
            assert(items.child_linked(t, children_of(items.types[t].kind)[c]));
        }
    }
}

/// Marking keeps the items sound.
proof fn lemma_same_sound(before: Items, after: Items)
    requires
        before.sound(),
        same_terms(after.terms, before.terms),
        same_types(after.types, before.types),
        after == (Items { terms: after.terms, types: after.types, ..before }),
    ensures
        after.sound(),
{
    assert forall|t: int, c: int|
        0 <= t < after.types.len() && 0 <= c < children_of(
            after.types[t].kind,
        ).len() implies after.child_linked(t, #[trigger] children_of(after.types[t].kind)[c]) by {
        assert(after.types[t].kind == before.types[t].kind);
        assert(before.child_linked(t, children_of(before.types[t].kind)[c]));
        let child = children_of(before.types[t].kind)[c].raw as int;
        assert(after.terms[child].kind == before.terms[child].kind);
    }
    assert forall|k: int| 0 <= k < after.terms.len() implies #[trigger] after.parent_linked(k) by {
        assert(before.parent_linked(k));
        assert(after.terms[k].kind == before.terms[k].kind);
        match after.terms[k].kind {
            TermKind::ClassMember { parent, .. } => {
                assert(after.types[parent.raw as int].kind == before.types[parent.raw as int].kind);
            },
            TermKind::Constructor { type_id: Some(id), .. } => {
                assert(after.types[id.raw as int].kind == before.types[id.raw as int].kind);
            },
            _ => {},
        }
    }
}

/// Indexes a module.
///
/// The identities of the module's syntax are numbered in the order of the
/// source.
pub fn index_module(syntax: &ModuleSyntax) -> (module: IndexedModule)
    requires
        declarations_size(syntax.declarations@) <= u32::MAX,
        in_source_order(syntax.declarations@),
    ensures
        module@ == indexed(*syntax),
        module.names.terms.wf(),
        module.names.types.wf(),
        module@.pairs.wf(),
        module@.items.sound(),
        instances_found(module@.items, module@.pairs),
        chains_found(syntax.declarations@, module@.pairs),
        chains_apart(syntax.declarations@, module@.pairs),
        first_instances_found(syntax.declarations@, module@.items, module@.pairs),
        terms_found(module@.items, module@.pairs),
        keeps_statements(module.imports@, syntax.imports@),
{
    let state = index_declarations(&syntax.declarations);
    proof {
        lemma_declarations_sound(syntax.declarations@);
        lemma_pairs_in_source_order(syntax.declarations@);
        lemma_instances_found(syntax.declarations@);
        lemma_chains_found(syntax.declarations@);
        lemma_chains_apart(syntax.declarations@);
        lemma_first_instances_found(syntax.declarations@);
        lemma_terms_found(syntax.declarations@);
    }
    let (mut items, pairs, mut errors) = state.into_parts();
    let ghost declared_items = items@;
    let names = validate_items(&items, &mut errors);
    let imports = index_imports(&mut errors, &syntax.imports);
    let ghost read = imports@;
    let exports = IndexedExports { terms: Vec::new(), types: Vec::new(), modules: Vec::new() };
    let module = match &syntax.exports {
        None => {
            let module = IndexedModule {
                kind: ExportKind::Implicit,
                names,
                exports,
                items,
                imports,
                pairs,
                errors,
            };
            assert(module@ =~= indexed(*syntax));
            module
        },
        Some(list) => {
            assert(views(exports.terms@) =~= Seq::empty());
            assert(views(exports.types@) =~= Seq::empty());
            assert(views(exports.modules@) =~= Seq::empty());
            let mut state = ExportState::new(exports, imports, errors);
            state.index_export_list(&syntax.name, &names, list);
            assert(children_in_range(items@.types, items@.terms.len())) by {
                lemma_linked_children(items@);
            }
            assert(marking(items, state) =~= marked_exports(*syntax));
            state.mark_items(&mut items);
            proof {
                lemma_mark_keeps(marked_exports(*syntax));
                lemma_same_sound(declared_items, items@);
                lemma_same_terms_found(declared_items, items@, pairs@);
            }
            let (kind, exports, imports, errors) = state.into_parts();
            assert(keeps_statements(imports@, syntax.imports@)) by {
                assert(same_import_types(read, imports@));
                assert forall|id: u64| #[trigger] imports@.contains_key(id) implies (
                last_statement(syntax.imports@, id) matches Some(statement) && keeps_statement(
                    imports@[id].types@,
                    statement,
                )) by {
                    assert(read.contains_key(id));
                }
            }
            let module = IndexedModule { kind, names, exports, items, imports, pairs, errors };
            assert(module@ =~= indexed(*syntax));
            module
        },
    };
    module
}

impl IndexedModule {
    /// The syntax nodes of a term: its declarations, or its data constructor, or
    /// its class member.
    pub fn term_item_ptr(&self, stabilized: &StabilizedModule, id: TermItemId) -> (nodes: Vec<
        SyntaxNodePtr,
    >)
        ensures
            nodes@ == stabilized.pointers_of(
                nodes_of(self@.pairs.declaration_to_term, id) + nodes_of(
                    self@.pairs.constructor_to_term,
                    id,
                ) + nodes_of(self@.pairs.class_member_to_term, id),
            ),
    {
        let nodes = self.pairs.term_nodes(id);
        stabilized.pointers(&nodes)
    }

    /// The syntax nodes of a type.
    pub fn type_item_ptr(&self, stabilized: &StabilizedModule, id: TypeItemId) -> (nodes: Vec<
        SyntaxNodePtr,
    >)
        ensures
            nodes@ == stabilized.pointers_of(nodes_of(self@.pairs.declaration_to_type, id)),
    {
        let nodes = self.pairs.type_nodes(id);
        stabilized.pointers(&nodes)
    }

    /// The constructors of a data type or a newtype.
    pub fn data_constructors(&self, id: TypeItemId) -> (constructors: Vec<TermItemId>)
        requires
            id.raw < self@.items.types.len(),
        ensures
            constructors@ == (if has_constructors(self@.items.types[id.raw as int].kind) {
                children_of(self@.items.types[id.raw as int].kind)
            } else {
                Seq::empty()
            }),
    {
        match &self.items.types.get(id.raw).kind {
            IndexedTypeItemKind::Data { constructors, .. } => copy_all(constructors),
            IndexedTypeItemKind::Newtype { constructors, .. } => copy_all(constructors),
            _ => Vec::new(),
        }
    }

    /// The type that a constructor belongs to.
    pub fn constructor_type(&self, id: TermItemId) -> (type_id: Option<TypeItemId>)
        ensures
            type_id == self@.items.constructor_type(id),
    {
        if id.raw as usize >= self.items.terms.len() {
            return None;
        }
        match &self.items.terms.get(id.raw).kind {
            IndexedTermItemKind::Constructor { type_id, .. } => *type_id,
            _ => None,
        }
    }

    /// The members of a class.
    pub fn class_members(&self, id: TypeItemId) -> (members: Vec<TermItemId>)
        requires
            id.raw < self@.items.types.len(),
        ensures
            members@ == (if is_sort(self@.items.types[id.raw as int].kind, TypeSort::Class) {
                children_of(self@.items.types[id.raw as int].kind)
            } else {
                Seq::empty()
            }),
    {
        match &self.items.types.get(id.raw).kind {
            IndexedTypeItemKind::Class { members, .. } => copy_all(members),
            _ => Vec::new(),
        }
    }
}

impl Items {
    /// The type that a constructor belongs to.
    pub open spec fn constructor_type(self, id: TermItemId) -> Option<TypeItemId> {
        if id.raw >= self.terms.len() {
            None
        } else {
            match self.terms[id.raw as int].kind {
                TermKind::Constructor { type_id, .. } => type_id,
                _ => None,
            }
        }
    }
}

/// A constructor belongs to a type exactly where it is one of the type's
/// constructors.
pub proof fn lemma_constructor_type(items: Items, id: TermItemId, type_id: TypeItemId)
    requires
        items.sound(),
        type_id.raw < items.types.len(),
    ensures
        items.constructor_type(id) == Some(type_id) <==> has_constructors(
            items.types[type_id.raw as int].kind,
        ) && children_of(items.types[type_id.raw as int].kind).contains(id),
{
    let index = type_id.raw as int;
    let children = children_of(items.types[index].kind);
    if items.constructor_type(id) == Some(type_id) {
        assert(items.parent_linked(id.raw as int));
    }
    if has_constructors(items.types[index].kind) && children.contains(id) {
        let c = choose|c: int| 0 <= c < children.len() && children[c] == id;
        assert(items.child_linked(index, children_of(items.types[index].kind)[c]));
    }
}

impl IndexedItems {
    /// All terms with their identities.
    pub fn iter_terms(&self) -> (terms: Vec<(TermItemId, &IndexedTermItem)>)
        requires
            self@.terms.len() <= u32::MAX,
        ensures
            terms@.len() == self@.terms.len(),
            forall|i: int|
                0 <= i < terms@.len() ==> (#[trigger] terms@[i]).0 == term_id(i) && terms@[i].1@
                    == self@.terms[i],
    {
        let mut terms: Vec<(TermItemId, &IndexedTermItem)> = Vec::new();
        let count: usize = self.terms.len();
        let mut index: usize = 0;
        while index < count
            invariant
                index <= count,
                count == self@.terms.len(),
                count <= u32::MAX,
                terms@.len() == index,
                forall|i: int|
                    0 <= i < index ==> (#[trigger] terms@[i]).0 == term_id(i) && terms@[i].1@
                        == self@.terms[i],
            decreases count - index,
        {
            let id = TermItemId { raw: index as u32 };
            terms.push((id, self.terms.get(id.raw)));
            index += 1;
        }
        terms
    }

    /// All types with their identities.
    pub fn iter_types(&self) -> (types: Vec<(TypeItemId, &IndexedTypeItem)>)
        requires
            self@.types.len() <= u32::MAX,
        ensures
            types@.len() == self@.types.len(),
            forall|i: int|
                0 <= i < types@.len() ==> (#[trigger] types@[i]).0 == type_id(i) && types@[i].1@
                    == self@.types[i],
    {
        let mut types: Vec<(TypeItemId, &IndexedTypeItem)> = Vec::new();
        let count: usize = self.types.len();
        let mut index: usize = 0;
        while index < count
            invariant
                index <= count,
                count == self@.types.len(),
                count <= u32::MAX,
                types@.len() == index,
                forall|i: int|
                    0 <= i < index ==> (#[trigger] types@[i]).0 == type_id(i) && types@[i].1@
                        == self@.types[i],
            decreases count - index,
        {
            let id = TypeItemId { raw: index as u32 };
            types.push((id, self.types.get(id.raw)));
            index += 1;
        }
        types
    }

    /// All instances with their identities.
    pub fn iter_instances(&self) -> (instances: Vec<(InstanceItemId, &IndexedInstanceItem)>)
        requires
            self@.instances.len() <= u32::MAX,
        ensures
            instances@.len() == self@.instances.len(),
            forall|i: int|
                0 <= i < instances@.len() ==> (#[trigger] instances@[i]).0.raw == i
                    && instances@[i].1@ == self@.instances[i],
    {
        let mut instances: Vec<(InstanceItemId, &IndexedInstanceItem)> = Vec::new();
        let count: usize = self.instances.len();
        let mut index: usize = 0;
        while index < count
            invariant
                index <= count,
                count == self@.instances.len(),
                count <= u32::MAX,
                instances@.len() == index,
                forall|i: int|
                    0 <= i < index ==> (#[trigger] instances@[i]).0.raw == i && instances@[i].1@
                        == self@.instances[i],
            decreases count - index,
        {
            let id = InstanceItemId { raw: index as u32 };
            instances.push((id, self.instances.get(id.raw)));
            index += 1;
        }
        instances
    }

    /// All derived instances with their identities.
    pub fn iter_derives(&self) -> (derives: Vec<(DeriveItemId, &IndexedDeriveItem)>)
        requires
            self@.derives.len() <= u32::MAX,
        ensures
            derives@.len() == self@.derives.len(),
            forall|i: int|
                0 <= i < derives@.len() ==> (#[trigger] derives@[i]).0.raw == i && derives@[i].1@
                    == self@.derives[i],
    {
        let mut derives: Vec<(DeriveItemId, &IndexedDeriveItem)> = Vec::new();
        let count: usize = self.derives.len();
        let mut index: usize = 0;
        while index < count
            invariant
                index <= count,
                count == self@.derives.len(),
                count <= u32::MAX,
                derives@.len() == index,
                forall|i: int|
                    0 <= i < index ==> (#[trigger] derives@[i]).0.raw == i && derives@[i].1@
                        == self@.derives[i],
            decreases count - index,
        {
            let id = DeriveItemId { raw: index as u32 };
            derives.push((id, self.derives.get(id.raw)));
            index += 1;
        }
        derives
    }

    /// A term.
    pub fn term(&self, id: TermItemId) -> (item: &IndexedTermItem)
        requires
            id.raw < self@.terms.len(),
        ensures
            item@ == self@.terms[id.raw as int],
    {
        self.terms.get(id.raw)
    }

    /// A type.
    pub fn type_(&self, id: TypeItemId) -> (item: &IndexedTypeItem)
        requires
            id.raw < self@.types.len(),
        ensures
            item@ == self@.types[id.raw as int],
    {
        self.types.get(id.raw)
    }

    /// All instances and derived instances, in the order of declaration.
    pub fn instance_sources(&self) -> (sources: &Vec<InstanceSourceItemId>)
        ensures
            sources@ == self@.instance_sources,
    {
        &self.instance_sources
    }

    /// All items of the term level, in the order of declaration.
    pub fn ordered_terms(&self) -> (terms: &Vec<OrderedTermItemId>)
        ensures
            terms@ == self@.ordered_terms,
    {
        &self.ordered_terms
    }
}

} // verus!
