//! Collects what a module exports.

use super::error::IndexingError;
use super::imports::{operator_name, operator_text, Import, IndexedImport, IndexedImports};
use super::items::{TermItemId, TypeItemId};
use super::model::views;
use super::names::{first_entry, IndexedNames};
use super::source::{name_text, name_texts, ExportItem, ExportItemId, ExportItemKind, TypeItems};
use crate::collections::NameMap;
use vstd::prelude::*;

verus! {

#[derive(Debug, Clone, Copy, PartialEq, Eq, Structural)]
pub enum ExportKind {
    /// module Main where
    Implicit,
    /// module Main (value, Type, ...) where
    Explicit,
    /// module Main (module Main, ...) where
    ExplicitSelf,
}

impl Default for ExportKind {
    fn default() -> (kind: Self)
        ensures
            kind == ExportKind::Implicit,
    {
        ExportKind::Implicit
    }
}

/// The constructors that are exported with a type.
#[derive(Debug)]
pub enum TypeSelection {
    Everything,
    Enumerated(Vec<String>),
}

/// The model of [`TypeSelection`].
pub enum Selection {
    Everything,
    Enumerated(Seq<Seq<char>>),
}

impl View for TypeSelection {
    type V = Selection;

    open spec fn view(&self) -> Selection {
        match *self {
            TypeSelection::Everything => Selection::Everything,
            TypeSelection::Enumerated(names) => Selection::Enumerated(name_texts(names@)),
        }
    }
}

pub open spec fn selection_view(selection: Option<TypeSelection>) -> Option<Selection> {
    match selection {
        Some(selection) => Some(selection@),
        None => None,
    }
}

/// What the list behind an exported type selects.
pub open spec fn selected(items: Option<TypeItems>) -> Option<Selection> {
    match items {
        None => None,
        Some(TypeItems::All) => Some(Selection::Everything),
        Some(TypeItems::List(names)) => Some(Selection::Enumerated(name_texts(names@))),
    }
}

/// A list of names, copied.
fn copy_names(names: &Vec<String>) -> (copies: Vec<String>)
    ensures
        name_texts(copies@) == name_texts(names@),
{
    let mut copies: Vec<String> = Vec::new();
    let mut index: usize = 0;
    while index < names.len()
        invariant
            index <= names.len(),
            copies@.len() == index,
            forall|i: int| 0 <= i < index ==> (#[trigger] copies@[i])@ == names@[i]@,
        decreases names.len() - index,
    {
        copies.push(names[index].clone());
        index += 1;
    }
    assert(name_texts(copies@) =~= name_texts(names@));
    copies
}

fn type_selection(items: &Option<TypeItems>) -> (selection: Option<TypeSelection>)
    ensures
        selection_view(selection) == selected(*items),
{
    match items {
        None => None,
        Some(TypeItems::All) => Some(TypeSelection::Everything),
        Some(TypeItems::List(names)) => Some(TypeSelection::Enumerated(copy_names(names))),
    }
}

#[derive(Debug)]
pub struct IndexedExport {
    pub id: ExportItemId,
    pub name: String,
    pub item: Option<TermItemId>,
}

#[derive(Debug)]
pub struct IndexedTypeExport {
    pub id: ExportItemId,
    pub name: String,
    pub item: Option<TypeItemId>,
    pub selection: Option<TypeSelection>,
}

#[derive(Debug)]
pub struct IndexedModuleExport {
    pub id: ExportItemId,
    pub name: String,
}

#[derive(Debug)]
pub struct IndexedExports {
    pub terms: Vec<IndexedExport>,
    pub types: Vec<IndexedTypeExport>,
    pub modules: Vec<IndexedModuleExport>,
}

pub struct TermExport {
    pub id: ExportItemId,
    pub name: Seq<char>,
    pub item: Option<TermItemId>,
}

pub struct TypeExport {
    pub id: ExportItemId,
    pub name: Seq<char>,
    pub item: Option<TypeItemId>,
    pub selection: Option<Selection>,
}

pub struct ModuleExport {
    pub id: ExportItemId,
    pub name: Seq<char>,
}

impl View for IndexedExport {
    type V = TermExport;

    open spec fn view(&self) -> TermExport {
        TermExport { id: self.id, name: self.name@, item: self.item }
    }
}

impl View for IndexedTypeExport {
    type V = TypeExport;

    open spec fn view(&self) -> TypeExport {
        TypeExport {
            id: self.id,
            name: self.name@,
            item: self.item,
            selection: selection_view(self.selection),
        }
    }
}

impl View for IndexedModuleExport {
    type V = ModuleExport;

    open spec fn view(&self) -> ModuleExport {
        ModuleExport { id: self.id, name: self.name@ }
    }
}

/// What is in scope where exports are read.
pub struct ExportScope {
    /// The name of the module itself.
    pub module: Option<Seq<char>>,
    pub terms: Seq<(Seq<char>, TermItemId)>,
    pub types: Seq<(Seq<char>, TypeItemId)>,
}

/// The model of the pass over the export list.
#[verifier::ext_equal]
pub struct Exported {
    pub kind: ExportKind,
    pub terms: Seq<TermExport>,
    pub types: Seq<TypeExport>,
    pub modules: Seq<ModuleExport>,
    pub imports: Map<u64, Import>,
    pub errors: Seq<IndexingError>,
    /// The first export of each term.
    pub term_ids: Map<Seq<char>, ExportItemId>,
    /// The first export of each type, with what it selects.
    pub type_ids: Map<Seq<char>, (ExportItemId, Option<Selection>)>,
}

/// Whether an export of a module means the import: by its alias, or by its name
/// where it has none.
pub open spec fn exported_as(import: Import, name: Seq<char>) -> bool {
    import.alias == Some(name) || (import.alias is None && import.name == Some(name))
}

/// The imports after an export of a module.
pub open spec fn reexported(imports: Map<u64, Import>, name: Seq<char>) -> Map<u64, Import> {
    imports.map_values(
        |import: Import|
            if exported_as(import, name) {
                Import { exported: true, ..import }
            } else {
                import
            },
    )
}

impl Exported {
    /// A term is exported once; later exports of it are reported.
    pub open spec fn mark_term(self, name: Seq<char>, id: ExportItemId) -> Exported {
        if self.term_ids.contains_key(name) {
            Exported {
                errors: self.errors.push(
                    IndexingError::DuplicateExport { id, existing: self.term_ids[name] },
                ),
                ..self
            }
        } else {
            Exported { term_ids: self.term_ids.insert(name, id), ..self }
        }
    }

    pub open spec fn term(self, scope: ExportScope, name: Seq<char>, id: ExportItemId) -> Exported {
        Exported {
            terms: self.terms.push(TermExport { id, name, item: first_entry(scope.terms, name) }),
            ..self
        }.mark_term(name, id)
    }

    /// A type is exported once; later exports of it are reported and select
    /// nothing.
    pub open spec fn type_(
        self,
        scope: ExportScope,
        name: Seq<char>,
        id: ExportItemId,
        selection: Option<Selection>,
    ) -> Exported {
        let listed = Exported {
            types: self.types.push(
                TypeExport { id, name, item: first_entry(scope.types, name), selection },
            ),
            ..self
        };
        if self.type_ids.contains_key(name) {
            Exported {
                errors: self.errors.push(
                    IndexingError::DuplicateExport { id, existing: self.type_ids[name].0 },
                ),
                ..listed
            }
        } else {
            Exported { type_ids: self.type_ids.insert(name, (id, selection)), ..listed }
        }
    }

    /// An export of the module itself, or of the imports that the name means.
    pub open spec fn module(self, scope: ExportScope, name: Seq<char>, id: ExportItemId) -> Exported {
        let listed = Exported { modules: self.modules.push(ModuleExport { id, name }), ..self };
        if scope.module == Some(name) {
            Exported { kind: ExportKind::ExplicitSelf, ..listed }
        } else {
            Exported { imports: reexported(self.imports, name), ..listed }
        }
    }

    /// What one more item of the export list adds. An item without a name adds
    /// nothing.
    pub open spec fn item(self, scope: ExportScope, item: ExportItem) -> Exported {
        match item.kind {
            ExportItemKind::Value { name: Some(name) } => self.term(scope, name@, item.id),
            ExportItemKind::Class { name: Some(name) } => self.type_(scope, name@, item.id, None),
            ExportItemKind::Type { name: Some(name), items } => self.type_(
                scope,
                name@,
                item.id,
                selected(items),
            ),
            ExportItemKind::Operator { name: Some(name) } => self.term(
                scope,
                operator_text(name@),
                item.id,
            ),
            ExportItemKind::TypeOperator { name: Some(name) } => self.type_(
                scope,
                operator_text(name@),
                item.id,
                None,
            ),
            ExportItemKind::Module { name: Some(name) } => self.module(scope, name@, item.id),
            _ => self,
        }
    }

    pub open spec fn list(self, scope: ExportScope, items: Seq<ExportItem>) -> Exported
        decreases items.len(),
    {
        if items.len() == 0 {
            self
        } else {
            self.list(scope, items.drop_last()).item(scope, items.last())
        }
    }
}

/// The state of the pass over the export list.
pub struct ExportState {
    pub(crate) kind: ExportKind,
    pub(crate) exports: IndexedExports,
    pub(crate) imports: IndexedImports,
    pub(crate) errors: Vec<IndexingError>,
    pub(crate) terms: NameMap<ExportItemId>,
    pub(crate) types: NameMap<(ExportItemId, Option<TypeSelection>)>,
}

/// The model of the imports of a module.
pub open spec fn imports_view(imports: Map<u64, IndexedImport>) -> Map<u64, Import> {
    imports.map_values(|import: IndexedImport| import@)
}

/// The same imports, with the same types.
pub open spec fn same_import_types(
    before: Map<u64, IndexedImport>,
    after: Map<u64, IndexedImport>,
) -> bool {
    &&& after.dom() == before.dom()
    &&& forall|id: u64| #[trigger] before.contains_key(id) ==> after[id].types == before[id].types
}

pub open spec fn selections_view(
    types: Map<Seq<char>, (ExportItemId, Option<TypeSelection>)>,
) -> Map<Seq<char>, (ExportItemId, Option<Selection>)> {
    types.map_values(
        |entry: (ExportItemId, Option<TypeSelection>)| (entry.0, selection_view(entry.1)),
    )
}

impl View for ExportState {
    type V = Exported;

    closed spec fn view(&self) -> Exported {
        Exported {
            kind: self.kind,
            terms: views(self.exports.terms@),
            types: views(self.exports.types@),
            modules: views(self.exports.modules@),
            imports: imports_view(self.imports@),
            errors: self.errors@,
            term_ids: self.terms@,
            type_ids: selections_view(self.types@),
        }
    }
}

/// What is in scope where exports are read.
pub open spec fn scope_of(module: Option<String>, names: IndexedNames) -> ExportScope {
    ExportScope { module: name_text(module), terms: names.terms@, types: names.types@ }
}

impl ExportState {
    /// The state before an export list is read.
    pub(crate) fn new(
        exports: IndexedExports,
        imports: IndexedImports,
        errors: Vec<IndexingError>,
    ) -> (state: ExportState)
        ensures
            state@ == (Exported {
                kind: ExportKind::Explicit,
                terms: views(exports.terms@),
                types: views(exports.types@),
                modules: views(exports.modules@),
                imports: imports_view(imports@),
                errors: errors@,
                term_ids: Map::empty(),
                type_ids: Map::empty(),
            }),
            state.imports == imports,
    {
        let state = ExportState {
            kind: ExportKind::Explicit,
            exports,
            imports,
            errors,
            terms: NameMap::new(),
            types: NameMap::new(),
        };
        assert(selections_view(state.types@) =~= Map::empty());
        state
    }

    /// The kind of the exports, the exports, the imports and the errors.
    pub(crate) fn into_parts(self) -> (parts: (
        ExportKind,
        IndexedExports,
        IndexedImports,
        Vec<IndexingError>,
    ))
        ensures
            parts.0 == self@.kind,
            views(parts.1.terms@) == self@.terms,
            views(parts.1.types@) == self@.types,
            views(parts.1.modules@) == self@.modules,
            imports_view(parts.2@) == self@.imports,
            parts.3@ == self@.errors,
            parts.2 == self.imports,
    {
        (self.kind, self.exports, self.imports, self.errors)
    }

    pub(crate) fn mark_exported_term_name(&mut self, name: String, id: ExportItemId)
        ensures
            final(self)@ == old(self)@.mark_term(name@, id),
            final(self).imports == old(self).imports,
    {
        let existing = match self.terms.get(name.as_str()) {
            Some(existing) => Some(*existing),
            None => None,
        };
        match existing {
            Some(existing) => self.errors.push(IndexingError::DuplicateExport { id, existing }),
            None => self.terms.insert(name, id),
        }
        assert(self@ =~= old(self)@.mark_term(name@, id));
    }

    /// The first export of a type, with what it selects.
    pub(crate) fn exported_type(&self, name: &String) -> (export: Option<
        (ExportItemId, Option<TypeSelection>),
    >)
        ensures
            export is Some <==> self@.type_ids.contains_key(name@),
            export matches Some(export) ==> (export.0, selection_view(export.1))
                == self@.type_ids[name@],
    {
        match self.types.get(name.as_str()) {
            Some((id, selection)) => {
                let selection = match selection {
                    Some(TypeSelection::Everything) => Some(TypeSelection::Everything),
                    Some(TypeSelection::Enumerated(names)) => Some(
                        TypeSelection::Enumerated(copy_names(names)),
                    ),
                    None => None,
                };
                Some((*id, selection))
            },
            None => None,
        }
    }

    /// Whether a term of the name is exported.
    pub(crate) fn exports_term(&self, name: &String) -> (exported: bool)
        ensures
            exported == self@.term_ids.contains_key(name@),
    {
        self.terms.get(name.as_str()).is_some()
    }

    /// Reports an export that selects a constructor which the type lacks.
    pub(crate) fn push_invalid_export(&mut self, id: ExportItemId)
        ensures
            final(self)@ == (Exported {
                errors: old(self)@.errors.push(IndexingError::InvalidExport { id }),
                ..old(self)@
            }),
            final(self).imports == old(self).imports,
    {
        self.errors.push(IndexingError::InvalidExport { id });
    }

    fn index_export_term(
        &mut self,
        Ghost(module): Ghost<Option<String>>,
        names: &IndexedNames,
        name: &str,
        id: ExportItemId,
    )
        requires
            names.terms.wf(),
        ensures
            final(self)@ == old(self)@.term(scope_of(module, *names), name@, id),
            final(self).imports == old(self).imports,
    {
        let item = names.terms.lookup(name);
        let export = IndexedExport { id, name: name.to_owned(), item };
        let ghost model = export@;
        self.exports.terms.push(export);
        assert(views(self.exports.terms@) =~= views(old(self).exports.terms@).push(model));
        self.mark_exported_term_name(name.to_owned(), id);
    }

    fn index_export_type(
        &mut self,
        Ghost(module): Ghost<Option<String>>,
        names: &IndexedNames,
        name: &str,
        id: ExportItemId,
        items: &Option<TypeItems>,
    )
        requires
            names.types.wf(),
        ensures
            final(self)@ == old(self)@.type_(scope_of(module, *names), name@, id, selected(*items)),
            final(self).imports == old(self).imports,
    {
        let item = names.types.lookup(name);
        let export = IndexedTypeExport {
            id,
            name: name.to_owned(),
            item,
            selection: type_selection(items),
        };
        let ghost model = export@;
        self.exports.types.push(export);
        assert(views(self.exports.types@) =~= views(old(self).exports.types@).push(model));
        let existing = match self.types.get(name) {
            Some(existing) => Some(existing.0),
            None => None,
        };
        match existing {
            Some(existing) => self.errors.push(IndexingError::DuplicateExport { id, existing }),
            None => {
                self.types.insert(name.to_owned(), (id, type_selection(items)));
                assert(selections_view(self.types@) =~= old(self)@.type_ids.insert(
                    name@,
                    (id, selected(*items)),
                ));
            },
        }
        assert(self@ =~= old(self)@.type_(scope_of(module, *names), name@, id, selected(*items)));
    }

    /// Marks the imports that an export of a module means.
    fn reexport(&mut self, name: &String)
        ensures
            final(self)@ == (Exported {
                imports: reexported(old(self)@.imports, name@),
                ..old(self)@
            }),
            same_import_types(old(self).imports@, final(self).imports@),
    {
        let ids = self.imports.keys();
        let ghost before = self.imports@;
        let mut index: usize = 0;
        while index < ids.len()
            invariant
                index <= ids.len(),
                ids@.no_duplicates(),
                before == old(self).imports@,
                forall|i: int| 0 <= i < ids@.len() ==> before.contains_key(#[trigger] ids@[i]),
                forall|id: u64| #[trigger]
                    before.contains_key(id) ==> exists|i: int|
                        0 <= i < ids@.len() && #[trigger] ids@[i] == id,
                self.imports@.dom() == before.dom(),
                forall|i: int|
                    0 <= i < index ==> self.imports@[#[trigger] ids@[i]]@ == (if exported_as(
                        before[ids@[i]]@,
                        name@,
                    ) {
                        Import { exported: true, ..before[ids@[i]]@ }
                    } else {
                        before[ids@[i]]@
                    }),
                forall|i: int|
                    index <= i < ids@.len() ==> self.imports@[#[trigger] ids@[i]]
                        == before[ids@[i]],
                same_import_types(before, self.imports@),
                self.kind == old(self).kind,
                self.exports == old(self).exports,
                self.errors == old(self).errors,
                self.terms == old(self).terms,
                self.types == old(self).types,
            decreases ids.len() - index,
        {
            let ghost current = self.imports@;
            let id = ids[index];
            match self.imports.get_mut(id) {
                Some(import) => {
                    let using_alias = match &import.alias {
                        Some(alias) => *alias == *name,
                        None => false,
                    };
                    let using_name = match (&import.alias, &import.name) {
                        (None, Some(own)) => *own == *name,
                        _ => false,
                    };
                    if using_alias || using_name {
                        import.exported = true;
                    }
                },
                None => {},
            }
            assert(self.imports@.dom() =~= before.dom());
            assert forall|i: int| 0 <= i < ids@.len() && i != index implies self.imports@[#[trigger] ids@[i]]
                == current[ids@[i]] by {
                assert(ids@[i] != ids@[index as int]);
            }
            index += 1;
        }
        assert forall|id: u64| #[trigger] before.contains_key(id) implies imports_view(
            self.imports@,
        )[id] == reexported(imports_view(before), name@)[id] by {
            let i = choose|i: int| 0 <= i < ids@.len() && #[trigger] ids@[i] == id;
            assert(self.imports@[ids@[i]]@ == (if exported_as(before[ids@[i]]@, name@) {
                Import { exported: true, ..before[ids@[i]]@ }
            } else {
                before[ids@[i]]@
            }));
        }
        assert(imports_view(self.imports@) =~= reexported(imports_view(before), name@));
    }

    /// PureScript supports the following export forms:
    ///
    /// 1. Using the alias:
    ///
    /// ```purescript
    /// module Main (module Maybe) where
    ///
    /// import Data.Maybe as Maybe
    /// ```
    ///
    /// 2. Using the name:
    ///
    /// ```purescript
    /// module Main (module Data.Maybe) where
    ///
    /// import Data.Maybe (isJust)
    /// ```
    ///
    /// Modules can only be exported using its full name if it's not aliased.
    fn index_module_export(
        &mut self,
        module: &Option<String>,
        Ghost(names): Ghost<IndexedNames>,
        name: &String,
        id: ExportItemId,
    )
        ensures
            final(self)@ == old(self)@.module(scope_of(*module, names), name@, id),
            same_import_types(old(self).imports@, final(self).imports@),
    {
        let export = IndexedModuleExport { id, name: name.clone() };
        let ghost model = export@;
        self.exports.modules.push(export);
        assert(views(self.exports.modules@) =~= views(old(self).exports.modules@).push(model));
        let own = match module {
            Some(module) => *module == *name,
            None => false,
        };
        if own {
            self.kind = ExportKind::ExplicitSelf;
        } else {
            self.reexport(name);
        }
    }

    fn index_export_item(
        &mut self,
        module: &Option<String>,
        names: &IndexedNames,
        item: &ExportItem,
    )
        requires
            names.terms.wf(),
            names.types.wf(),
        ensures
            final(self)@ == old(self)@.item(scope_of(*module, *names), *item),
            same_import_types(old(self).imports@, final(self).imports@),
    {
        let id = item.id;
        match &item.kind {
            ExportItemKind::Value { name: Some(name) } => {
                self.index_export_term(Ghost(*module), names, name.as_str(), id);
            },
            ExportItemKind::Class { name: Some(name) } => {
                self.index_export_type(Ghost(*module), names, name.as_str(), id, &None);
            },
            ExportItemKind::Type { name: Some(name), items } => {
                self.index_export_type(Ghost(*module), names, name.as_str(), id, items);
            },
            ExportItemKind::Operator { name: Some(name) } => {
                self.index_export_term(Ghost(*module), names, operator_name(name.as_str()), id);
            },
            ExportItemKind::TypeOperator { name: Some(name) } => {
                self.index_export_type(
                    Ghost(*module),
                    names,
                    operator_name(name.as_str()),
                    id,
                    &None,
                );
            },
            ExportItemKind::Module { name: Some(name) } => {
                self.index_module_export(module, Ghost(*names), name, id);
            },
            _ => {},
        }
    }

    /// Reads the export list.
    pub(crate) fn index_export_list(
        &mut self,
        module: &Option<String>,
        names: &IndexedNames,
        items: &Vec<ExportItem>,
    )
        requires
            names.terms.wf(),
            names.types.wf(),
        ensures
            final(self)@ == old(self)@.list(scope_of(*module, *names), items@),
            same_import_types(old(self).imports@, final(self).imports@),
    {
        let mut index: usize = 0;
        assert(items@.take(0) =~= Seq::empty());
        while index < items.len()
            invariant
                index <= items.len(),
                names.terms.wf(),
                names.types.wf(),
                self@ == old(self)@.list(scope_of(*module, *names), items@.take(index as int)),
                same_import_types(old(self).imports@, self.imports@),
            decreases items.len() - index,
        {
            assert(items@.take(index + 1).drop_last() =~= items@.take(index as int));
            self.index_export_item(module, names, &items[index]);
            index += 1;
        }
        assert(items@.take(index as int) =~= items@);
    }
}

} // verus!
