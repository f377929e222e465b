//! Collects what a module imports.

use super::algorithm::copy_name;
use super::error::IndexingError;
use super::source::{
    name_text, name_texts, ImportItem, ImportItemId, ImportItemKind, ImportStatement, TypeItems,
};
use crate::collections::{IdMap, NameMap, NameSet};
use crate::text::{trim_back, trim_end_matches, trim_front, trim_start_matches};
use vstd::prelude::*;

verus! {

#[derive(Debug, Clone, Copy, PartialEq, Eq, Structural)]
pub enum ImportKind {
    /// import Lib
    Implicit,
    /// import Lib (value, Type, ...)
    Explicit,
    /// import Lib hiding (value, Type, ...)
    Hidden,
}

impl Default for ImportKind {
    fn default() -> (kind: Self)
        ensures
            kind == ImportKind::Implicit,
    {
        ImportKind::Implicit
    }
}

/// The constructors that an import or export of a type brings along.
#[derive(Debug)]
pub enum ImplicitItems {
    Everything,
    Enumerated(Vec<String>),
}

/// The model of [`ImplicitItems`]: which constructors are named.
pub enum Implicit {
    Everything,
    Enumerated(Set<Seq<char>>),
}

impl View for ImplicitItems {
    type V = Implicit;

    open spec fn view(&self) -> Implicit {
        match *self {
            ImplicitItems::Everything => Implicit::Everything,
            ImplicitItems::Enumerated(names) => Implicit::Enumerated(name_texts(names@).to_set()),
        }
    }
}

pub open spec fn implicit_view(items: Option<ImplicitItems>) -> Option<Implicit> {
    match items {
        Some(items) => Some(items@),
        None => None,
    }
}

pub type ImportedTerms = NameMap<ImportItemId>;

pub type ImportedTypes = NameMap<(ImportItemId, Option<ImplicitItems>)>;

pub struct IndexedImport {
    pub name: Option<String>,
    pub alias: Option<String>,
    pub kind: ImportKind,
    pub terms: ImportedTerms,
    pub types: ImportedTypes,
    pub exported: bool,
}

/// The model of [`IndexedImport`].
#[verifier::ext_equal]
pub struct Import {
    pub name: Option<Seq<char>>,
    pub alias: Option<Seq<char>>,
    pub kind: ImportKind,
    pub terms: Map<Seq<char>, ImportItemId>,
    pub types: Map<Seq<char>, (ImportItemId, Option<Implicit>)>,
    pub exported: bool,
}

/// The types of an import, with the constructors that each brings along.
pub open spec fn types_view(
    types: Map<Seq<char>, (ImportItemId, Option<ImplicitItems>)>,
) -> Map<Seq<char>, (ImportItemId, Option<Implicit>)> {
    types.map_values(
        |entry: (ImportItemId, Option<ImplicitItems>)| (entry.0, implicit_view(entry.1)),
    )
}

impl View for IndexedImport {
    type V = Import;

    open spec fn view(&self) -> Import {
        Import {
            name: name_text(self.name),
            alias: name_text(self.alias),
            kind: self.kind,
            terms: self.terms@,
            types: types_view(self.types@),
            exported: self.exported,
        }
    }
}

pub type IndexedImports = IdMap<IndexedImport>;

/// The name of an operator without the parentheses around it.
pub open spec fn operator_text(name: Seq<char>) -> Seq<char> {
    trim_back(
        trim_front(name, |character: char| character == '('),
        |character: char| character == ')',
    )
}

pub fn operator_name(name: &str) -> (operator: &str)
    ensures
        operator@ == operator_text(name@),
{
    trim_end_matches(trim_start_matches(name, '('), ')')
}

/// What two imports of one type bring along together.
pub open spec fn merged(existing: Option<Implicit>, incoming: Option<Implicit>) -> Option<Implicit> {
    match (existing, incoming) {
        (None, items) => items,
        (items, None) => items,
        (Some(Implicit::Enumerated(existing)), Some(Implicit::Enumerated(incoming))) => Some(
            Implicit::Enumerated(existing.union(incoming)),
        ),
        _ => Some(Implicit::Everything),
    }
}

/// Adds the texts of a list to a set.
fn insert_all(set: &mut NameSet, names: Vec<String>)
    ensures
        final(set)@ == old(set)@.union(name_texts(names@).to_set()),
{
    let mut index: usize = 0;
    assert(name_texts(names@).take(0).to_set() =~= Set::empty());
    assert(set@ =~= old(set)@.union(name_texts(names@).take(0).to_set()));
    while index < names.len()
        invariant
            index <= names.len(),
            set@ == old(set)@.union(name_texts(names@).take(index as int).to_set()),
        decreases names.len() - index,
    {
        let ghost texts = name_texts(names@);
        set.insert(names[index].clone());
        assert(texts.take(index + 1) =~= texts.take(index as int).push(texts[index as int]));
        assert(texts.take(index + 1).to_set() =~= texts.take(index as int).to_set().insert(
            texts[index as int],
        )) by {
            let longer = texts.take(index + 1);
            let shorter = texts.take(index as int);
            assert forall|text: Seq<char>| longer.contains(text) implies shorter.contains(text)
                || text == texts[index as int] by {
                let i = choose|i: int| 0 <= i < longer.len() && longer[i] == text;
                if i < index {
                    assert(shorter[i] == text);
                }
            }
            assert forall|text: Seq<char>| shorter.contains(text) implies longer.contains(text) by {
                let i = choose|i: int| 0 <= i < shorter.len() && shorter[i] == text;
                assert(longer[i] == text);
            }
            assert(longer[index as int] == texts[index as int]);
        }
        assert(set@ =~= old(set)@.union(texts.take(index + 1).to_set()));
        index += 1;
    }
    assert(name_texts(names@).take(index as int) =~= name_texts(names@));
}

/// Where both imports enumerate constructors, the result names each of them
/// once, in an order that is left open.
pub fn merge_implicit_items(
    existing: Option<ImplicitItems>,
    incoming: Option<ImplicitItems>,
) -> (items: Option<ImplicitItems>)
    ensures
        implicit_view(items) == merged(implicit_view(existing), implicit_view(incoming)),
        existing is None ==> items == incoming,
        incoming is None ==> items == existing,
        match (existing, incoming) {
            (Some(ImplicitItems::Enumerated(_)), Some(ImplicitItems::Enumerated(_))) => items
                matches Some(ImplicitItems::Enumerated(names)) && name_texts(
                names@,
            ).no_duplicates(),
            _ => true,
        },
{
    match (existing, incoming) {
        (None, items) => items,
        (items, None) => items,
        (Some(ImplicitItems::Enumerated(existing)), Some(ImplicitItems::Enumerated(incoming))) => {
            let mut set = NameSet::new();
            let ghost left = name_texts(existing@).to_set();
            let ghost right = name_texts(incoming@).to_set();
            insert_all(&mut set, existing);
            assert(set@ =~= left);
            insert_all(&mut set, incoming);
            let ghost union = set@;
            let names = set.into_names();
            proof {
                let texts = name_texts(names@);
                assert forall|text: Seq<char>| #[trigger] texts.contains(text) <==> union.contains(
                    text,
                ) by {
                    if union.contains(text) {
                        let i = choose|i: int|
                            0 <= i < names@.len() && #[trigger] names@[i]@ == text;
                        assert(texts[i] == text);
                    }
                    if texts.contains(text) {
                        let i = choose|i: int| 0 <= i < texts.len() && texts[i] == text;
                        assert(union.contains(names@[i]@));
                    }
                }
                assert(texts.to_set() =~= left.union(right));
                assert forall|i: int, j: int|
                    0 <= i < texts.len() && 0 <= j < texts.len() && i != j implies texts[i]
                    != texts[j] by {
                    if i < j {
                        assert(names@[i]@ != names@[j]@);
                    } else {
                        assert(names@[j]@ != names@[i]@);
                    }
                }
            }
            Some(ImplicitItems::Enumerated(names))
        },
        _ => Some(ImplicitItems::Everything),
    }
}

/// A complaint for every name that a list repeats.
pub open spec fn repeated_items(names: Seq<Seq<char>>, id: ImportItemId) -> Seq<IndexingError>
    decreases names.len(),
{
    if names.len() == 0 {
        Seq::empty()
    } else {
        let before = repeated_items(names.drop_last(), id);
        if names.drop_last().contains(names.last()) {
            before.push(IndexingError::DuplicateImport { duplicate: id, existing: id })
        } else {
            before
        }
    }
}

/// What the list behind a type brings along.
pub open spec fn listed_items(items: TypeItems) -> Implicit {
    match items {
        TypeItems::All => Implicit::Everything,
        TypeItems::List(names) => Implicit::Enumerated(name_texts(names@).to_set()),
    }
}

/// The complaints about the list behind a type.
pub open spec fn listed_errors(items: TypeItems, id: ImportItemId) -> Seq<IndexingError> {
    match items {
        TypeItems::All => Seq::empty(),
        TypeItems::List(names) => repeated_items(name_texts(names@), id),
    }
}

/// Reads the list behind an imported type, in order and with repetitions.
fn index_type_items(
    errors: &mut Vec<IndexingError>,
    id: ImportItemId,
    items: &TypeItems,
) -> (implicit: ImplicitItems)
    ensures
        final(errors)@ == old(errors)@ + listed_errors(*items, id),
        match *items {
            TypeItems::All => implicit == ImplicitItems::Everything,
            TypeItems::List(names) => implicit matches ImplicitItems::Enumerated(copies)
                && name_texts(copies@) == name_texts(names@),
        },
{
    match items {
        TypeItems::All => ImplicitItems::Everything,
        TypeItems::List(names) => {
            let mut seen = NameSet::new();
            let mut enumerated: Vec<String> = Vec::new();
            let ghost texts = name_texts(names@);
            let mut index: usize = 0;
            assert(texts.take(0).to_set() =~= Set::empty());
            assert(name_texts(enumerated@) =~= texts.take(0));
            assert(errors@ =~= old(errors)@ + repeated_items(texts.take(0), id));
            while index < names.len()
                invariant
                    index <= names.len(),
                    texts == name_texts(names@),
                    name_texts(enumerated@) == texts.take(index as int),
                    forall|text: Seq<char>| #[trigger]
                        seen@.contains(text) <==> texts.take(index as int).contains(text),
                    errors@ == old(errors)@ + repeated_items(texts.take(index as int), id),
                decreases names.len() - index,
            {
                let name = names[index].clone();
                let ghost shorter = texts.take(index as int);
                let ghost longer = texts.take(index + 1);
                assert(longer.drop_last() =~= shorter);
                assert(name@ == texts[index as int]);
                assert(longer.last() == name@);
                let ghost known = seen@;
                let added = seen.insert(name.clone());
                if !added {
                    errors.push(IndexingError::DuplicateImport { duplicate: id, existing: id });
                }
                assert(errors@ =~= old(errors)@ + repeated_items(longer, id));
                enumerated.push(name);
                assert(name_texts(enumerated@) =~= longer);
                assert forall|text: Seq<char>| #[trigger] seen@.contains(text) <==> longer.contains(
                    text,
                ) by {
                    if longer.contains(text) && text != name@ {
                        let i = choose|i: int| 0 <= i < longer.len() && longer[i] == text;
                        assert(shorter[i] == text);
                    }
                    if shorter.contains(text) {
                        let i = choose|i: int| 0 <= i < shorter.len() && shorter[i] == text;
                        assert(longer[i] == text);
                    }
                    assert(longer[index as int] == name@);
                    assert(known.contains(text) <==> shorter.contains(text));
                }
                index += 1;
            }
            assert(texts.take(index as int) =~= texts);
            ImplicitItems::Enumerated(enumerated)
        },
    }
}

/// An import statement and the complaints about it.
#[verifier::ext_equal]
pub struct ImportModel {
    pub import: Import,
    pub errors: Seq<IndexingError>,
}

impl ImportModel {
    /// A term is imported once; later imports of it are reported.
    pub open spec fn term(self, name: Seq<char>, id: ImportItemId) -> ImportModel {
        if self.import.terms.contains_key(name) {
            ImportModel {
                errors: self.errors.push(
                    IndexingError::DuplicateImport {
                        duplicate: id,
                        existing: self.import.terms[name],
                    },
                ),
                ..self
            }
        } else {
            ImportModel {
                import: Import { terms: self.import.terms.insert(name, id), ..self.import },
                ..self
            }
        }
    }

    /// A type is imported once; later imports of it are reported, and what they
    /// bring along is added.
    pub open spec fn type_(
        self,
        name: Seq<char>,
        id: ImportItemId,
        items: Option<TypeItems>,
    ) -> ImportModel {
        let (incoming, complaints) = match items {
            Some(items) => (Some(listed_items(items)), listed_errors(items, id)),
            None => (None, Seq::empty()),
        };
        if self.import.types.contains_key(name) {
            let (existing, known) = self.import.types[name];
            ImportModel {
                import: Import {
                    types: self.import.types.insert(name, (existing, merged(known, incoming))),
                    ..self.import
                },
                errors: (self.errors + complaints).push(
                    IndexingError::DuplicateImport { duplicate: id, existing },
                ),
            }
        } else {
            ImportModel {
                import: Import {
                    types: self.import.types.insert(name, (id, incoming)),
                    ..self.import
                },
                errors: self.errors + complaints,
            }
        }
    }

    /// What one more item of the import list adds. An item without a name adds
    /// nothing.
    pub open spec fn item(self, item: ImportItem) -> ImportModel {
        match item.kind {
            ImportItemKind::Value { name: Some(name) } => self.term(name@, item.id),
            ImportItemKind::Class { name: Some(name) } => self.type_(name@, item.id, None),
            ImportItemKind::Type { name: Some(name), items } => self.type_(name@, item.id, items),
            ImportItemKind::Operator { name: Some(name) } => self.term(
                operator_text(name@),
                item.id,
            ),
            ImportItemKind::TypeOperator { name: Some(name) } => self.type_(
                operator_text(name@),
                item.id,
                None,
            ),
            _ => self,
        }
    }

    pub open spec fn items(self, items: Seq<ImportItem>) -> ImportModel
        decreases items.len(),
    {
        if items.len() == 0 {
            self
        } else {
            self.items(items.drop_last()).item(items.last())
        }
    }

    /// An import without a list.
    pub open spec fn bare(statement: ImportStatement, errors: Seq<IndexingError>) -> ImportModel {
        ImportModel {
            import: Import {
                name: name_text(statement.name),
                alias: name_text(statement.alias),
                kind: ImportKind::Implicit,
                terms: Map::empty(),
                types: Map::empty(),
                exported: false,
            },
            errors,
        }
    }

    /// What an import statement stands for, behind earlier complaints.
    pub open spec fn statement(
        statement: ImportStatement,
        errors: Seq<IndexingError>,
    ) -> ImportModel {
        let bare = ImportModel::bare(statement, errors);
        match statement.list {
            None => bare,
            Some(list) => ImportModel {
                import: Import {
                    kind: if list.hiding {
                        ImportKind::Hidden
                    } else {
                        ImportKind::Explicit
                    },
                    ..bare.import
                },
                ..bare
            }.items(list.items@),
        }
    }
}

/// The type that an item of an import list names, and the list behind it.
pub open spec fn type_import(item: ImportItem) -> Option<(Seq<char>, Option<TypeItems>)> {
    match item.kind {
        ImportItemKind::Class { name: Some(name) } => Some((name@, None)),
        ImportItemKind::Type { name: Some(name), items } => Some((name@, items)),
        ImportItemKind::TypeOperator { name: Some(name) } => Some((operator_text(name@), None)),
        _ => None,
    }
}

/// The lists behind all imports of one type, in order.
pub open spec fn type_lists(items: Seq<ImportItem>, name: Seq<char>) -> Seq<TypeItems>
    decreases items.len(),
{
    if items.len() == 0 {
        Seq::empty()
    } else {
        let before = type_lists(items.drop_last(), name);
        match type_import(items.last()) {
            Some((own, items)) if own == name => lists_with(before, items),
            _ => before,
        }
    }
}

/// A list of lists with one more, if there is one.
pub open spec fn lists_with(lists: Seq<TypeItems>, items: Option<TypeItems>) -> Seq<TypeItems> {
    match items {
        Some(items) => lists.push(items),
        None => lists,
    }
}

/// What is kept of the lists behind all imports of one type. One list is kept
/// as it is written, with its order and its repetitions; where several are
/// merged, no name is repeated.
pub open spec fn keeps_lists(implicit: Option<ImplicitItems>, lists: Seq<TypeItems>) -> bool {
    if lists.len() == 0 {
        implicit is None
    } else if lists.len() == 1 {
        match lists[0] {
            TypeItems::All => implicit == Some(ImplicitItems::Everything),
            TypeItems::List(names) => implicit matches Some(ImplicitItems::Enumerated(copies))
                && name_texts(copies@) == name_texts(names@),
        }
    } else {
        implicit matches Some(implicit) && (implicit matches ImplicitItems::Enumerated(names)
            ==> name_texts(names@).no_duplicates())
    }
}

/// The types of an import keep the lists that are written behind them.
pub open spec fn keeps_type_lists(
    types: Map<Seq<char>, (ImportItemId, Option<ImplicitItems>)>,
    items: Seq<ImportItem>,
) -> bool {
    &&& forall|name: Seq<char>| #[trigger]
        types.contains_key(name) ==> keeps_lists(types[name].1, type_lists(items, name))
    &&& forall|name: Seq<char>|
        !types.contains_key(name) ==> (#[trigger] type_lists(items, name)).len() == 0
}

/// The types of an import keep the lists of its statement.
pub open spec fn keeps_statement(
    types: Map<Seq<char>, (ImportItemId, Option<ImplicitItems>)>,
    statement: ImportStatement,
) -> bool {
    match statement.list {
        Some(list) => keeps_type_lists(types, list.items@),
        None => types == Map::<Seq<char>, (ImportItemId, Option<ImplicitItems>)>::empty(),
    }
}

fn index_term_import(
    errors: &mut Vec<IndexingError>,
    import: &mut IndexedImport,
    name: &str,
    id: ImportItemId,
)
    ensures
        (ImportModel { import: final(import)@, errors: final(errors)@ }) == (ImportModel {
            import: old(import)@,
            errors: old(errors)@,
        }).term(name@, id),
        final(import).types == old(import).types,
{
    let existing = match import.terms.get(name) {
        Some(existing) => Some(*existing),
        None => None,
    };
    match existing {
        Some(existing) => errors.push(IndexingError::DuplicateImport { duplicate: id, existing }),
        None => import.terms.insert(name.to_owned(), id),
    }
}

fn index_type_import(
    errors: &mut Vec<IndexingError>,
    import: &mut IndexedImport,
    name: &str,
    id: ImportItemId,
    items: &Option<TypeItems>,
)
    ensures
        (ImportModel { import: final(import)@, errors: final(errors)@ }) == (ImportModel {
            import: old(import)@,
            errors: old(errors)@,
        }).type_(name@, id, *items),
        final(import).types@.dom() == old(import).types@.dom().insert(name@),
        forall|other: Seq<char>|
            other != name@ && #[trigger] old(import).types@.contains_key(other) ==> final(import).types@[other]
                == old(import).types@[other],
        forall|lists: Seq<TypeItems>|
            (if old(import).types@.contains_key(name@) {
                keeps_lists(old(import).types@[name@].1, lists)
            } else {
                lists.len() == 0
            }) ==> #[trigger] keeps_lists(
                final(import).types@[name@].1,
                lists_with(lists, *items),
            ),
{
    let ghost before = ImportModel { import: import@, errors: errors@ };
    let incoming = match items {
        Some(items) => Some(index_type_items(errors, id, items)),
        None => None,
    };
    let ghost brought = implicit_view(incoming);
    let ghost types = import.types@;
    assert(import@.types.contains_key(name@) == types.contains_key(name@));
    match import.types.get_mut(name) {
        Some(entry) => {
            let existing = entry.0;
            let known = entry.1.take();
            entry.1 = merge_implicit_items(known, incoming);
            assert(types_view(import.types@) =~= before.import.types.insert(
                name@,
                (existing, merged(before.import.types[name@].1, brought)),
            ));
            errors.push(IndexingError::DuplicateImport { duplicate: id, existing });
        },
        None => {
            import.types.insert(name.to_owned(), (id, incoming));
            assert(types_view(import.types@) =~= before.import.types.insert(name@, (id, brought)));
        },
    }
    assert((ImportModel { import: import@, errors: errors@ }) =~= before.type_(name@, id, *items));
}

/// The lists are kept where one more item is read: the type that it names has
/// its list added, and the others stay.
proof fn lemma_keeps_item(
    before: Map<Seq<char>, (ImportItemId, Option<ImplicitItems>)>,
    after: Map<Seq<char>, (ImportItemId, Option<ImplicitItems>)>,
    items: Seq<ImportItem>,
    item: ImportItem,
)
    requires
        keeps_type_lists(before, items),
        match type_import(item) {
            None => after == before,
            Some((name, list)) => {
                &&& after.dom() == before.dom().insert(name)
                &&& forall|other: Seq<char>|
                    other != name && #[trigger] before.contains_key(other) ==> after[other]
                        == before[other]
                &&& forall|lists: Seq<TypeItems>|
                    (if before.contains_key(name) {
                        keeps_lists(before[name].1, lists)
                    } else {
                        lists.len() == 0
                    }) ==> #[trigger] keeps_lists(after[name].1, lists_with(lists, list))
            },
        },
    ensures
        keeps_type_lists(after, items.push(item)),
{
    let longer = items.push(item);
    assert(longer.drop_last() =~= items);
    assert forall|name: Seq<char>| #[trigger] after.contains_key(name) implies keeps_lists(
        after[name].1,
        type_lists(longer, name),
    ) by {
        match type_import(item) {
            Some((own, list)) => {
                if own == name {
                    let lists = type_lists(items, name);
                    assert(keeps_lists(after[name].1, lists_with(lists, list)));
                } else {
                    assert(before.contains_key(name));
                }
            },
            None => {},
        }
    }
    assert forall|name: Seq<char>| !after.contains_key(name) implies (#[trigger] type_lists(
        longer,
        name,
    )).len() == 0 by {
        assert(!before.contains_key(name));
        assert(type_lists(items, name).len() == 0);
    }
}

fn index_import_items(errors: &mut Vec<IndexingError>, import: &mut IndexedImport, item: &ImportItem)
    ensures
        (ImportModel { import: final(import)@, errors: final(errors)@ }) == (ImportModel {
            import: old(import)@,
            errors: old(errors)@,
        }).item(*item),
        forall|items: Seq<ImportItem>| #[trigger]
            keeps_type_lists(old(import).types@, items) ==> keeps_type_lists(
                final(import).types@,
                items.push(*item),
            ),
{
    let id = item.id;
    match &item.kind {
        ImportItemKind::Value { name: Some(name) } => {
            index_term_import(errors, import, name.as_str(), id);
        },
        ImportItemKind::Class { name: Some(name) } => {
            index_type_import(errors, import, name.as_str(), id, &None);
        },
        ImportItemKind::Type { name: Some(name), items } => {
            index_type_import(errors, import, name.as_str(), id, items);
        },
        ImportItemKind::Operator { name: Some(name) } => {
            index_term_import(errors, import, operator_name(name.as_str()), id);
        },
        ImportItemKind::TypeOperator { name: Some(name) } => {
            index_type_import(errors, import, operator_name(name.as_str()), id, &None);
        },
        _ => {},
    }
    proof {
        assert forall|items: Seq<ImportItem>| #[trigger]
            keeps_type_lists(old(import).types@, items) implies keeps_type_lists(
            import.types@,
            items.push(*item),
        ) by {
            lemma_keeps_item(old(import).types@, import.types@, items, *item);
        }
    }
}

/// Reads an import statement.
pub fn index_import(errors: &mut Vec<IndexingError>, statement: &ImportStatement) -> (import:
    IndexedImport)
    ensures
        (ImportModel { import: import@, errors: final(errors)@ }) == ImportModel::statement(
            *statement,
            old(errors)@,
        ),
        keeps_statement(import.types@, *statement),
{
    let mut import = IndexedImport {
        name: copy_name(&statement.name),
        alias: copy_name(&statement.alias),
        kind: ImportKind::Implicit,
        terms: NameMap::new(),
        types: NameMap::new(),
        exported: false,
    };
    assert(import@ =~= ImportModel::bare(*statement, errors@).import);
    if let Some(list) = &statement.list {
        if list.hiding {
            import.kind = ImportKind::Hidden;
        } else {
            import.kind = ImportKind::Explicit;
        }
        let ghost before = ImportModel { import: import@, errors: errors@ };
        let mut index: usize = 0;
        assert(list.items@.take(0) =~= Seq::empty());
        assert(keeps_type_lists(import.types@, list.items@.take(0)));
        while index < list.items.len()
            invariant
                index <= list.items.len(),
                (ImportModel { import: import@, errors: errors@ }) == before.items(
                    list.items@.take(index as int),
                ),
                keeps_type_lists(import.types@, list.items@.take(index as int)),
            decreases list.items.len() - index,
        {
            assert(list.items@.take(index + 1).drop_last() =~= list.items@.take(index as int));
            assert(list.items@.take(index + 1) =~= list.items@.take(index as int).push(
                list.items@[index as int],
            ));
            index_import_items(errors, &mut import, &list.items[index]);
            index += 1;
        }
        assert(list.items@.take(index as int) =~= list.items@);
    }
    import
}

} // verus!
