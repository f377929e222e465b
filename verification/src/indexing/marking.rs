//! Marks the items that a module exports.

use super::algorithm::IndexedItems;
use super::error::IndexingError;
use super::exports::{Exported, ExportState, Selection, TypeSelection};
use super::items::{IndexedTermItem, IndexedTypeItemKind, TermItem, TermItemId, TypeItem, TypeSort};
use super::laws::{children_of, has_constructors};
use super::model::{is_sort, views, Items};
use super::source::{name_texts, ExportItemId};
use crate::collections::ItemArena;
use vstd::prelude::*;

verus! {

pub open spec fn term_exported(item: TermItem) -> TermItem {
    TermItem { exported: true, ..item }
}

/// The terms after some of them were marked.
pub open spec fn mark_all(terms: Seq<TermItem>, ids: Seq<TermItemId>) -> Seq<TermItem>
    decreases ids.len(),
{
    if ids.len() == 0 {
        terms
    } else {
        let marked = mark_all(terms, ids.drop_last());
        let id = ids.last().raw as int;
        marked.update(id, term_exported(marked[id]))
    }
}

/// The first constructor with the name.
pub open spec fn find_constructor(
    terms: Seq<TermItem>,
    constructors: Seq<TermItemId>,
    name: Seq<char>,
) -> Option<TermItemId>
    decreases constructors.len(),
{
    if constructors.len() == 0 {
        None
    } else if terms[constructors[0].raw as int].name == Some(name) {
        Some(constructors[0])
    } else {
        find_constructor(terms, constructors.skip(1), name)
    }
}

/// The items while they are marked.
#[verifier::ext_equal]
pub struct Marked {
    pub terms: Seq<TermItem>,
    pub types: Seq<TypeItem>,
    pub exported: Exported,
}

impl Exported {
    /// Whether the export list names the type.
    pub open spec fn lists_type(self, item: TypeItem) -> bool {
        item.name matches Some(name) && self.type_ids.contains_key(name)
    }

    /// Whether the export list names the term.
    pub open spec fn lists_term(self, item: TermItem) -> bool {
        item.name matches Some(name) && self.term_ids.contains_key(name)
    }
}

impl Marked {
    /// A constructor that is selected by its name.
    pub open spec fn select(
        self,
        constructors: Seq<TermItemId>,
        name: Seq<char>,
        id: ExportItemId,
    ) -> Marked {
        match find_constructor(self.terms, constructors, name) {
            Some(term) => Marked {
                terms: mark_all(self.terms, seq![term]),
                exported: self.exported.mark_term(name, id),
                ..self
            },
            None => Marked {
                exported: Exported {
                    errors: self.exported.errors.push(IndexingError::InvalidExport { id }),
                    ..self.exported
                },
                ..self
            },
        }
    }

    pub open spec fn select_all(
        self,
        constructors: Seq<TermItemId>,
        names: Seq<Seq<char>>,
        id: ExportItemId,
    ) -> Marked
        decreases names.len(),
    {
        if names.len() == 0 {
            self
        } else {
            self.select_all(constructors, names.drop_last(), id).select(
                constructors,
                names.last(),
                id,
            )
        }
    }

    /// A type that is in the export list is marked, along with the selected
    /// constructors and with all members of a class.
    pub open spec fn mark_type(self, index: int) -> Marked {
        let item = self.types[index];
        let name = item.name;
        if name is None || !self.exported.type_ids.contains_key(name->0) {
            self
        } else {
            let (id, selection) = self.exported.type_ids[name->0];
            let marked = Marked {
                types: self.types.update(index, TypeItem { exported: true, ..item }),
                ..self
            };
            let children = children_of(item.kind);
            if has_constructors(item.kind) {
                match selection {
                    None => marked,
                    Some(Selection::Everything) => Marked {
                        terms: mark_all(marked.terms, children),
                        ..marked
                    },
                    Some(Selection::Enumerated(names)) => marked.select_all(children, names, id),
                }
            } else {
                let selecting = match selection {
                    Some(Selection::Enumerated(names)) => marked.select_all(
                        Seq::empty(),
                        names,
                        id,
                    ),
                    _ => marked,
                };
                if is_sort(item.kind, TypeSort::Class) {
                    Marked { terms: mark_all(selecting.terms, children), ..selecting }
                } else {
                    selecting
                }
            }
        }
    }

    /// The first types of the module.
    pub open spec fn mark_types(self, count: nat) -> Marked
        decreases count,
    {
        if count == 0 {
            self
        } else {
            self.mark_types((count - 1) as nat).mark_type(count - 1)
        }
    }

    /// The terms that are in the export list.
    pub open spec fn mark_terms(self) -> Marked {
        Marked {
            terms: self.terms.map_values(
                |item: TermItem|
                    TermItem {
                        exported: item.exported || self.exported.lists_term(item),
                        ..item
                    },
            ),
            ..self
        }
    }

    pub open spec fn mark(self) -> Marked {
        self.mark_types(self.types.len()).mark_terms()
    }
}

/// Two lists of terms differ at most in what is exported.
pub open spec fn same_terms(left: Seq<TermItem>, right: Seq<TermItem>) -> bool {
    &&& left.len() == right.len()
    &&& forall|i: int|
        0 <= i < left.len() ==> (#[trigger] left[i]).name == right[i].name && left[i].kind
            == right[i].kind
}

/// The numbers of a list are those of terms.
pub open spec fn in_range(ids: Seq<TermItemId>, count: nat) -> bool {
    forall|i: int| 0 <= i < ids.len() ==> (#[trigger] ids[i]).raw < count
}

proof fn lemma_mark_all_same(terms: Seq<TermItem>, ids: Seq<TermItemId>)
    requires
        in_range(ids, terms.len()),
    ensures
        same_terms(mark_all(terms, ids), terms),
    decreases ids.len(),
{
    if ids.len() > 0 {
        lemma_mark_all_same(terms, ids.drop_last());
        assert(ids[ids.len() - 1].raw < terms.len());
    }
}

proof fn lemma_select_all_same(
    marked: Marked,
    constructors: Seq<TermItemId>,
    names: Seq<Seq<char>>,
    id: ExportItemId,
)
    requires
        in_range(constructors, marked.terms.len()),
    ensures
        same_terms(marked.select_all(constructors, names, id).terms, marked.terms),
        marked.select_all(constructors, names, id).types == marked.types,
        marked.select_all(constructors, names, id).exported.type_ids == marked.exported.type_ids,
    decreases names.len(),
{
    if names.len() > 0 {
        lemma_select_all_same(marked, constructors, names.drop_last(), id);
        let before = marked.select_all(constructors, names.drop_last(), id);
        match find_constructor(before.terms, constructors, names.last()) {
            Some(term) => {
                lemma_find_constructor(before.terms, constructors, names.last());
                assert forall|i: int| 0 <= i < seq![term].len() implies (#[trigger] seq![term][i]).raw
                    < before.terms.len() by {}
                lemma_mark_all_same(before.terms, seq![term]);
            },
            None => {},
        }
    }
}

/// A constructor that is found is one of the list and bears the name.
pub proof fn lemma_find_constructor(
    terms: Seq<TermItem>,
    constructors: Seq<TermItemId>,
    name: Seq<char>,
)
    requires
        in_range(constructors, terms.len()),
    ensures
        find_constructor(terms, constructors, name) matches Some(id) ==> constructors.contains(id)
            && id.raw < terms.len() && terms[id.raw as int].name == Some(name),
        find_constructor(terms, constructors, name) is None ==> forall|i: int|
            0 <= i < constructors.len() ==> terms[(#[trigger] constructors[i]).raw as int].name
                != Some(name),
    decreases constructors.len(),
{
    if constructors.len() > 0 {
        let rest = constructors.skip(1);
        assert(in_range(rest, terms.len())) by {
            assert forall|i: int| 0 <= i < rest.len() implies (#[trigger] rest[i]).raw
                < terms.len() by {
                assert(rest[i] == constructors[i + 1]);
            }
        }
        lemma_find_constructor(terms, rest, name);
        assert(constructors[0].raw < terms.len());
        match find_constructor(terms, constructors, name) {
            Some(id) => {
                if terms[constructors[0].raw as int].name != Some(name) {
                    let i = choose|i: int| 0 <= i < rest.len() && rest[i] == id;
                    assert(constructors[i + 1] == id);
                }
            },
            None => {
                assert forall|i: int| 0 <= i < constructors.len() implies terms[(
                #[trigger] constructors[i]).raw as int].name != Some(name) by {
                    if i > 0 {
                        assert(rest[i - 1] == constructors[i]);
                    }
                }
            },
        }
    }
}

/// Marks every term of a list.
fn export_all(terms: &mut ItemArena<IndexedTermItem>, ids: &Vec<TermItemId>)
    requires
        forall|i: int| 0 <= i < ids@.len() ==> (#[trigger] ids@[i]).raw < old(terms)@.len(),
    ensures
        views(final(terms)@) == mark_all(views(old(terms)@), ids@),
        final(terms)@.len() == old(terms)@.len(),
{
    let mut index: usize = 0;
    assert(ids@.take(0) =~= Seq::empty());
    while index < ids.len()
        invariant
            index <= ids.len(),
            terms@.len() == old(terms)@.len(),
            forall|i: int| 0 <= i < ids@.len() ==> (#[trigger] ids@[i]).raw < terms@.len(),
            views(terms@) == mark_all(views(old(terms)@), ids@.take(index as int)),
        decreases ids.len() - index,
    {
        let ghost before = views(terms@);
        let id = ids[index];
        terms.get_mut(id.raw).exported = true;
        assert(ids@.take(index + 1).drop_last() =~= ids@.take(index as int));
        assert(views(terms@) =~= before.update(
            id.raw as int,
            term_exported(before[id.raw as int]),
        ));
        index += 1;
    }
    assert(ids@.take(index as int) =~= ids@);
}

/// Finds the first constructor with the name.
fn constructor_named(
    terms: &ItemArena<IndexedTermItem>,
    constructors: &Vec<TermItemId>,
    name: &String,
) -> (id: Option<TermItemId>)
    requires
        forall|i: int|
            0 <= i < constructors@.len() ==> (#[trigger] constructors@[i]).raw < terms@.len(),
    ensures
        id == find_constructor(views(terms@), constructors@, name@),
        id matches Some(id) ==> id.raw < terms@.len(),
{
    let mut index: usize = 0;
    assert(constructors@.skip(0) =~= constructors@);
    while index < constructors.len()
        invariant
            index <= constructors.len(),
            forall|i: int|
                0 <= i < constructors@.len() ==> (#[trigger] constructors@[i]).raw < terms@.len(),
            find_constructor(views(terms@), constructors@, name@) == find_constructor(
                views(terms@),
                constructors@.skip(index as int),
                name@,
            ),
        decreases constructors.len() - index,
    {
        let id = constructors[index];
        let item = terms.get(id.raw);
        assert(views(terms@)[id.raw as int] == item@);
        assert(constructors@.skip(index as int).skip(1) =~= constructors@.skip(index + 1));
        let same = match &item.name {
            Some(own) => *own == *name,
            None => false,
        };
        if same {
            return Some(id);
        }
        index += 1;
    }
    None
}

impl ExportState {
    /// Marks the constructors that an export of a type names.
    fn select_constructors(
        &mut self,
        terms: &mut ItemArena<IndexedTermItem>,
        constructors: &Vec<TermItemId>,
        names: &Vec<String>,
        id: ExportItemId,
        Ghost(types): Ghost<Seq<TypeItem>>,
    )
        requires
            forall|i: int|
                0 <= i < constructors@.len() ==> (#[trigger] constructors@[i]).raw < old(
                    terms,
                )@.len(),
        ensures
            (Marked { terms: views(final(terms)@), types, exported: final(self)@ }) == (Marked {
                terms: views(old(terms)@),
                types,
                exported: old(self)@,
            }).select_all(constructors@, name_texts(names@), id),
            final(terms)@.len() == old(terms)@.len(),
            final(self)@.type_ids == old(self)@.type_ids,
            final(self).imports == old(self).imports,
    {
        proof {
            lemma_select_all_same(
                Marked { terms: views(terms@), types, exported: self@ },
                constructors@,
                name_texts(names@),
                id,
            );
        }
        let ghost before = Marked { terms: views(terms@), types, exported: self@ };
        let mut index: usize = 0;
        assert(name_texts(names@).take(0) =~= Seq::empty());
        while index < names.len()
            invariant
                index <= names.len(),
                self.imports == old(self).imports,
                terms@.len() == old(terms)@.len(),
                forall|i: int|
                    0 <= i < constructors@.len() ==> (#[trigger] constructors@[i]).raw
                        < terms@.len(),
                (Marked { terms: views(terms@), types, exported: self@ }) == before.select_all(
                    constructors@,
                    name_texts(names@).take(index as int),
                    id,
                ),
            decreases names.len() - index,
        {
            let ghost texts = name_texts(names@);
            assert(texts.take(index + 1).drop_last() =~= texts.take(index as int));
            let ghost current = Marked { terms: views(terms@), types, exported: self@ };
            let name = &names[index];
            match constructor_named(terms, constructors, name) {
                Some(term_id) => {
                    terms.get_mut(term_id.raw).exported = true;
                    self.mark_exported_term_name(name.clone(), id);
                    proof {
                        assert(seq![term_id].drop_last() =~= Seq::empty());
                        assert(mark_all(current.terms, Seq::empty()) =~= current.terms);
                        assert(views(terms@) =~= current.terms.update(
                            term_id.raw as int,
                            term_exported(current.terms[term_id.raw as int]),
                        ));
                    }
                },
                None => {
                    self.push_invalid_export(id);
                },
            }
            assert((Marked { terms: views(terms@), types, exported: self@ }) =~= current.select(
                constructors@,
                name@,
                id,
            ));
            index += 1;
        }
        assert(name_texts(names@).take(index as int) =~= name_texts(names@));
    }

    /// Marks a type, its selected constructors and its members.
    fn export_type(&mut self, items: &mut IndexedItems, index: u32)
        requires
            index < old(items)@.types.len(),
            in_range(
                children_of(old(items)@.types[index as int].kind),
                old(items)@.terms.len(),
            ),
        ensures
            marking(*final(items), *final(self)) == marking(*old(items), *old(self)).mark_type(
                index as int,
            ),
            final(items)@ == (Items {
                terms: final(items)@.terms,
                types: final(items)@.types,
                ..old(items)@
            }),
            final(self).imports == old(self).imports,
    {
        let ghost before = marking(*items, *self);
        let ghost item = before.types[index as int];
        let export = match &items.types.get(index).name {
            Some(name) => self.exported_type(name),
            None => None,
        };
        let Some((id, selection)) = export else {
            return;
        };
        items.types.get_mut(index).exported = true;
        assert(views(items.types@) =~= before.types.update(
            index as int,
            TypeItem { exported: true, ..item },
        ));
        let ghost types = views(items.types@);
        assert(marking(*items, *self) =~= (Marked { types, ..before }));
        let empty: Vec<TermItemId> = Vec::new();
        let (constructors, members) = match &items.types.get(index).kind {
            IndexedTypeItemKind::Data { constructors, .. } => (constructors, &empty),
            IndexedTypeItemKind::Newtype { constructors, .. } => (constructors, &empty),
            IndexedTypeItemKind::Class { members, .. } => (&empty, members),
            _ => (&empty, &empty),
        };
        let ghost children = children_of(item.kind);
        assert(has_constructors(item.kind) ==> constructors@ == children && members@.len() == 0);
        assert(!has_constructors(item.kind) ==> constructors@ =~= Seq::empty());
        assert(is_sort(item.kind, TypeSort::Class) ==> members@ == children);
        assert(!is_sort(item.kind, TypeSort::Class) ==> members@.len() == 0);
        assert forall|i: int| 0 <= i < constructors@.len() implies (#[trigger] constructors@[i]).raw
            < items.terms@.len() by {
            assert(children[i].raw < items@.terms.len());
        }
        assert forall|i: int| 0 <= i < members@.len() implies (#[trigger] members@[i]).raw
            < items.terms@.len() by {
            assert(children[i].raw < items@.terms.len());
        }
        match &selection {
            Some(TypeSelection::Everything) => export_all(&mut items.terms, constructors),
            Some(TypeSelection::Enumerated(names)) => self.select_constructors(
                &mut items.terms,
                constructors,
                names,
                id,
                Ghost(types),
            ),
            None => {},
        }
        export_all(&mut items.terms, members);
        assert(marking(*items, *self) =~= before.mark_type(index as int));
    }
}

/// The model of the items while they are marked.
pub open spec fn marking(items: IndexedItems, state: ExportState) -> Marked {
    Marked { terms: items@.terms, types: items@.types, exported: state@ }
}

/// Two lists of types differ at most in what is exported.
pub open spec fn same_types(left: Seq<TypeItem>, right: Seq<TypeItem>) -> bool {
    &&& left.len() == right.len()
    &&& forall|i: int|
        0 <= i < left.len() ==> (#[trigger] left[i]).name == right[i].name && left[i].kind
            == right[i].kind
}

/// The constructors and members of every type exist.
pub open spec fn children_in_range(types: Seq<TypeItem>, count: nat) -> bool {
    forall|t: int| 0 <= t < types.len() ==> in_range(children_of((#[trigger] types[t]).kind), count)
}

/// Nothing that is exported before is not exported after.
pub open spec fn grows(before: Seq<TermItem>, after: Seq<TermItem>) -> bool {
    &&& same_terms(after, before)
    &&& forall|i: int| 0 <= i < before.len() && (#[trigger] before[i]).exported ==> after[i].exported
}

/// Marking some terms marks these and keeps the others.
pub proof fn lemma_mark_all(terms: Seq<TermItem>, ids: Seq<TermItemId>)
    requires
        terms.len() <= u32::MAX,
        in_range(ids, terms.len()),
    ensures
        grows(terms, mark_all(terms, ids)),
        forall|i: int| #![trigger mark_all(terms, ids)[i]]
            0 <= i < terms.len() ==> (mark_all(terms, ids)[i].exported <==> terms[i].exported
                || ids.contains(TermItemId { raw: i as u32 })),
    decreases ids.len(),
{
    lemma_mark_all_same(terms, ids);
    if ids.len() > 0 {
        let rest = ids.drop_last();
        lemma_mark_all(terms, rest);
        lemma_mark_all_same(terms, rest);
        assert(ids[ids.len() - 1].raw < terms.len());
        assert forall|i: int| #![trigger mark_all(terms, ids)[i]]
            0 <= i < terms.len() implies (mark_all(terms, ids)[i].exported <==> terms[i].exported
            || ids.contains(TermItemId { raw: i as u32 })) by {
            let id = TermItemId { raw: i as u32 };
            let before = mark_all(terms, rest)[i];
            if ids.contains(id) && ids.last() != id {
                let j = choose|j: int| 0 <= j < ids.len() && ids[j] == id;
                assert(rest[j] == id);
            }
            if rest.contains(id) {
                let j = choose|j: int| 0 <= j < rest.len() && rest[j] == id;
                assert(ids[j] == id);
            }
            if ids.last() == id {
                assert(ids[ids.len() - 1] == id);
            }
            if ids.last().raw == i {
                assert(ids.last() == id);
            }
        }
        assert forall|i: int| 0 <= i < terms.len() && (
        #[trigger] terms[i]).exported implies mark_all(terms, ids)[i].exported by {
            assert(mark_all(terms, ids)[i].exported <==> terms[i].exported || ids.contains(
                TermItemId { raw: i as u32 },
            ));
        }
    }
}

proof fn lemma_select_all_grows(
    marked: Marked,
    constructors: Seq<TermItemId>,
    names: Seq<Seq<char>>,
    id: ExportItemId,
)
    requires
        marked.terms.len() <= u32::MAX,
        in_range(constructors, marked.terms.len()),
    ensures
        ({
            let after = marked.select_all(constructors, names, id);
            &&& grows(marked.terms, after.terms)
            &&& forall|i: int|
                0 <= i < after.terms.len() && (#[trigger] after.terms[i]).exported
                    && !marked.terms[i].exported ==> constructors.contains(
                    TermItemId { raw: i as u32 },
                )
        }),
    decreases names.len(),
{
    lemma_select_all_same(marked, constructors, names, id);
    if names.len() > 0 {
        let before = marked.select_all(constructors, names.drop_last(), id);
        lemma_select_all_same(marked, constructors, names.drop_last(), id);
        lemma_select_all_grows(marked, constructors, names.drop_last(), id);
        lemma_find_constructor(before.terms, constructors, names.last());
        match find_constructor(before.terms, constructors, names.last()) {
            Some(term) => {
                let only = seq![term];
                assert forall|i: int| 0 <= i < only.len() implies (#[trigger] only[i]).raw
                    < before.terms.len() by {}
                lemma_mark_all(before.terms, only);
                let after = marked.select_all(constructors, names, id);
                assert forall|i: int|
                    0 <= i < after.terms.len() && (#[trigger] after.terms[i]).exported
                        && !marked.terms[i].exported implies constructors.contains(
                    TermItemId { raw: i as u32 },
                ) by {
                    if !before.terms[i].exported {
                        assert(only.contains(TermItemId { raw: i as u32 }));
                    }
                }
            },
            None => {},
        }
    }
}

/// What marking one type does to the terms and the types.
proof fn lemma_mark_type(marked: Marked, index: int)
    requires
        marked.terms.len() <= u32::MAX,
        0 <= index < marked.types.len(),
        children_in_range(marked.types, marked.terms.len()),
    ensures
        ({
            let after = marked.mark_type(index);
            let item = marked.types[index];
            let named = marked.exported.lists_type(item);
            let children = children_of(item.kind);
            &&& grows(marked.terms, after.terms)
            &&& same_types(after.types, marked.types)
            &&& after.exported.type_ids == marked.exported.type_ids
            &&& forall|t: int|
                0 <= t < marked.types.len() ==> (#[trigger] after.types[t]).exported == (
                marked.types[t].exported || (t == index && named))
            &&& forall|i: int|
                0 <= i < after.terms.len() && (#[trigger] after.terms[i]).exported
                    && !marked.terms[i].exported ==> named && children.contains(
                    TermItemId { raw: i as u32 },
                )
            &&& named && (is_sort(item.kind, TypeSort::Class) || (has_constructors(item.kind)
                && marked.exported.type_ids[item.name->0].1 == Some(Selection::Everything)))
                ==> forall|c: int|
                0 <= c < children.len() ==> after.terms[(
                #[trigger] children[c]).raw as int].exported
        }),
{
    let after = marked.mark_type(index);
    let item = marked.types[index];
    let named = marked.exported.lists_type(item);
    let children = children_of(item.kind);
    if named {
        let (id, selection) = marked.exported.type_ids[item.name->0];
        let opened = Marked {
            types: marked.types.update(index, TypeItem { exported: true, ..item }),
            ..marked
        };
        assert(in_range(children, marked.terms.len()));
        lemma_mark_all(opened.terms, children);
        if has_constructors(item.kind) {
            match selection {
                Some(Selection::Enumerated(names)) => {
                    lemma_select_all_grows(opened, children, names, id);
                    lemma_select_all_same(opened, children, names, id);
                },
                Some(Selection::Everything) => {
                    assert forall|c: int| 0 <= c < children.len() implies after.terms[(
                    #[trigger] children[c]).raw as int].exported by {
                        assert(children.contains(TermItemId { raw: children[c].raw }));
                    }
                },
                None => {},
            }
        } else {
            let none = Seq::<TermItemId>::empty();
            assert(in_range(none, opened.terms.len()));
            let selecting = match selection {
                Some(Selection::Enumerated(names)) => opened.select_all(none, names, id),
                _ => opened,
            };
            match selection {
                Some(Selection::Enumerated(names)) => {
                    lemma_select_all_grows(opened, none, names, id);
                    lemma_select_all_same(opened, none, names, id);
                },
                _ => {},
            }
            if is_sort(item.kind, TypeSort::Class) {
                lemma_mark_all(selecting.terms, children);
                assert forall|c: int| 0 <= c < children.len() implies after.terms[(
                #[trigger] children[c]).raw as int].exported by {
                    assert(children.contains(TermItemId { raw: children[c].raw }));
                }
            }
        }
    }
}

/// A type is exported along with all its children: a class, or a data type or
/// newtype whose export selects everything.
pub open spec fn exports_children(marked: Marked, index: int) -> bool {
    let item = marked.types[index];
    &&& marked.exported.lists_type(item)
    &&& is_sort(item.kind, TypeSort::Class) || (has_constructors(item.kind)
        && marked.exported.type_ids[item.name->0].1 == Some(Selection::Everything))
}

proof fn lemma_mark_types(marked: Marked, count: nat)
    requires
        marked.terms.len() <= u32::MAX,
        count <= marked.types.len(),
        children_in_range(marked.types, marked.terms.len()),
    ensures
        ({
            let after = marked.mark_types(count);
            &&& grows(marked.terms, after.terms)
            &&& same_types(after.types, marked.types)
            &&& after.exported.type_ids == marked.exported.type_ids
            &&& forall|t: int|
                0 <= t < marked.types.len() ==> (#[trigger] after.types[t]).exported == (
                marked.types[t].exported || (t < count && marked.exported.lists_type(marked.types[t])))
            &&& forall|i: int|
                0 <= i < after.terms.len() && (#[trigger] after.terms[i]).exported
                    && !marked.terms[i].exported ==> exists|t: int|
                    0 <= t < count && (#[trigger] after.types[t]).exported && children_of(
                        marked.types[t].kind,
                    ).contains(TermItemId { raw: i as u32 })
            &&& forall|t: int, c: int|
                0 <= t < count && exports_children(marked, t) && 0 <= c < children_of(
                    marked.types[t].kind,
                ).len() ==> after.terms[(#[trigger] children_of(
                    marked.types[t].kind,
                )[c]).raw as int].exported
        }),
    decreases count,
{
    if count > 0 {
        let last = count - 1;
        let before = marked.mark_types(last as nat);
        let after = marked.mark_types(count);
        lemma_mark_types(marked, last as nat);
        assert(children_in_range(before.types, before.terms.len())) by {
            assert forall|t: int| 0 <= t < before.types.len() implies in_range(
                children_of((#[trigger] before.types[t]).kind),
                before.terms.len(),
            ) by {
                assert(in_range(children_of(marked.types[t].kind), marked.terms.len()));
            }
        }
        lemma_mark_type(before, last);
        assert forall|i: int|
            0 <= i < after.terms.len() && (#[trigger] after.terms[i]).exported
                && !marked.terms[i].exported implies exists|t: int|
            0 <= t < count && (#[trigger] after.types[t]).exported && children_of(
                marked.types[t].kind,
            ).contains(TermItemId { raw: i as u32 }) by {
            if before.terms[i].exported {
                let t = choose|t: int|
                    0 <= t < last && (#[trigger] before.types[t]).exported && children_of(
                        marked.types[t].kind,
                    ).contains(TermItemId { raw: i as u32 });
                assert(after.types[t].exported);
            } else {
                assert(after.types[last].exported);
            }
        }
        assert forall|t: int, c: int|
            0 <= t < count && exports_children(marked, t) && 0 <= c < children_of(
                marked.types[t].kind,
            ).len() implies after.terms[(#[trigger] children_of(
            marked.types[t].kind,
        )[c]).raw as int].exported by {
            assert(in_range(children_of(marked.types[t].kind), marked.terms.len()));
            let child = children_of(marked.types[t].kind)[c].raw as int;
            if t < last {
                assert(before.terms[child].exported);
            }
        }
    } else {
        assert forall|i: int| 0 <= i < marked.terms.len() implies (
        #[trigger] marked.terms[i]).name == marked.terms[i].name by {}
    }
}

/// Marking keeps the names and the kinds of all items.
pub proof fn lemma_mark_keeps(marked: Marked)
    requires
        marked.terms.len() <= u32::MAX,
        children_in_range(marked.types, marked.terms.len()),
    ensures
        same_types(marked.mark().types, marked.types),
        same_terms(marked.mark().terms, marked.terms),
{
    lemma_mark_types(marked, marked.types.len());
}

/// An explicit export list decides what is exported.
///
/// A type is exported where the list names it. A term is exported where the
/// list names it, or where it is a member of an exported class or a constructor
/// of a type that is exported with everything; every other exported term is a
/// constructor of an exported type.
pub proof fn lemma_exports(marked: Marked)
    requires
        marked.terms.len() <= u32::MAX,
        children_in_range(marked.types, marked.terms.len()),
        forall|t: int| 0 <= t < marked.types.len() ==> !(#[trigger] marked.types[t]).exported,
        forall|i: int| 0 <= i < marked.terms.len() ==> !(#[trigger] marked.terms[i]).exported,
    ensures
        ({
            let after = marked.mark();
            &&& same_types(after.types, marked.types)
            &&& same_terms(after.terms, marked.terms)
            &&& forall|t: int|
                0 <= t < after.types.len() ==> ((#[trigger] after.types[t]).exported <==> marked.exported.lists_type(
                    after.types[t],
                ))
            &&& forall|i: int|
                0 <= i < after.terms.len() && after.exported.lists_term(#[trigger] after.terms[i])
                    ==> after.terms[i].exported
            &&& forall|t: int, c: int|
                0 <= t < after.types.len() && exports_children(marked, t) && 0 <= c < children_of(
                    marked.types[t].kind,
                ).len() ==> after.terms[(#[trigger] children_of(
                    marked.types[t].kind,
                )[c]).raw as int].exported
            &&& forall|i: int|
                0 <= i < after.terms.len() && (#[trigger] after.terms[i]).exported ==> after.exported.lists_term(
                    after.terms[i],
                ) || exists|t: int|
                    0 <= t < after.types.len() && (#[trigger] after.types[t]).exported
                        && children_of(after.types[t].kind).contains(TermItemId { raw: i as u32 })
        }),
{
    let typed = marked.mark_types(marked.types.len());
    let after = marked.mark();
    lemma_mark_types(marked, marked.types.len());
    assert forall|t: int, c: int|
        0 <= t < after.types.len() && exports_children(marked, t) && 0 <= c < children_of(
            marked.types[t].kind,
        ).len() implies after.terms[(#[trigger] children_of(
        marked.types[t].kind,
    )[c]).raw as int].exported by {
        assert(in_range(children_of(marked.types[t].kind), marked.terms.len()));
        let child = children_of(marked.types[t].kind)[c].raw as int;
        assert(typed.terms[child].exported);
    }
    assert forall|i: int|
        0 <= i < after.terms.len() && (#[trigger] after.terms[i]).exported implies after.exported.lists_term(
        after.terms[i],
    ) || exists|t: int|
        0 <= t < after.types.len() && (#[trigger] after.types[t]).exported && children_of(
            after.types[t].kind,
        ).contains(TermItemId { raw: i as u32 }) by {
        if typed.terms[i].exported {
            assert(!marked.terms[i].exported);
            let t = choose|t: int|
                0 <= t < marked.types.len() && (#[trigger] typed.types[t]).exported && children_of(
                    marked.types[t].kind,
                ).contains(TermItemId { raw: i as u32 });
            assert(after.types[t].exported);
        }
    }
}

impl ExportState {
    /// Marks all items that the export list covers.
    pub(crate) fn mark_items(&mut self, items: &mut IndexedItems)
        requires
            old(items)@.terms.len() <= u32::MAX,
            old(items)@.types.len() <= u32::MAX,
            children_in_range(old(items)@.types, old(items)@.terms.len()),
        ensures
            marking(*final(items), *final(self)) == marking(*old(items), *old(self)).mark(),
            final(items)@ == (Items {
                terms: final(items)@.terms,
                types: final(items)@.types,
                ..old(items)@
            }),
            final(self).imports == old(self).imports,
    {
        let ghost before = marking(*items, *self);
        let count: usize = items.types.len();
        let mut index: usize = 0;
        while index < count
            invariant
                index <= count,
                count == before.types.len(),
                count <= u32::MAX,
                before.terms.len() <= u32::MAX,
                before == marking(*old(items), *old(self)),
                children_in_range(before.types, before.terms.len()),
                marking(*items, *self) == before.mark_types(index as nat),
                items@ == (Items { terms: items@.terms, types: items@.types, ..old(items)@ }),
                self.imports == old(self).imports,
            decreases count - index,
        {
            proof {
                lemma_mark_types(before, index as nat);
                assert(in_range(
                    children_of(before.types[index as int].kind),
                    before.terms.len(),
                ));
                assert(before.mark_types(index as nat).types[index as int].kind
                    == before.types[index as int].kind);
            }
            self.export_type(items, index as u32);
            index += 1;
        }
        let ghost typed = marking(*items, *self);
        proof {
            lemma_mark_types(before, count as nat);
        }
        let count: usize = items.terms.len();
        let mut index: usize = 0;
        while index < count
            invariant
                index <= count,
                count == typed.terms.len(),
                count <= u32::MAX,
                self@ == typed.exported,
                items@.types == typed.types,
                items@.terms.len() == count,
                forall|i: int|
                    0 <= i < index ==> #[trigger] items@.terms[i] == typed.mark_terms().terms[i],
                forall|i: int|
                    index <= i < count ==> #[trigger] items@.terms[i] == typed.terms[i],
                items@ == (Items { terms: items@.terms, types: items@.types, ..old(items)@ }),
                self.imports == old(self).imports,
            decreases count - index,
        {
            let ghost current = items@.terms;
            assert(items@.terms[index as int] == typed.terms[index as int]);
            let item = items.terms.get_mut(index as u32);
            let listed = match &item.name {
                Some(name) => self.exports_term(name),
                None => false,
            };
            item.exported = item.exported || listed;
            assert(items@.terms =~= current.update(
                index as int,
                typed.mark_terms().terms[index as int],
            ));
            index += 1;
        }
        assert(items@.terms =~= typed.mark_terms().terms);
    }
}

} // verus!
