//! The documentation of a whole module.

use super::annotation::{
    derive_documentation, instance_documentation, module_documentation, node_text,
    term_documentation, term_text, text_or_empty, type_documentation, type_text, Annotations,
};
use super::syntax::SyntaxTree;
use crate::collections::IdMap;
use crate::indexing::module::{IndexedModule, Module};
use crate::indexing::stabilized::StabilizedModule;
use vstd::prelude::*;

verus! {

/// The documentation of a module and, by their numbers, of its items.
pub struct DocumentedModule {
    pub documentation: String,
    pub terms: IdMap<String>,
    pub types: IdMap<String>,
    pub instances: IdMap<String>,
    pub derives: IdMap<String>,
}

/// The first `count` numbers have the texts that a function gives.
pub open spec fn documents(
    map: Map<u64, String>,
    count: int,
    text: spec_fn(int) -> Seq<char>,
) -> bool {
    &&& forall|i: u64| #[trigger] map.contains_key(i) <==> i < count
    &&& forall|i: u64| i < count ==> (#[trigger] map[i])@ == text(i as int)
}

pub open spec fn term_texts(
    stabilized: StabilizedModule,
    tree: SyntaxTree,
    module: Module,
) -> spec_fn(int) -> Seq<char> {
    |i: int| term_text(stabilized, tree, module.items.terms[i].kind)
}

pub open spec fn type_texts(
    stabilized: StabilizedModule,
    tree: SyntaxTree,
    module: Module,
) -> spec_fn(int) -> Seq<char> {
    |i: int| type_text(stabilized, tree, module.items.types[i].kind)
}

pub open spec fn instance_texts(
    stabilized: StabilizedModule,
    tree: SyntaxTree,
    module: Module,
) -> spec_fn(int) -> Seq<char> {
    |i: int| node_text(stabilized, tree, module.items.instances[i].id)
}

pub open spec fn derive_texts(
    stabilized: StabilizedModule,
    tree: SyntaxTree,
    module: Module,
) -> spec_fn(int) -> Seq<char> {
    |i: int| node_text(stabilized, tree, module.items.derives[i].id)
}

/// Collects the documentation of a module. Every item has an entry; it is empty
/// where there is no documentation.
pub fn document_module(
    tree: &SyntaxTree,
    stabilized: &StabilizedModule,
    indexed: &IndexedModule,
) -> (documented: DocumentedModule)
    requires
        tree.wf(),
        indexed@.items.sound(),
    ensures
        documented.documentation@ == (match tree.header_annotation {
            Some(node) => text_or_empty(tree.annotation_text(node as int)),
            None => Seq::empty(),
        }),
        documents(
            documented.terms@,
            indexed@.items.terms.len() as int,
            term_texts(*stabilized, *tree, indexed@),
        ),
        documents(
            documented.types@,
            indexed@.items.types.len() as int,
            type_texts(*stabilized, *tree, indexed@),
        ),
        documents(
            documented.instances@,
            indexed@.items.instances.len() as int,
            instance_texts(*stabilized, *tree, indexed@),
        ),
        documents(
            documented.derives@,
            indexed@.items.derives.len() as int,
            derive_texts(*stabilized, *tree, indexed@),
        ),
{
    let annotations = Annotations::new(tree);
    let documentation = module_documentation(tree);

    let items = indexed.items.iter_terms();
    let mut terms: IdMap<String> = IdMap::new();
    let mut index: usize = 0;
    while index < items.len()
        invariant
            index <= items.len(),
            tree.wf(),
            annotations.tree == tree,
            indexed@.items.sound(),
            items@.len() == indexed@.items.terms.len(),
            forall|i: int|
                0 <= i < items@.len() ==> (#[trigger] items@[i]).0.raw == i && items@[i].1@
                    == indexed@.items.terms[i],
            documents(terms@, index as int, term_texts(*stabilized, *tree, indexed@)),
        decreases items.len() - index,
    {
        let (id, item) = items[index];
        terms.insert(id.raw as u64, term_documentation(stabilized, &annotations, item));
        index += 1;
    }

    let items = indexed.items.iter_types();
    let mut types: IdMap<String> = IdMap::new();
    let mut index: usize = 0;
    while index < items.len()
        invariant
            index <= items.len(),
            tree.wf(),
            annotations.tree == tree,
            indexed@.items.sound(),
            items@.len() == indexed@.items.types.len(),
            forall|i: int|
                0 <= i < items@.len() ==> (#[trigger] items@[i]).0.raw == i && items@[i].1@
                    == indexed@.items.types[i],
            documents(types@, index as int, type_texts(*stabilized, *tree, indexed@)),
        decreases items.len() - index,
    {
        let (id, item) = items[index];
        types.insert(id.raw as u64, type_documentation(stabilized, &annotations, item));
        index += 1;
    }

    let items = indexed.items.iter_instances();
    let mut instances: IdMap<String> = IdMap::new();
    let mut index: usize = 0;
    while index < items.len()
        invariant
            index <= items.len(),
            tree.wf(),
            annotations.tree == tree,
            indexed@.items.sound(),
            items@.len() == indexed@.items.instances.len(),
            forall|i: int|
                0 <= i < items@.len() ==> (#[trigger] items@[i]).0.raw == i && items@[i].1@
                    == indexed@.items.instances[i],
            documents(instances@, index as int, instance_texts(*stabilized, *tree, indexed@)),
        decreases items.len() - index,
    {
        let (id, item) = items[index];
        instances.insert(id.raw as u64, instance_documentation(stabilized, &annotations, item.id));
        index += 1;
    }

    let items = indexed.items.iter_derives();
    let mut derives: IdMap<String> = IdMap::new();
    let mut index: usize = 0;
    while index < items.len()
        invariant
            index <= items.len(),
            tree.wf(),
            annotations.tree == tree,
            indexed@.items.sound(),
            items@.len() == indexed@.items.derives.len(),
            forall|i: int|
                0 <= i < items@.len() ==> (#[trigger] items@[i]).0.raw == i && items@[i].1@
                    == indexed@.items.derives[i],
            documents(derives@, index as int, derive_texts(*stabilized, *tree, indexed@)),
        decreases items.len() - index,
    {
        let (id, item) = items[index];
        derives.insert(id.raw as u64, derive_documentation(stabilized, &annotations, item.id));
        index += 1;
    }

    DocumentedModule { documentation, terms, types, instances, derives }
}

} // verus!
