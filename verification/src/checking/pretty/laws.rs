//! What holds of the names that modules are printed with.

use super::super::evidence::InstanceCandidateOrigin;
use super::super::tree::{ClassSuperclass, InstanceSuperclass};
use super::super::types::FileId;
use super::evidence::{
    module_names, origin_file, origin_item, reserved, source_declaration, source_origin,
    source_text, sources_reserved, terms_reserved, InstanceTexts, Printed, Progress,
};
use super::layout::Doc;
use super::module::Declarations;
use super::names::{display_name, lemma_display_name_free};
use super::patterns::answered;
use super::printer::{is_readable, term_text_in, ModuleData, Printer};
use crate::indexing::items::{InstanceSourceItemId, OrderedTermItemId, TermItemId};
use crate::indexing::laws::{
    counted, declared_instances, derived_instances, instances_found, listed_instances,
};
use vstd::prelude::*;

verus! {

// Instances

/// The instances of a module are listed once.
proof fn lemma_sources_distinct(sources: Seq<InstanceSourceItemId>, instances: nat, derives: nat)
    requires
        declared_instances(sources) == counted(instances),
        derived_instances(sources) == counted(derives),
    ensures
        forall|i: int|
            0 <= i < sources.len() ==> match #[trigger] sources[i] {
                InstanceSourceItemId::Instance(id) => id.raw < instances,
                InstanceSourceItemId::Derive(id) => id.raw < derives,
            },
        sources.no_duplicates(),
    decreases sources.len(),
{
    if sources.len() > 0 {
        let rest = sources.drop_last();
        match sources.last() {
            InstanceSourceItemId::Instance(id) => {
                let declared = declared_instances(rest).push(id.raw as int);
                assert(declared.last() == counted(instances).last());
                assert(declared.drop_last() =~= declared_instances(rest));
                assert(counted(instances).drop_last() =~= counted((instances - 1) as nat));
                lemma_sources_distinct(rest, (instances - 1) as nat, derives);
            },
            InstanceSourceItemId::Derive(id) => {
                let derived = derived_instances(rest).push(id.raw as int);
                assert(derived.last() == counted(derives).last());
                assert(derived.drop_last() =~= derived_instances(rest));
                assert(counted(derives).drop_last() =~= counted((derives - 1) as nat));
                lemma_sources_distinct(rest, instances, (derives - 1) as nat);
            },
        }
        assert forall|i: int| 0 <= i < sources.len() implies match #[trigger] sources[i] {
            InstanceSourceItemId::Instance(id) => id.raw < instances,
            InstanceSourceItemId::Derive(id) => id.raw < derives,
        } by {
            if i < rest.len() {
                assert(rest[i] == sources[i]);
            }
        }
        assert forall|i: int, j: int|
            0 <= i < sources.len() && 0 <= j < sources.len() && i != j implies sources[i]
            != sources[j] by {
            if i < rest.len() {
                assert(rest[i] == sources[i]);
            }
            if j < rest.len() {
                assert(rest[j] == sources[j]);
            }
        }
    }
}

/// Another instance has another number.
proof fn lemma_named_with(
    names: InstanceTexts,
    origin: InstanceCandidateOrigin,
    name: Seq<char>,
    other: InstanceCandidateOrigin,
)
    ensures
        names.with(origin, name).named(other) == (if other == origin {
            Some(name)
        } else {
            names.named(other)
        }),
{
}

/// The instances of a module.
pub open spec fn sources_of(module: ModuleData) -> Seq<InstanceSourceItemId> {
    module.indexed@.items.instance_sources
}

/// Each instance of the module leads back to its item.
spec fn is_paired(module: ModuleData, file: FileId) -> bool {
    forall|index: int|
        0 <= index < sources_of(module).len() ==> match source_origin(
            module,
            file,
            #[trigger] sources_of(module)[index],
        ) {
            Some(origin) => origin_item(module, origin) == Some(sources_of(module)[index]),
            None => false,
        }
}

impl<'a> Printer<'a> {
    /// The items of every module are sound, and instances can be found.
    pub open spec fn is_indexed(self) -> bool {
        forall|file: FileId|
            (#[trigger] self.module_of(file)) is Some ==> {
                let indexed = self.module_of(file)->0.indexed@;
                indexed.items.sound() && instances_found(indexed.items, indexed.pairs)
            }
    }

    proof fn lemma_paired(self, file: FileId)
        requires
            self.is_indexed(),
            self.module_of(file) is Some,
        ensures
            is_paired(self.module_of(file)->0, file),
    {
        let items = self.module_of(file)->0.indexed@.items;
        lemma_sources_distinct(
            items.instance_sources,
            items.instances.len(),
            items.derives.len(),
        );
    }

    /// The names in use behind the first instances of a module, where these are named
    /// in order.
    pub open spec fn used_behind(self, module: ModuleData, count: nat) -> Set<Seq<char>>
        decreases count,
    {
        if count == 0 {
            module_names(module)
        } else {
            self.candidate_name(
                module,
                sources_of(module)[count - 1],
                self.used_behind(module, (count - 1) as nat),
            ).0
        }
    }

    /// The name of an instance by its position, where the instances of its module are
    /// named in order.
    pub open spec fn name_of(self, module: ModuleData, index: int) -> Option<Seq<char>> {
        self.candidate_name(
            module,
            sources_of(module)[index],
            self.used_behind(module, index as nat),
        ).1
    }

    /// Of an instance, no other name than that is known.
    pub open spec fn keeps_name(self, names: InstanceTexts, file: FileId, index: int) -> bool {
        let module = self.module_of(file)->0;
        let origin = source_origin(module, file, sources_of(module)[index])->0;
        names.named(origin) is Some ==> names.named(origin) == self.name_of(module, index)
    }

    /// Of no instance, another name is known.
    pub open spec fn keeps_names(self, names: InstanceTexts) -> bool {
        forall|file: FileId, index: int|
            self.module_of(file) is Some && 0 <= index < sources_of(
                self.module_of(file)->0,
            ).len() ==> #[trigger] self.keeps_name(names, file, index)
    }

    /// The first instances of a module have been named in order.
    pub open spec fn keeps_progress(
        self,
        names: InstanceTexts,
        file: FileId,
        progress: Progress,
    ) -> bool {
        let module = self.module_of(file)->0;
        &&& progress.next <= sources_of(module).len()
        &&& progress.used == self.used_behind(module, progress.next)
        &&& forall|index: int|
            0 <= index < progress.next ==> {
                let origin = source_origin(
                    module,
                    file,
                    #[trigger] sources_of(module)[index],
                )->0;
                self.name_of(module, index) is Some ==> names.named(origin) == self.name_of(
                    module,
                    index,
                )
            }
    }

    /// The names are those that the instances of each module get where they are named
    /// in order.
    pub open spec fn is_honest(self, names: InstanceTexts) -> bool {
        &&& self.keeps_names(names)
        &&& forall|file: FileId|
            (#[trigger] self.module_of(file)) is Some && names.modules.contains_key(
                file.raw as u64,
            ) ==> self.keeps_progress(names, file, names.modules[file.raw as u64])
    }

    /// Another instance has another identity.
    proof fn lemma_origins(self, file: FileId, index: int, other_file: FileId, other: int)
        requires
            self.is_indexed(),
            self.module_of(file) is Some,
            self.module_of(other_file) is Some,
            0 <= index < sources_of(self.module_of(file)->0).len(),
            0 <= other < sources_of(self.module_of(other_file)->0).len(),
            source_origin(
                self.module_of(file)->0,
                file,
                sources_of(self.module_of(file)->0)[index],
            ) == source_origin(
                self.module_of(other_file)->0,
                other_file,
                sources_of(self.module_of(other_file)->0)[other],
            ),
        ensures
            file == other_file,
            index == other,
    {
        let module = self.module_of(file)->0;
        let items = module.indexed@.items;
        self.lemma_paired(file);
        self.lemma_paired(other_file);
        let item = sources_of(module)[index];
        let another = sources_of(self.module_of(other_file)->0)[other];
        assert(file == other_file);
        assert(item == another);
        lemma_sources_distinct(
            items.instance_sources,
            items.instances.len(),
            items.derives.len(),
        );
    }

    /// A name that an instance gets in order may become known.
    proof fn lemma_with_keeps(self, names: InstanceTexts, file: FileId, index: int)
        requires
            self.is_indexed(),
            self.module_of(file) is Some,
            0 <= index < sources_of(self.module_of(file)->0).len(),
            self.keeps_names(names),
            self.name_of(self.module_of(file)->0, index) is Some,
        ensures
            ({
                let module = self.module_of(file)->0;
                let origin = source_origin(module, file, sources_of(module)[index])->0;
                let known = names.with(origin, self.name_of(module, index)->0);
                &&& self.keeps_names(known)
                &&& known.named(origin) == self.name_of(module, index)
                &&& known.modules == names.modules
                &&& forall|other: FileId, progress: Progress|
                    (#[trigger] self.module_of(other)) is Some && self.keeps_progress(
                        names,
                        other,
                        progress,
                    ) ==> #[trigger] self.keeps_progress(known, other, progress)
            }),
    {
        let module = self.module_of(file)->0;
        let name = self.name_of(module, index)->0;
        self.lemma_paired(file);
        let item = sources_of(module)[index];
        let origin = source_origin(module, file, item)->0;
        let known = names.with(origin, name);
        lemma_named_with(names, origin, name, origin);
        assert forall|other: FileId, position: int|
            self.module_of(other) is Some && 0 <= position < sources_of(
                self.module_of(other)->0,
            ).len() implies #[trigger] self.keeps_name(known, other, position) by {
            assert(self.keeps_name(names, other, position));
            let another = self.module_of(other)->0;
            self.lemma_paired(other);
            let sought = source_origin(another, other, sources_of(another)[position])->0;
            lemma_named_with(names, origin, name, sought);
            if sought == origin {
                self.lemma_origins(file, index, other, position);
            }
        }
        assert forall|other: FileId, progress: Progress|
            (#[trigger] self.module_of(other)) is Some && self.keeps_progress(
                names,
                other,
                progress,
            ) implies #[trigger] self.keeps_progress(known, other, progress) by {
            let another = self.module_of(other)->0;
            self.lemma_paired(other);
            assert forall|position: int| 0 <= position < progress.next implies {
                let sought = source_origin(
                    another,
                    other,
                    #[trigger] sources_of(another)[position],
                )->0;
                self.name_of(another, position) is Some ==> known.named(sought) == self.name_of(
                    another,
                    position,
                )
            } by {
                let sought = source_origin(another, other, sources_of(another)[position])->0;
                lemma_named_with(names, origin, name, sought);
                if sought == origin {
                    self.lemma_origins(file, index, other, position);
                }
            }
        }
    }

    /// Instances are named in order until the one sought has been named.
    proof fn lemma_walked(
        self,
        file: FileId,
        sought: InstanceSourceItemId,
        names: InstanceTexts,
        progress: Progress,
    )
        requires
            self.is_indexed(),
            self.module_of(file) is Some,
            self.keeps_names(names),
            self.keeps_progress(names, file, progress),
        ensures
            ({
                let module = self.module_of(file)->0;
                let walked = self.walked(module, file, sought, names, progress);
                &&& self.keeps_names(walked.names)
                &&& self.keeps_progress(walked.names, file, walked.progress)
                &&& walked.names.modules == names.modules
                &&& forall|other: FileId, known: Progress|
                    (#[trigger] self.module_of(other)) is Some && self.keeps_progress(
                        names,
                        other,
                        known,
                    ) ==> #[trigger] self.keeps_progress(walked.names, other, known)
                &&& forall|index: int|
                    0 <= index < sources_of(module).len() && #[trigger] sources_of(module)[index]
                        == sought ==> walked.found == (if index < progress.next {
                        None
                    } else {
                        self.name_of(module, index)
                    })
            }),
        decreases sources_of(self.module_of(file)->0).len() - progress.next,
    {
        let module = self.module_of(file)->0;
        let items = module.indexed@.items;
        let sources = sources_of(module);
        self.lemma_paired(file);
        lemma_sources_distinct(sources, items.instances.len(), items.derives.len());
        if progress.next < sources.len() {
            let index = progress.next as int;
            let item = sources[index];
            let (used, name) = self.candidate_name(module, item, progress.used);
            let next = Progress { used, next: progress.next + 1 };
            let origin = source_origin(module, file, item)->0;
            assert(used == self.used_behind(module, next.next));
            assert(name == self.name_of(module, index));
            match name {
                Some(name) => {
                    let known = names.with(origin, name);
                    self.lemma_with_keeps(names, file, index);
                    assert(self.keeps_progress(known, file, progress));
                    assert(self.keeps_progress(known, file, next));
                    if item != sought {
                        self.lemma_walked(file, sought, known, next);
                    }
                },
                None => {
                    assert(self.keeps_progress(names, file, next));
                    self.lemma_walked(file, sought, names, next);
                },
            }
        }
    }

    /// An instance always has the name that it gets where the instances of its module
    /// are named in order, whichever names have been asked for before.
    pub proof fn lemma_instance_name(self, names: InstanceTexts, file: FileId, index: int)
        requires
            self.is_indexed(),
            self.is_honest(names),
            self.module_of(file) is Some,
            0 <= index < sources_of(self.module_of(file)->0).len(),
        ensures
            ({
                let module = self.module_of(file)->0;
                let origin = source_origin(module, file, sources_of(module)[index])->0;
                let (known, name) = self.dictionary_named(origin, names);
                &&& self.is_honest(known)
                &&& name == (match self.name_of(module, index) {
                    Some(name) => name,
                    None => "<instance>"@,
                })
            }),
    {
        let module = self.module_of(file)->0;
        let item = sources_of(module)[index];
        let key = file.raw as u64;
        self.lemma_paired(file);
        let origin = source_origin(module, file, item)->0;
        assert(origin_file(origin) == file);
        assert(self.keeps_name(names, file, index));
        if names.named(origin) is None {
            if source_text(module, item) is Some {
                self.lemma_with_keeps(names, file, index);
            } else {
                let progress = if names.modules.contains_key(key) {
                    names.modules[key]
                } else {
                    Progress { used: module_names(module), next: 0 }
                };
                let left = InstanceTexts { modules: names.modules.remove(key), ..names };
                assert(self.keeps_names(left)) by {
                    assert forall|other: FileId, position: int|
                        self.module_of(other) is Some && 0 <= position < sources_of(
                            self.module_of(other)->0,
                        ).len() implies #[trigger] self.keeps_name(left, other, position) by {
                        assert(self.keeps_name(names, other, position));
                    }
                }
                assert(self.keeps_progress(names, file, progress));
                assert(self.keeps_progress(left, file, progress));
                self.lemma_walked(file, item, left, progress);
                let walked = self.walked(module, file, item, left, progress);
                let known = walked.names.with_progress(file, walked.progress);
                assert(self.keeps_names(known)) by {
                    assert forall|other: FileId, position: int|
                        self.module_of(other) is Some && 0 <= position < sources_of(
                            self.module_of(other)->0,
                        ).len() implies #[trigger] self.keeps_name(known, other, position) by {
                        assert(self.keeps_name(walked.names, other, position));
                    }
                }
                assert forall|other: FileId|
                    (#[trigger] self.module_of(other)) is Some && known.modules.contains_key(
                        other.raw as u64,
                    ) implies self.keeps_progress(
                    known,
                    other,
                    known.modules[other.raw as u64],
                ) by {
                    let reached = known.modules[other.raw as u64];
                    if other == file {
                        assert(self.keeps_progress(walked.names, file, walked.progress));
                    } else {
                        assert(self.keeps_progress(names, other, reached));
                        assert(self.keeps_progress(left, other, reached));
                        assert(self.keeps_progress(walked.names, other, reached));
                    }
                }
            }
        }
    }

    /// Which instance is asked for first does not change the name of another.
    pub proof fn lemma_question_order(
        self,
        first: (FileId, int),
        second: (FileId, int),
    )
        requires
            self.is_indexed(),
            self.module_of(first.0) is Some,
            self.module_of(second.0) is Some,
            0 <= first.1 < sources_of(self.module_of(first.0)->0).len(),
            0 <= second.1 < sources_of(self.module_of(second.0)->0).len(),
        ensures
            ({
                let (left, right) = (self.module_of(first.0)->0, self.module_of(second.0)->0);
                let one = source_origin(left, first.0, sources_of(left)[first.1])->0;
                let other = source_origin(right, second.0, sources_of(right)[second.1])->0;
                let names = self.dictionary_named(one, InstanceTexts::empty()).0;
                self.dictionary_named(other, names).1 == self.dictionary_named(
                    other,
                    InstanceTexts::empty(),
                ).1
            }),
    {
        assert(self.is_honest(InstanceTexts::empty()));
        self.lemma_instance_name(InstanceTexts::empty(), first.0, first.1);
        self.lemma_instance_name(InstanceTexts::empty(), second.0, second.1);
        let left = self.module_of(first.0)->0;
        let one = source_origin(left, first.0, sources_of(left)[first.1])->0;
        let names = self.dictionary_named(one, InstanceTexts::empty()).0;
        self.lemma_instance_name(names, second.0, second.1);
    }
}

// Listings

impl<'a> Printer<'a> {
    /// Where a module is listed, the names in use behind some of its terms and
    /// instances are those behind the instances among them.
    proof fn lemma_listed_used(
        self,
        begun: Declarations,
        terms: Seq<OrderedTermItemId>,
        rest: Seq<InstanceSourceItemId>,
    )
        requires
            begun.used == module_names(*self.own),
            listed_instances(terms) + rest == sources_of(*self.own),
        ensures
            self.terms_listed(begun, terms).used == self.used_behind(
                *self.own,
                listed_instances(terms).len(),
            ),
        decreases terms.len(),
    {
        if terms.len() > 0 {
            let sources = sources_of(*self.own);
            let before = terms.drop_last();
            match terms.last() {
                OrderedTermItemId::Term(_) => {
                    self.lemma_listed_used(begun, before, rest);
                },
                OrderedTermItemId::Instance(id) => {
                    let item = InstanceSourceItemId::Instance(id);
                    assert(listed_instances(terms) + rest =~= listed_instances(before) + (seq![item]
                        + rest));
                    self.lemma_listed_used(begun, before, seq![item] + rest);
                    assert(sources[listed_instances(before).len() as int] == item);
                },
                OrderedTermItemId::Derive(id) => {
                    let item = InstanceSourceItemId::Derive(id);
                    assert(listed_instances(terms) + rest =~= listed_instances(before) + (seq![item]
                        + rest));
                    self.lemma_listed_used(begun, before, seq![item] + rest);
                    assert(sources[listed_instances(before).len() as int] == item);
                },
            }
        }
    }

    /// Instances are listed in the order in which they are named.
    proof fn lemma_listed_rest(terms: Seq<OrderedTermItemId>, count: int) -> (rest: Seq<
        InstanceSourceItemId,
    >)
        requires
            0 <= count <= terms.len(),
        ensures
            listed_instances(terms.take(count)) + rest == listed_instances(terms),
        decreases terms.len() - count,
    {
        if count == terms.len() {
            assert(terms.take(count) =~= terms);
            assert(listed_instances(terms) + Seq::empty() =~= listed_instances(terms));
            Seq::empty()
        } else {
            let rest = Self::lemma_listed_rest(terms, count + 1);
            assert(terms.take(count + 1).drop_last() =~= terms.take(count));
            let before = listed_instances(terms.take(count));
            match terms[count] {
                OrderedTermItemId::Term(_) => rest,
                OrderedTermItemId::Instance(id) => {
                    let item = InstanceSourceItemId::Instance(id);
                    assert(before.push(item) + rest =~= before + (seq![item] + rest));
                    seq![item] + rest
                },
                OrderedTermItemId::Derive(id) => {
                    let item = InstanceSourceItemId::Derive(id);
                    assert(before.push(item) + rest =~= before + (seq![item] + rest));
                    seq![item] + rest
                },
            }
        }
    }

    /// A module's listing shows an instance under the name that evidence refers to it
    /// by.
    pub proof fn lemma_listed_name(
        self,
        begun: Declarations,
        position: int,
        item: InstanceSourceItemId,
        names: InstanceTexts,
    )
        requires
            self.is_indexed(),
            self.is_honest(names),
            begun.used == module_names(*self.own),
            0 <= position < self.own.indexed@.items.ordered_terms.len(),
            self.own.indexed@.items.ordered_terms[position] == (match item {
                InstanceSourceItemId::Instance(id) => OrderedTermItemId::Instance(id),
                InstanceSourceItemId::Derive(id) => OrderedTermItemId::Derive(id),
            }),
            source_declaration(*self.own, item) is Some,
            source_declaration(*self.own, item)->0.kind is Instance,
        ensures
            ({
                let terms = self.own.indexed@.items.ordered_terms;
                let before = self.terms_listed(begun, terms.take(position));
                let after = self.terms_listed(begun, terms.take(position + 1));
                let declaration = source_declaration(*self.own, item)->0;
                let origin = source_origin(*self.own, self.file, item)->0;
                after.docs == before.docs.push(
                    self.instance_laid(
                        before.state,
                        self.dictionary_named(origin, names).1,
                        declaration.type_id,
                        declaration.kind->Instance_0,
                    ).doc,
                )
            }),
    {
        let items = self.own.indexed@.items;
        let terms = items.ordered_terms;
        assert(self.module_of(self.file) == Some(*self.own));
        let rest = Self::lemma_listed_rest(terms, position + 1);
        assert(terms.take(position + 1).drop_last() =~= terms.take(position));
        let before = listed_instances(terms.take(position));
        assert(before.push(item) + rest =~= before + (seq![item] + rest));
        self.lemma_listed_used(begun, terms.take(position), seq![item] + rest);
        let index = before.len() as int;
        assert(sources_of(*self.own)[index] == item);
        self.lemma_instance_name(names, self.file, index);
    }

    /// Names in use stay in use.
    proof fn lemma_used_grows(self, module: ModuleData, early: nat, late: nat)
        requires
            early <= late,
            module_names(module).finite(),
        ensures
            self.used_behind(module, early).subset_of(self.used_behind(module, late)),
            self.used_behind(module, late).finite(),
            self.used_behind(module, early).finite(),
        decreases late,
    {
        if early < late {
            self.lemma_used_grows(module, early, (late - 1) as nat);
        } else if late > 0 {
            self.lemma_used_grows(module, (late - 1) as nat, (late - 1) as nat);
        }
    }

    /// An instance without a name of its own gets one that neither a term, nor an
    /// instance with a name of its own, nor another instance before it has.
    pub proof fn lemma_names_differ(self, module: ModuleData, index: int)
        requires
            is_readable(module),
            0 <= index < sources_of(module).len(),
            source_text(module, sources_of(module)[index]) is None,
            self.name_of(module, index) is Some,
        ensures
            forall|id: TermItemId|
                #![trigger term_text_in(module, id)]
                term_text_in(module, id) != self.name_of(module, index),
            forall|other: int|
                0 <= other < sources_of(module).len() ==> source_text(
                    module,
                    #[trigger] sources_of(module)[other],
                ) != self.name_of(module, index),
            forall|other: int|
                0 <= other < index ==> self.name_of(module, other) != #[trigger] self.name_of(
                    module,
                    index,
                ) || self.name_of(module, other) is None,
    {
        let sources = sources_of(module);
        let name = self.name_of(module, index)->0;
        let used = self.used_behind(module, index as nat);
        lemma_module_names(module);
        self.lemma_used_grows(module, 0, index as nat);
        let declaration = source_declaration(module, sources[index])->0;
        let instance = declaration.kind->Instance_0;
        lemma_display_name_free(
            used,
            self.dictionary_base(declaration.type_id, instance.class),
        );
        assert(!used.contains(name));
        assert forall|other: int| 0 <= other < index && self.name_of(
            module,
            other,
        ) is Some implies self.name_of(module, other) != self.name_of(module, index) by {
            self.lemma_used_grows(module, (other + 1) as nat, index as nat);
            self.lemma_used_grows(module, 0, (other + 1) as nat);
            let item = sources[other];
            if source_text(module, item) is Some {
                assert(module_names(module).contains(source_text(module, item)->0));
            } else {
                assert(self.used_behind(module, (other + 1) as nat).contains(
                    self.name_of(module, other)->0,
                ));
            }
        }
    }
}

/// Names stay handed out.
proof fn lemma_reserved(used: Set<Seq<char>>, name: Option<Seq<char>>)
    ensures
        used.subset_of(reserved(used, name)),
        name is Some ==> reserved(used, name).contains(name->0),
        used.finite() ==> reserved(used, name).finite(),
{
}

proof fn lemma_terms_reserved(module: ModuleData, count: nat)
    requires
        count <= u32::MAX,
    ensures
        terms_reserved(Set::empty(), module, count).finite(),
        forall|id: TermItemId|
            id.raw < count && (#[trigger] term_text_in(module, id)) is Some ==> terms_reserved(
                Set::empty(),
                module,
                count,
            ).contains(term_text_in(module, id)->0),
    decreases count,
{
    if count > 0 {
        lemma_terms_reserved(module, (count - 1) as nat);
        let before = terms_reserved(Set::empty(), module, (count - 1) as nat);
        let last = TermItemId { raw: (count - 1) as u32 };
        lemma_reserved(before, term_text_in(module, last));
        assert forall|id: TermItemId|
            id.raw < count && (#[trigger] term_text_in(
                module,
                id,
            )) is Some implies terms_reserved(Set::empty(), module, count).contains(
            term_text_in(module, id)->0,
        ) by {
            if id.raw == count - 1 {
                assert(id == last);
            }
        }
    }
}

proof fn lemma_sources_reserved(
    used: Set<Seq<char>>,
    module: ModuleData,
    sources: Seq<InstanceSourceItemId>,
)
    requires
        used.finite(),
    ensures
        sources_reserved(used, module, sources).finite(),
        used.subset_of(sources_reserved(used, module, sources)),
        forall|i: int|
            0 <= i < sources.len() && source_text(module, #[trigger] sources[i]) is Some
                ==> sources_reserved(used, module, sources).contains(
                source_text(module, sources[i])->0,
            ),
    decreases sources.len(),
{
    if sources.len() > 0 {
        let rest = sources.drop_last();
        lemma_sources_reserved(used, module, rest);
        lemma_reserved(sources_reserved(used, module, rest), source_text(module, sources.last()));
        assert forall|i: int|
            0 <= i < sources.len() && source_text(
                module,
                #[trigger] sources[i],
            ) is Some implies sources_reserved(used, module, sources).contains(
            source_text(module, sources[i])->0,
        ) by {
            if i < rest.len() {
                assert(rest[i] == sources[i]);
            }
        }
    }
}

proof fn lemma_module_names(module: ModuleData)
    requires
        is_readable(module),
    ensures
        module_names(module).finite(),
        forall|id: TermItemId|
            (#[trigger] term_text_in(module, id)) is Some ==> module_names(module).contains(
                term_text_in(module, id)->0,
            ),
        forall|i: int|
            0 <= i < sources_of(module).len() && source_text(
                module,
                #[trigger] sources_of(module)[i],
            ) is Some ==> module_names(module).contains(
                source_text(module, sources_of(module)[i])->0,
            ),
{
    let terms = module.indexed@.items.terms.len();
    lemma_terms_reserved(module, terms);
    lemma_sources_reserved(
        terms_reserved(Set::empty(), module, terms),
        module,
        sources_of(module),
    );
}

// Superclasses

impl<'a> Printer<'a> {
    /// A superclass is projected by the name that its class is listed with.
    pub proof fn lemma_superclass_field(
        self,
        state: Printed,
        superclasses: Seq<ClassSuperclass>,
        used: Set<Seq<char>>,
        index: int,
    )
        requires
            0 <= index < superclasses.len(),
            forall|i: int, j: int|
                0 <= i < j < superclasses.len() ==> (#[trigger] superclasses[i]).id != (
                #[trigger] superclasses[j]).id,
        ensures
            ({
                let count = superclasses.len();
                let before = self.superclasses_listed(state, superclasses, used, index as nat).0;
                let listed = self.superclasses_listed(state, superclasses, used, count).0;
                let name = self.field_among(superclasses, used, superclasses[index].id);
                &&& listed.docs.len() == count
                &&& listed.docs[index] == Doc::Text("  superclass "@ + name + " :: "@).append(
                    answered(before.state),
                )
            }),
    {
        self.lemma_superclass_docs(state, superclasses, used, superclasses.len());
        self.lemma_field_among(state, superclasses, used, 0, index);
        assert(superclasses.skip(0) =~= superclasses);
    }

    /// The first superclasses are listed in order.
    proof fn lemma_superclass_docs(
        self,
        state: Printed,
        superclasses: Seq<ClassSuperclass>,
        used: Set<Seq<char>>,
        count: nat,
    )
        requires
            count <= superclasses.len(),
        ensures
            ({
                let listed = self.superclasses_listed(state, superclasses, used, count).0;
                &&& listed.docs.len() == count
                &&& forall|index: int|
                    0 <= index < count ==> {
                        let (before, taken) = self.superclasses_listed(
                            state,
                            superclasses,
                            used,
                            index as nat,
                        );
                        let name = display_name(
                            taken,
                            self.evidence_base(superclasses[index].constraint),
                        );
                        #[trigger] listed.docs[index] == Doc::Text(
                            "  superclass "@ + name + " :: "@,
                        ).append(answered(before.state))
                    }
            }),
        decreases count,
    {
        if count > 0 {
            self.lemma_superclass_docs(state, superclasses, used, (count - 1) as nat);
            let before = self.superclasses_listed(
                state,
                superclasses,
                used,
                (count - 1) as nat,
            ).0;
            let listed = self.superclasses_listed(state, superclasses, used, count).0;
            assert(forall|index: int|
                0 <= index < count - 1 ==> #[trigger] listed.docs[index] == before.docs[index]);
        }
    }

    /// A superclass is found behind the first ones.
    proof fn lemma_field_among(
        self,
        state: Printed,
        superclasses: Seq<ClassSuperclass>,
        used: Set<Seq<char>>,
        count: int,
        index: int,
    )
        requires
            0 <= count <= index < superclasses.len(),
            forall|i: int, j: int|
                0 <= i < j < superclasses.len() ==> (#[trigger] superclasses[i]).id != (
                #[trigger] superclasses[j]).id,
        ensures
            self.field_among(
                superclasses.skip(count),
                self.superclasses_listed(state, superclasses, used, count as nat).1,
                superclasses[index].id,
            ) == display_name(
                self.superclasses_listed(state, superclasses, used, index as nat).1,
                self.evidence_base(superclasses[index].constraint),
            ),
        decreases index - count,
    {
        assert(superclasses.skip(count)[0] == superclasses[count]);
        if count < index {
            assert(superclasses.skip(count).skip(1) =~= superclasses.skip(count + 1));
            assert(superclasses[count].id != superclasses[index].id);
            self.lemma_field_among(state, superclasses, used, count + 1, index);
        }
    }

    /// An instance gives a superclass under the name that its class is listed with,
    /// where the evidence is for the same classes.
    pub proof fn lemma_instance_field(
        self,
        instance: Seq<InstanceSuperclass>,
        class: Seq<ClassSuperclass>,
        used: Set<Seq<char>>,
        index: int,
    )
        requires
            0 <= index < class.len(),
            instance.len() == class.len(),
            forall|i: int|
                0 <= i < class.len() ==> self.evidence_base((#[trigger] instance[i]).constraint)
                    == self.evidence_base(class[i].constraint),
            forall|i: int, j: int|
                0 <= i < j < class.len() ==> (#[trigger] class[i]).id != (#[trigger] class[j]).id,
        ensures
            self.instance_fields(instance, used, instance.len()).0[index] == self.field_among(
                class,
                used,
                class[index].id,
            ),
    {
        let state = Printed::empty();
        self.lemma_instance_names(instance, class, used, instance.len());
        self.lemma_field_among(state, class, used, 0, index);
        assert(class.skip(0) =~= class);
    }

    proof fn lemma_instance_names(
        self,
        instance: Seq<InstanceSuperclass>,
        class: Seq<ClassSuperclass>,
        used: Set<Seq<char>>,
        count: nat,
    )
        requires
            count <= class.len(),
            instance.len() == class.len(),
            forall|i: int|
                0 <= i < class.len() ==> self.evidence_base((#[trigger] instance[i]).constraint)
                    == self.evidence_base(class[i].constraint),
        ensures
            ({
                let (names, taken) = self.instance_fields(instance, used, count);
                &&& names.len() == count
                &&& taken == self.superclasses_listed(Printed::empty(), class, used, count).1
                &&& forall|index: int|
                    0 <= index < count ==> #[trigger] names[index] == display_name(
                        self.superclasses_listed(
                            Printed::empty(),
                            class,
                            used,
                            index as nat,
                        ).1,
                        self.evidence_base(class[index].constraint),
                    )
            }),
        decreases count,
    {
        if count > 0 {
            self.lemma_instance_names(instance, class, used, (count - 1) as nat);
            let last = instance[count - 1];
            let before = self.instance_fields(instance, used, (count - 1) as nat).0;
            let names = self.instance_fields(instance, used, count).0;
            assert(forall|index: int|
                0 <= index < count - 1 ==> #[trigger] names[index] == before[index]);
        }
    }
}

} // verus!
