//! The names of evidence and of instances.

use super::super::evidence::{
    Evidence, EvidenceBinderId, EvidenceId, EvidenceState, EvidenceVarId, InstanceCandidateOrigin,
    ReflectableEvidence, ReflectableOrdering, SuperclassId, SynthesizedEvidence,
};
use super::super::state::{pack, packed};
use super::super::tree::{
    entry, found, limit, limited, ClassSuperclass, TermDeclaration, TermDeclarationKind,
    TypeDeclarationKind,
};
use super::super::types::{FileId, Type, TypeId};
use super::names::{display_name, PrettyNames};
use super::printer::{
    optional_text, term_name_in, term_text_in, uncapitalize, uncapitalized, ModuleData, Printer,
    TypeRequest,
};
use crate::collections::IdMap;
use crate::indexing::items::{InstanceSourceItemId, TermItemId, TypeItemId, TypeSort};
use crate::indexing::laws::children_of;
use crate::indexing::model::is_sort;
use crate::indexing::pairs::first_value;
use crate::text::{quote, quoted, signed, signed_text};
use vstd::prelude::*;

verus! {

// State

/// The names of evidence that is given within a declaration.
pub struct EvidenceNames {
    display_by_binder: IdMap<String>,
    names: PrettyNames,
}

/// The model of [`EvidenceNames`].
#[verifier::ext_equal]
pub struct EvidenceTexts {
    pub display: Map<u64, Seq<char>>,
    pub used: Set<Seq<char>>,
}

/// The texts of a map.
pub open spec fn texts_of(map: Map<u64, String>) -> Map<u64, Seq<char>> {
    map.map_values(|text: String| text@)
}

impl View for EvidenceNames {
    type V = EvidenceTexts;

    closed spec fn view(&self) -> EvidenceTexts {
        EvidenceTexts { display: texts_of(self.display_by_binder@), used: self.names@ }
    }
}

impl EvidenceTexts {
    pub open spec fn empty() -> EvidenceTexts {
        EvidenceTexts { display: Map::empty(), used: Set::empty() }
    }
}

impl EvidenceNames {
    pub fn new() -> (names: EvidenceNames)
        ensures
            names@ == EvidenceTexts::empty(),
    {
        let names = EvidenceNames { display_by_binder: IdMap::new(), names: PrettyNames::new() };
        assert(names@ =~= EvidenceTexts::empty());
        names
    }

    fn get(&self, binder: EvidenceBinderId) -> (name: Option<String>)
        ensures
            optional_text(name) == (if self@.display.contains_key(binder.raw as u64) {
                Some(self@.display[binder.raw as u64])
            } else {
                None
            }),
    {
        match self.display_by_binder.get(binder.raw as u64) {
            Some(name) => Some(name.clone()),
            None => None,
        }
    }

    fn allocate(&mut self, binder: EvidenceBinderId, base: String) -> (name: String)
        ensures
            name@ == display_name(old(self)@.used, base@),
            final(self)@ == (EvidenceTexts {
                display: old(self)@.display.insert(binder.raw as u64, name@),
                used: old(self)@.used.insert(name@),
            }),
    {
        let name = self.names.allocate_display_name(base);
        self.display_by_binder.insert(binder.raw as u64, name.clone());
        assert(self@.display =~= old(self)@.display.insert(binder.raw as u64, name@));
        name
    }
}

/// The names of a module's instances, as far as they have been found.
struct ModuleInstanceNames {
    names: PrettyNames,
    next_source: usize,
}

/// The names of instances that have been found.
pub struct InstanceNames {
    instances: IdMap<String>,
    derives: IdMap<String>,
    modules: IdMap<ModuleInstanceNames>,
}

/// How far the names of a module's instances have been found.
pub struct Progress {
    pub used: Set<Seq<char>>,
    pub next: nat,
}

/// The model of [`InstanceNames`].
#[verifier::ext_equal]
pub struct InstanceTexts {
    pub instances: Map<u64, Seq<char>>,
    pub derives: Map<u64, Seq<char>>,
    pub modules: Map<u64, Progress>,
}

impl View for InstanceNames {
    type V = InstanceTexts;

    closed spec fn view(&self) -> InstanceTexts {
        InstanceTexts {
            instances: texts_of(self.instances@),
            derives: texts_of(self.derives@),
            modules: self.modules@.map_values(
                |module: ModuleInstanceNames|
                    Progress { used: module.names@, next: module.next_source as nat },
            ),
        }
    }
}

/// The file of an instance.
pub open spec fn origin_file(origin: InstanceCandidateOrigin) -> FileId {
    match origin {
        InstanceCandidateOrigin::Instance(file, _) => file,
        InstanceCandidateOrigin::Derive(file, _) => file,
    }
}

impl InstanceTexts {
    pub open spec fn empty() -> InstanceTexts {
        InstanceTexts { instances: Map::empty(), derives: Map::empty(), modules: Map::empty() }
    }

    /// The name of an instance, if it has been found.
    pub open spec fn named(self, origin: InstanceCandidateOrigin) -> Option<Seq<char>> {
        let (known, key) = match origin {
            InstanceCandidateOrigin::Instance(file, id) => (
                self.instances,
                packed(file.raw, id.raw),
            ),
            InstanceCandidateOrigin::Derive(file, id) => (self.derives, packed(file.raw, id.raw)),
        };
        if known.contains_key(key) {
            Some(known[key])
        } else {
            None
        }
    }

    /// The name of an instance has been found.
    pub open spec fn with(self, origin: InstanceCandidateOrigin, name: Seq<char>) -> InstanceTexts {
        match origin {
            InstanceCandidateOrigin::Instance(file, id) => InstanceTexts {
                instances: self.instances.insert(packed(file.raw, id.raw), name),
                ..self
            },
            InstanceCandidateOrigin::Derive(file, id) => InstanceTexts {
                derives: self.derives.insert(packed(file.raw, id.raw), name),
                ..self
            },
        }
    }

    pub open spec fn with_progress(self, file: FileId, progress: Progress) -> InstanceTexts {
        InstanceTexts { modules: self.modules.insert(file.raw as u64, progress), ..self }
    }
}

impl InstanceNames {
    pub fn new() -> (names: InstanceNames)
        ensures
            names@ == InstanceTexts::empty(),
    {
        let names = InstanceNames {
            instances: IdMap::new(),
            derives: IdMap::new(),
            modules: IdMap::new(),
        };
        assert(names@ =~= InstanceTexts::empty());
        names
    }

    pub fn get(&self, origin: InstanceCandidateOrigin) -> (name: Option<String>)
        ensures
            optional_text(name) == self@.named(origin),
    {
        let found = match origin {
            InstanceCandidateOrigin::Instance(file, id) => self.instances.get(
                pack(file.raw, id.raw),
            ),
            InstanceCandidateOrigin::Derive(file, id) => self.derives.get(
                pack(file.raw, id.raw),
            ),
        };
        match found {
            Some(name) => Some(name.clone()),
            None => None,
        }
    }

    fn insert(&mut self, origin: InstanceCandidateOrigin, name: String)
        ensures
            final(self)@ == old(self)@.with(origin, name@),
    {
        match origin {
            InstanceCandidateOrigin::Instance(file, id) => {
                self.instances.insert(pack(file.raw, id.raw), name);
            },
            InstanceCandidateOrigin::Derive(file, id) => {
                self.derives.insert(pack(file.raw, id.raw), name);
            },
        }
        assert(self@ =~= old(self)@.with(origin, name@));
    }

    /// Takes out how far a module's names have been found.
    fn take_progress(&mut self, file: FileId) -> (progress: Option<ModuleInstanceNames>)
        ensures
            match progress {
                Some(progress) => {
                    &&& old(self)@.modules.contains_key(file.raw as u64)
                    &&& old(self)@.modules[file.raw as u64] == (Progress {
                        used: progress.names@,
                        next: progress.next_source as nat,
                    })
                },
                None => !old(self)@.modules.contains_key(file.raw as u64),
            },
            final(self)@ == (InstanceTexts {
                modules: old(self)@.modules.remove(file.raw as u64),
                ..old(self)@
            }),
    {
        let progress = self.modules.remove(file.raw as u64);
        assert(self@ =~= (InstanceTexts {
            modules: old(self)@.modules.remove(file.raw as u64),
            ..old(self)@
        }));
        progress
    }

    fn put_progress(&mut self, file: FileId, progress: ModuleInstanceNames)
        ensures
            final(self)@ == old(self)@.with_progress(
                file,
                Progress { used: progress.names@, next: progress.next_source as nat },
            ),
    {
        self.modules.insert(file.raw as u64, progress);
        assert(self@ =~= old(self)@.with_progress(
            file,
            Progress { used: progress.names@, next: progress.next_source as nat },
        ));
    }
}

/// What is known while a module is printed.
pub struct Printing {
    pub evidence: EvidenceNames,
    pub dictionaries: InstanceNames,
    /// What has been asked of the printer of types, in order.
    pub requests: Vec<TypeRequest>,
}

/// The model of [`Printing`].
#[verifier::ext_equal]
pub struct Printed {
    pub evidence: EvidenceTexts,
    pub dictionaries: InstanceTexts,
    pub requests: Seq<TypeRequest>,
}

impl View for Printing {
    type V = Printed;

    open spec fn view(&self) -> Printed {
        Printed {
            evidence: self.evidence@,
            dictionaries: self.dictionaries@,
            requests: self.requests@,
        }
    }
}

impl Printed {
    pub open spec fn empty() -> Printed {
        Printed {
            evidence: EvidenceTexts::empty(),
            dictionaries: InstanceTexts::empty(),
            requests: Seq::empty(),
        }
    }

    /// One more thing has been asked of the printer of types.
    pub open spec fn asked(self, request: TypeRequest) -> Printed {
        Printed { requests: self.requests.push(request), ..self }
    }

    /// No evidence has been named yet.
    pub open spec fn without_evidence(self) -> Printed {
        Printed { evidence: EvidenceTexts::empty(), ..self }
    }
}

impl Printing {
    pub fn new() -> (printing: Printing)
        ensures
            printing@ == Printed::empty(),
    {
        let printing = Printing {
            evidence: EvidenceNames::new(),
            dictionaries: InstanceNames::new(),
            requests: Vec::new(),
        };
        assert(printing@ =~= Printed::empty());
        printing
    }

    /// Asks something of the printer of types.
    pub fn ask(&mut self, request: TypeRequest) -> (index: usize)
        ensures
            index == old(self)@.requests.len(),
            final(self)@ == old(self)@.asked(request),
    {
        let index: usize = self.requests.len();
        self.requests.push(request);
        index
    }
}

/// A text with the state behind it.
pub struct Named {
    pub state: Printed,
    pub text: Seq<char>,
}

// Base names

impl<'a> Printer<'a> {
    /// The class of a constraint.
    pub open spec fn constraint_class(self, constraint: TypeId) -> Option<Seq<char>>
        decreases constraint.raw,
    {
        match self.type_of(constraint) {
            Some(Type::Application(function, _)) if function.raw < constraint.raw => {
                self.constraint_class(function)
            },
            Some(Type::KindApplication(function, _)) if function.raw < constraint.raw => {
                self.constraint_class(function)
            },
            Some(Type::Kinded(inner, _)) if inner.raw < constraint.raw => self.constraint_class(
                inner,
            ),
            Some(Type::Constructor(file, item)) => self.type_text(file, item),
            _ => None,
        }
    }

    fn constraint_class_name(&self, constraint: TypeId) -> (name: Option<String>)
        ensures
            optional_text(name) == self.constraint_class(constraint),
        decreases constraint.raw,
    {
        match self.lookup_type(constraint) {
            Some(Type::Application(function, _)) => {
                if function.raw < constraint.raw {
                    self.constraint_class_name(function)
                } else {
                    None
                }
            },
            Some(Type::KindApplication(function, _)) => {
                if function.raw < constraint.raw {
                    self.constraint_class_name(function)
                } else {
                    None
                }
            },
            Some(Type::Kinded(inner, _)) => {
                if inner.raw < constraint.raw {
                    self.constraint_class_name(inner)
                } else {
                    None
                }
            },
            Some(Type::Constructor(file, item)) => self.type_item_name(file, item),
            _ => None,
        }
    }

    /// The name of evidence for a constraint, before it is made one that is not in
    /// use: that of the class.
    pub open spec fn evidence_base(self, constraint: TypeId) -> Seq<char> {
        match self.constraint_class(constraint) {
            Some(class) => match uncapitalized(class) {
                Some(name) => name + "Dict"@,
                None => "evidenceDict"@,
            },
            None => "evidenceDict"@,
        }
    }

    pub fn evidence_base_name(&self, constraint: TypeId) -> (name: String)
        ensures
            name@ == self.evidence_base(constraint),
    {
        match self.constraint_class_name(constraint) {
            Some(class) => match uncapitalize(class.as_str()) {
                Some(mut name) => {
                    name.append("Dict");
                    name
                },
                None => "evidenceDict".to_owned(),
            },
            None => "evidenceDict".to_owned(),
        }
    }

    /// The text with the names of a type's constructors behind it.
    pub open spec fn with_constructors(self, output: Seq<char>, id: TypeId) -> Seq<char>
        decreases id.raw,
    {
        match self.type_of(id) {
            Some(Type::Application(function, argument)) if function.raw < id.raw && argument.raw
                < id.raw => self.with_constructors(
                self.with_constructors(output, function),
                argument,
            ),
            Some(Type::KindApplication(function, argument)) if function.raw < id.raw && argument.raw
                < id.raw => self.with_constructors(
                self.with_constructors(output, function),
                argument,
            ),
            Some(Type::Forall(_, inner)) if inner.raw < id.raw => self.with_constructors(
                output,
                inner,
            ),
            Some(Type::Kinded(inner, _)) if inner.raw < id.raw => self.with_constructors(
                output,
                inner,
            ),
            Some(Type::Constrained(_, inner)) if inner.raw < id.raw => self.with_constructors(
                output,
                inner,
            ),
            Some(Type::Function(parameter, result)) if parameter.raw < id.raw && result.raw
                < id.raw => self.with_constructors(
                self.with_constructors(output + "Function"@, parameter),
                result,
            ),
            Some(Type::Constructor(file, item)) => match self.type_text(file, item) {
                Some(name) => output + name,
                None => output,
            },
            Some(Type::Row(_)) => output + "Row"@,
            _ => output,
        }
    }

    fn append_type_constructor_names(&self, output: &mut String, id: TypeId)
        ensures
            final(output)@ == self.with_constructors(old(output)@, id),
        decreases id.raw,
    {
        match self.lookup_type(id) {
            Some(Type::Application(function, argument)) => {
                if function.raw < id.raw && argument.raw < id.raw {
                    self.append_type_constructor_names(output, function);
                    self.append_type_constructor_names(output, argument);
                }
            },
            Some(Type::KindApplication(function, argument)) => {
                if function.raw < id.raw && argument.raw < id.raw {
                    self.append_type_constructor_names(output, function);
                    self.append_type_constructor_names(output, argument);
                }
            },
            Some(Type::Forall(_, inner)) => {
                if inner.raw < id.raw {
                    self.append_type_constructor_names(output, inner);
                }
            },
            Some(Type::Kinded(inner, _)) => {
                if inner.raw < id.raw {
                    self.append_type_constructor_names(output, inner);
                }
            },
            Some(Type::Constrained(_, inner)) => {
                if inner.raw < id.raw {
                    self.append_type_constructor_names(output, inner);
                }
            },
            Some(Type::Function(parameter, result)) => {
                if parameter.raw < id.raw && result.raw < id.raw {
                    output.append("Function");
                    self.append_type_constructor_names(output, parameter);
                    self.append_type_constructor_names(output, result);
                }
            },
            Some(Type::Constructor(file, item)) => {
                if let Some(name) = self.type_item_name(file, item) {
                    output.append(name.as_str());
                }
            },
            Some(Type::Row(_)) => {
                output.append("Row");
            },
            _ => {},
        }
    }

    /// The text with the names of the constructors in an instance's arguments behind
    /// it, from left to right.
    pub open spec fn with_arguments(self, output: Seq<char>, id: TypeId) -> Seq<char>
        decreases id.raw,
    {
        match self.type_of(id) {
            Some(Type::Forall(_, inner)) if inner.raw < id.raw => self.with_arguments(
                output,
                inner,
            ),
            Some(Type::Constrained(_, inner)) if inner.raw < id.raw => self.with_arguments(
                output,
                inner,
            ),
            Some(Type::Kinded(inner, _)) if inner.raw < id.raw => self.with_arguments(
                output,
                inner,
            ),
            Some(Type::Application(function, argument)) if function.raw < id.raw => {
                self.with_constructors(self.with_arguments(output, function), argument)
            },
            Some(Type::KindApplication(function, argument)) if function.raw < id.raw => {
                self.with_constructors(self.with_arguments(output, function), argument)
            },
            _ => output,
        }
    }

    fn append_argument_names(&self, output: &mut String, id: TypeId)
        ensures
            final(output)@ == self.with_arguments(old(output)@, id),
        decreases id.raw,
    {
        match self.lookup_type(id) {
            Some(Type::Forall(_, inner)) => {
                if inner.raw < id.raw {
                    self.append_argument_names(output, inner);
                }
            },
            Some(Type::Constrained(_, inner)) => {
                if inner.raw < id.raw {
                    self.append_argument_names(output, inner);
                }
            },
            Some(Type::Kinded(inner, _)) => {
                if inner.raw < id.raw {
                    self.append_argument_names(output, inner);
                }
            },
            Some(Type::Application(function, argument)) => {
                if function.raw < id.raw {
                    self.append_argument_names(output, function);
                    self.append_type_constructor_names(output, argument);
                }
            },
            Some(Type::KindApplication(function, argument)) => {
                if function.raw < id.raw {
                    self.append_argument_names(output, function);
                    self.append_type_constructor_names(output, argument);
                }
            },
            _ => {},
        }
    }

    /// The name of an instance, before it is made one that is not in use: that of
    /// the class and of the constructors in its arguments.
    pub open spec fn dictionary_base(
        self,
        type_id: TypeId,
        class: (FileId, TypeItemId),
    ) -> Seq<char> {
        match self.type_text(class.0, class.1) {
            Some(name) => match uncapitalized(name) {
                Some(base) => self.with_arguments(base, type_id),
                None => "dictionary"@,
            },
            None => "dictionary"@,
        }
    }

    pub fn dictionary_base_name(&self, type_id: TypeId, class: (FileId, TypeItemId)) -> (name:
        String)
        ensures
            name@ == self.dictionary_base(type_id, class),
    {
        let Some(class_name) = self.type_item_name(class.0, class.1) else {
            return "dictionary".to_owned();
        };
        let Some(mut base) = uncapitalize(class_name.as_str()) else {
            return "dictionary".to_owned();
        };
        self.append_argument_names(&mut base, type_id);
        base
    }
}

// Instances

/// The name of an instance, where it has one of its own.
pub open spec fn source_text(module: ModuleData, item: InstanceSourceItemId) -> Option<Seq<char>> {
    let items = module.indexed@.items;
    match item {
        InstanceSourceItemId::Instance(id) => if id.raw < items.instances.len() {
            items.instances[id.raw as int].name
        } else {
            None
        },
        InstanceSourceItemId::Derive(id) => if id.raw < items.derives.len() {
            items.derives[id.raw as int].name
        } else {
            None
        },
    }
}

pub fn source_name(module: &ModuleData, item: InstanceSourceItemId) -> (name: Option<String>)
    ensures
        optional_text(name) == source_text(*module, item),
{
    match item {
        InstanceSourceItemId::Instance(id) => {
            if id.raw as usize >= module.indexed.items.instances.len() {
                return None;
            }
            match &module.indexed.items.instances.get(id.raw).name {
                Some(name) => Some(name.clone()),
                None => None,
            }
        },
        InstanceSourceItemId::Derive(id) => {
            if id.raw as usize >= module.indexed.items.derives.len() {
                return None;
            }
            match &module.indexed.items.derives.get(id.raw).name {
                Some(name) => Some(name.clone()),
                None => None,
            }
        },
    }
}

/// The identity of an instance.
pub open spec fn source_origin(
    module: ModuleData,
    file: FileId,
    item: InstanceSourceItemId,
) -> Option<InstanceCandidateOrigin> {
    let items = module.indexed@.items;
    match item {
        InstanceSourceItemId::Instance(id) => if id.raw < items.instances.len() {
            Some(InstanceCandidateOrigin::Instance(file, items.instances[id.raw as int].id))
        } else {
            None
        },
        InstanceSourceItemId::Derive(id) => if id.raw < items.derives.len() {
            Some(InstanceCandidateOrigin::Derive(file, items.derives[id.raw as int].id))
        } else {
            None
        },
    }
}

fn find_origin(module: &ModuleData, file: FileId, item: InstanceSourceItemId) -> (origin: Option<
    InstanceCandidateOrigin,
>)
    ensures
        origin == source_origin(*module, file, item),
{
    match item {
        InstanceSourceItemId::Instance(id) => {
            if id.raw as usize >= module.indexed.items.instances.len() {
                return None;
            }
            let id = module.indexed.items.instances.get(id.raw).id;
            Some(InstanceCandidateOrigin::Instance(file, id))
        },
        InstanceSourceItemId::Derive(id) => {
            if id.raw as usize >= module.indexed.items.derives.len() {
                return None;
            }
            let id = module.indexed.items.derives.get(id.raw).id;
            Some(InstanceCandidateOrigin::Derive(file, id))
        },
    }
}

/// The declaration of an instance.
pub open spec fn source_declaration(module: ModuleData, item: InstanceSourceItemId) -> Option<
    TermDeclaration,
> {
    let tree = module.checked.tree@;
    let id = match item {
        InstanceSourceItemId::Instance(id) => entry(tree.instances, id.raw),
        InstanceSourceItemId::Derive(id) => entry(tree.derives, id.raw),
    };
    match id {
        Some(id) => tree.term_at(id),
        None => None,
    }
}

pub fn find_declaration<'b>(module: &'b ModuleData, item: InstanceSourceItemId) -> (declaration:
    Option<&'b TermDeclaration>)
    ensures
        found(declaration, source_declaration(*module, item)),
{
    let id = match item {
        InstanceSourceItemId::Instance(id) => module.checked.tree.lookup_instance(id),
        InstanceSourceItemId::Derive(id) => module.checked.tree.lookup_derive(id),
    };
    let id = id?;
    module.checked.tree.find_term(id)
}

/// The item of an instance.
pub open spec fn origin_item(module: ModuleData, origin: InstanceCandidateOrigin) -> Option<
    InstanceSourceItemId,
> {
    match origin {
        InstanceCandidateOrigin::Instance(_, id) => match first_value(
            module.indexed@.pairs.instance_to_item,
            id,
        ) {
            Some(item) => Some(InstanceSourceItemId::Instance(item)),
            None => None,
        },
        InstanceCandidateOrigin::Derive(_, id) => match first_value(
            module.indexed@.pairs.derive_to_item,
            id,
        ) {
            Some(item) => Some(InstanceSourceItemId::Derive(item)),
            None => None,
        },
    }
}

fn find_item(module: &ModuleData, origin: InstanceCandidateOrigin) -> (item: Option<
    InstanceSourceItemId,
>)
    requires
        module.indexed@.pairs.wf(),
    ensures
        item == origin_item(*module, origin),
{
    match origin {
        InstanceCandidateOrigin::Instance(_, id) => {
            let item = module.indexed.pairs.instance_to_item(id)?;
            Some(InstanceSourceItemId::Instance(item))
        },
        InstanceCandidateOrigin::Derive(_, id) => {
            let item = module.indexed.pairs.derive_to_item(id)?;
            Some(InstanceSourceItemId::Derive(item))
        },
    }
}

/// The name has been handed out, where there is one.
pub open spec fn reserved(used: Set<Seq<char>>, name: Option<Seq<char>>) -> Set<Seq<char>> {
    match name {
        Some(name) => used.insert(display_name(used, name)),
        None => used,
    }
}

/// The names of the first terms have been handed out.
pub open spec fn terms_reserved(used: Set<Seq<char>>, module: ModuleData, count: nat) -> Set<
    Seq<char>,
>
    decreases count,
{
    if count == 0 {
        used
    } else {
        reserved(
            terms_reserved(used, module, (count - 1) as nat),
            term_text_in(module, TermItemId { raw: (count - 1) as u32 }),
        )
    }
}

/// The names of the first instances have been handed out.
pub open spec fn sources_reserved(
    used: Set<Seq<char>>,
    module: ModuleData,
    sources: Seq<InstanceSourceItemId>,
) -> Set<Seq<char>>
    decreases sources.len(),
{
    if sources.len() == 0 {
        used
    } else {
        reserved(
            sources_reserved(used, module, sources.drop_last()),
            source_text(module, sources.last()),
        )
    }
}

/// The names that a module's instances must not have: those of its terms, and of
/// the instances that have one.
pub open spec fn module_names(module: ModuleData) -> Set<Seq<char>> {
    sources_reserved(
        terms_reserved(Set::empty(), module, module.indexed@.items.terms.len()),
        module,
        module.indexed@.items.instance_sources,
    )
}

fn reserve(names: &mut PrettyNames, name: Option<String>)
    ensures
        final(names)@ == reserved(old(names)@, optional_text(name)),
{
    if let Some(name) = name {
        names.allocate_display_name(name);
    }
}

/// The names that a module's instances must not have.
pub fn reserve_module_names(module: &ModuleData) -> (names: PrettyNames)
    requires
        module.indexed@.items.terms.len() <= u32::MAX,
    ensures
        names@ == module_names(*module),
{
    let mut names = PrettyNames::new();
    let terms: usize = module.indexed.items.terms.len();
    let mut index: usize = 0;
    while index < terms
        invariant
            index <= terms,
            terms == module.indexed@.items.terms.len(),
            terms <= u32::MAX,
            names@ == terms_reserved(Set::empty(), *module, index as nat),
        decreases terms - index,
    {
        let name = term_name_in(module, TermItemId { raw: index as u32 });
        reserve(&mut names, name);
        index += 1;
    }
    let ghost begun = names@;
    let sources = &module.indexed.items.instance_sources;
    let mut position: usize = 0;
    assert(sources@.take(0) =~= Seq::empty());
    while position < sources.len()
        invariant
            position <= sources.len(),
            names@ == sources_reserved(begun, *module, sources@.take(position as int)),
        decreases sources.len() - position,
    {
        assert(sources@.take(position + 1).drop_last() =~= sources@.take(position as int));
        let name = source_name(module, sources[position]);
        reserve(&mut names, name);
        position += 1;
    }
    assert(sources@.take(position as int) =~= sources@);
    names
}

/// The name of an instance with the names that have been found behind it.
pub struct Walked {
    pub names: InstanceTexts,
    pub progress: Progress,
    pub found: Option<Seq<char>>,
}

impl<'a> Printer<'a> {
    /// The name of an instance: its own, or one made of its declaration that is not
    /// in use.
    pub open spec fn candidate_name(
        self,
        module: ModuleData,
        item: InstanceSourceItemId,
        used: Set<Seq<char>>,
    ) -> (Set<Seq<char>>, Option<Seq<char>>) {
        match source_text(module, item) {
            Some(name) => (used, Some(name)),
            None => match source_declaration(module, item) {
                Some(declaration) => match declaration.kind {
                    TermDeclarationKind::Instance(instance) => {
                        let name = display_name(
                            used,
                            self.dictionary_base(declaration.type_id, instance.class),
                        );
                        (used.insert(name), Some(name))
                    },
                    _ => (used, None),
                },
                None => (used, None),
            },
        }
    }

    fn name_candidate(
        &self,
        module: &ModuleData,
        item: InstanceSourceItemId,
        names: &mut PrettyNames,
    ) -> (name: Option<String>)
        ensures
            (final(names)@, optional_text(name)) == self.candidate_name(
                *module,
                item,
                old(names)@,
            ),
    {
        if let Some(name) = source_name(module, item) {
            return Some(name);
        }
        let declaration = find_declaration(module, item)?;
        match &declaration.kind {
            TermDeclarationKind::Instance(instance) => {
                let base = self.dictionary_base_name(declaration.type_id, instance.class);
                Some(names.allocate_display_name(base))
            },
            _ => None,
        }
    }

    /// Names the instances of a module, from where that was left, until the one
    /// sought has been named.
    pub open spec fn walked(
        self,
        module: ModuleData,
        file: FileId,
        sought: InstanceSourceItemId,
        names: InstanceTexts,
        progress: Progress,
    ) -> Walked
        decreases module.indexed@.items.instance_sources.len() - progress.next,
    {
        let sources = module.indexed@.items.instance_sources;
        if progress.next >= sources.len() {
            Walked { names, progress, found: None }
        } else {
            let item = sources[progress.next as int];
            let (used, name) = self.candidate_name(module, item, progress.used);
            let next = Progress { used, next: progress.next + 1 };
            match (name, source_origin(module, file, item)) {
                (Some(name), Some(origin)) => {
                    let known = names.with(origin, name);
                    if item == sought {
                        Walked { names: known, progress: next, found: Some(name) }
                    } else {
                        self.walked(module, file, sought, known, next)
                    }
                },
                _ => self.walked(module, file, sought, names, next),
            }
        }
    }

    /// The name of an instance, with the names that are known then. Names are given
    /// to a module's instances in order, so that they do not depend on which one is
    /// asked for first.
    pub open spec fn dictionary_named(
        self,
        origin: InstanceCandidateOrigin,
        names: InstanceTexts,
    ) -> (InstanceTexts, Seq<char>) {
        let file = origin_file(origin);
        match (names.named(origin), self.module_of(file)) {
            (Some(name), _) => (names, name),
            (None, None) => (names, "<instance>"@),
            (None, Some(module)) => match origin_item(module, origin) {
                None => (names, "<instance>"@),
                Some(item) => match source_text(module, item) {
                    Some(name) => (names.with(origin, name), name),
                    None => {
                        let progress = if names.modules.contains_key(file.raw as u64) {
                            names.modules[file.raw as u64]
                        } else {
                            Progress { used: module_names(module), next: 0 }
                        };
                        let walked = self.walked(
                            module,
                            file,
                            item,
                            InstanceTexts {
                                modules: names.modules.remove(file.raw as u64),
                                ..names
                            },
                            progress,
                        );
                        (
                            walked.names.with_progress(file, walked.progress),
                            match walked.found {
                                Some(name) => name,
                                None => "<instance>"@,
                            },
                        )
                    },
                },
            },
        }
    }

    fn walk(
        &self,
        module: &ModuleData,
        file: FileId,
        sought: InstanceSourceItemId,
        names: &mut InstanceNames,
        progress: &mut ModuleInstanceNames,
    ) -> (found: Option<String>)
        ensures
            (Walked {
                names: final(names)@,
                progress: Progress {
                    used: final(progress).names@,
                    next: final(progress).next_source as nat,
                },
                found: optional_text(found),
            }) == self.walked(
                *module,
                file,
                sought,
                old(names)@,
                Progress { used: old(progress).names@, next: old(progress).next_source as nat },
            ),
    {
        let sources = &module.indexed.items.instance_sources;
        while progress.next_source < sources.len()
            invariant
                *sources == module.indexed.items.instance_sources,
                self.walked(
                    *module,
                    file,
                    sought,
                    old(names)@,
                    Progress { used: old(progress).names@, next: old(progress).next_source as nat },
                ) == self.walked(
                    *module,
                    file,
                    sought,
                    names@,
                    Progress { used: progress.names@, next: progress.next_source as nat },
                ),
            decreases sources.len() - progress.next_source,
        {
            let item = sources[progress.next_source];
            let name = self.name_candidate(module, item, &mut progress.names);
            let origin = find_origin(module, file, item);
            progress.next_source = progress.next_source + 1;
            match (name, origin) {
                (Some(name), Some(origin)) => {
                    names.insert(origin, name.clone());
                    if item == sought {
                        return Some(name);
                    }
                },
                _ => {},
            }
        }
        None
    }

    /// The name of an instance.
    pub fn instance_dictionary_name_with_cache(
        &self,
        origin: InstanceCandidateOrigin,
        names: &mut InstanceNames,
    ) -> (name: String)
        requires
            self.wf(),
        ensures
            (final(names)@, name@) == self.dictionary_named(origin, old(names)@),
    {
        if let Some(name) = names.get(origin) {
            return name;
        }
        let file = match origin {
            InstanceCandidateOrigin::Instance(file, _) => file,
            InstanceCandidateOrigin::Derive(file, _) => file,
        };
        let Some(module) = self.module_data(file) else {
            return "<instance>".to_owned();
        };
        let Some(item) = find_item(module, origin) else {
            return "<instance>".to_owned();
        };
        if let Some(name) = source_name(module, item) {
            names.insert(origin, name.clone());
            return name;
        }
        let known = names.take_progress(file);
        let mut progress = match known {
            Some(progress) => progress,
            None => ModuleInstanceNames {
                names: reserve_module_names(module),
                next_source: 0,
            },
        };
        let found = self.walk(module, file, item, names, &mut progress);
        names.put_progress(file, progress);
        match found {
            Some(name) => name,
            None => "<instance>".to_owned(),
        }
    }
}

// Superclasses

/// The members of a class.
pub open spec fn members_of(module: ModuleData, id: TypeItemId) -> Seq<TermItemId> {
    let types = module.indexed@.items.types;
    if id.raw < types.len() && is_sort(types[id.raw as int].kind, TypeSort::Class) {
        children_of(types[id.raw as int].kind)
    } else {
        Seq::empty()
    }
}

/// The names of a class's members have been handed out.
pub open spec fn members_reserved(module: ModuleData, members: Seq<TermItemId>) -> Set<Seq<char>>
    decreases members.len(),
{
    if members.len() == 0 {
        Set::empty()
    } else {
        reserved(
            members_reserved(module, members.drop_last()),
            term_text_in(module, members.last()),
        )
    }
}

/// The names that a class's members have.
pub fn reserve_members(module: &ModuleData, id: TypeItemId) -> (names: PrettyNames)
    ensures
        names@ == members_reserved(*module, members_of(*module, id)),
{
    let mut names = PrettyNames::new();
    if id.raw as usize >= module.indexed.items.types.len() {
        return names;
    }
    let members = module.indexed.class_members(id);
    let mut index: usize = 0;
    assert(members@.take(0) =~= Seq::empty());
    while index < members.len()
        invariant
            index <= members.len(),
            names@ == members_reserved(*module, members@.take(index as int)),
        decreases members.len() - index,
    {
        assert(members@.take(index + 1).drop_last() =~= members@.take(index as int));
        let name = term_name_in(module, members[index]);
        reserve(&mut names, name);
        index += 1;
    }
    assert(members@.take(index as int) =~= members@);
    names
}

/// The superclasses of a class.
pub open spec fn superclasses_of(module: ModuleData, id: TypeItemId) -> Seq<ClassSuperclass> {
    let tree = module.checked.tree@;
    match entry(tree.types, id.raw) {
        Some(declaration) => match tree.type_at(declaration) {
            Some(declaration) => match declaration.declaration {
                TypeDeclarationKind::Class(class) => class.superclasses@,
                _ => Seq::empty(),
            },
            None => Seq::empty(),
        },
        None => Seq::empty(),
    }
}

fn find_superclasses<'b>(module: &'b ModuleData, id: TypeItemId) -> (superclasses: Option<
    &'b Vec<ClassSuperclass>,
>)
    ensures
        match superclasses {
            Some(superclasses) => superclasses@ == superclasses_of(*module, id),
            None => superclasses_of(*module, id).len() == 0,
        },
{
    let declaration = module.checked.tree.lookup_type_declaration(id)?;
    let declaration = module.checked.tree.find_type(declaration)?;
    match &declaration.declaration {
        TypeDeclarationKind::Class(class) => Some(&class.superclasses),
        _ => None,
    }
}

impl<'a> Printer<'a> {
    /// The name of a superclass among others, which are named in order.
    pub open spec fn field_among(
        self,
        superclasses: Seq<ClassSuperclass>,
        used: Set<Seq<char>>,
        superclass: SuperclassId,
    ) -> Seq<char>
        decreases superclasses.len(),
    {
        if superclasses.len() == 0 {
            "<superclass>"@
        } else {
            let name = display_name(used, self.evidence_base(superclasses[0].constraint));
            if superclasses[0].id == superclass {
                name
            } else {
                self.field_among(superclasses.skip(1), used.insert(name), superclass)
            }
        }
    }

    /// The name of a superclass as a field of its class. Members of the class keep
    /// their names.
    pub open spec fn field_text(self, superclass: SuperclassId) -> Seq<char> {
        match self.module_of(superclass.file_id) {
            Some(module) => self.field_among(
                superclasses_of(module, superclass.type_id),
                members_reserved(module, members_of(module, superclass.type_id)),
                superclass,
            ),
            None => "<superclass>"@,
        }
    }

    pub fn superclass_field_name(&self, superclass: SuperclassId) -> (name: String)
        ensures
            name@ == self.field_text(superclass),
    {
        let Some(module) = self.module_data(superclass.file_id) else {
            return "<superclass>".to_owned();
        };
        let Some(superclasses) = find_superclasses(module, superclass.type_id) else {
            return "<superclass>".to_owned();
        };
        let mut names = reserve_members(module, superclass.type_id);
        let mut index: usize = 0;
        assert(superclasses@.skip(0) =~= superclasses@);
        while index < superclasses.len()
            invariant
                index <= superclasses.len(),
                self.field_text(superclass) == self.field_among(
                    superclasses@.skip(index as int),
                    names@,
                    superclass,
                ),
            decreases superclasses.len() - index,
        {
            assert(superclasses@.skip(index as int).skip(1) =~= superclasses@.skip(index + 1));
            let base = self.evidence_base_name(superclasses[index].constraint);
            let name = names.allocate_display_name(base);
            if superclasses[index].id == superclass {
                return name;
            }
            index += 1;
        }
        "<superclass>".to_owned()
    }
}

// Evidence

/// How tightly evidence binds.
#[derive(Clone, Copy, Debug, PartialEq, Eq, Structural)]
pub enum EvidencePrecedence {
    Application,
    Atom,
}

/// A field of evidence.
pub open spec fn projected(
    precedence: EvidencePrecedence,
    parent: Seq<char>,
    field: Seq<char>,
) -> Seq<char> {
    match precedence {
        EvidencePrecedence::Application => "("@ + parent + ")."@ + field,
        EvidencePrecedence::Atom => parent + "."@ + field,
    }
}

impl EvidencePrecedence {
    /// A field of evidence.
    pub fn projection(self, parent: &str, field: &str) -> (text: String)
        ensures
            text@ == projected(self, parent@, field@),
    {
        match self {
            EvidencePrecedence::Application => {
                let mut text = "(".to_owned();
                text.append(parent);
                text.append(").");
                text.append(field);
                text
            },
            EvidencePrecedence::Atom => {
                let mut text = parent.to_owned();
                text.append(".");
                text.append(field);
                text
            },
        }
    }
}

/// The text of evidence that the compiler makes up.
pub open spec fn synthesized_text(evidence: SynthesizedEvidence) -> Seq<char> {
    match evidence {
        SynthesizedEvidence::IsSymbol(symbol) => "isSymbol("@ + quoted(symbol@) + ")"@,
        SynthesizedEvidence::Reflectable(reflectable) => match reflectable {
            ReflectableEvidence::Integer(value) => "reflectable("@ + signed(value as int) + ")"@,
            ReflectableEvidence::String(value) => "reflectable("@ + quoted(value@) + ")"@,
            ReflectableEvidence::Boolean(value) => if value {
                "reflectable(true)"@
            } else {
                "reflectable(false)"@
            },
            ReflectableEvidence::Relation(relation) => match relation {
                ReflectableOrdering::Less => "reflectable(LT)"@,
                ReflectableOrdering::Equal => "reflectable(EQ)"@,
                ReflectableOrdering::Greater => "reflectable(GT)"@,
            },
        },
        SynthesizedEvidence::AbortIdentity(identity) => "abortIdentity("@ + quoted(identity@)
            + ")"@,
    }
}

fn enclosed(head: &str, inner: &str) -> (text: String)
    ensures
        text@ == head@ + inner@ + ")"@,
{
    let mut text = head.to_owned();
    text.append(inner);
    text.append(")");
    text
}

/// The text of evidence that the compiler makes up.
pub fn synthesized_evidence_name(evidence: &SynthesizedEvidence) -> (text: String)
    ensures
        text@ == synthesized_text(*evidence),
{
    match evidence {
        SynthesizedEvidence::IsSymbol(symbol) => enclosed(
            "isSymbol(",
            quote(symbol.as_str()).as_str(),
        ),
        SynthesizedEvidence::Reflectable(reflectable) => match reflectable {
            ReflectableEvidence::Integer(value) => enclosed(
                "reflectable(",
                signed_text(*value).as_str(),
            ),
            ReflectableEvidence::String(value) => enclosed(
                "reflectable(",
                quote(value.as_str()).as_str(),
            ),
            ReflectableEvidence::Boolean(value) => {
                if *value {
                    "reflectable(true)".to_owned()
                } else {
                    "reflectable(false)".to_owned()
                }
            },
            ReflectableEvidence::Relation(relation) => match relation {
                ReflectableOrdering::Less => "reflectable(LT)".to_owned(),
                ReflectableOrdering::Equal => "reflectable(EQ)".to_owned(),
                ReflectableOrdering::Greater => "reflectable(GT)".to_owned(),
            },
        },
        SynthesizedEvidence::AbortIdentity(identity) => enclosed(
            "abortIdentity(",
            quote(identity.as_str()).as_str(),
        ),
    }
}

/// Evidence as it is shown.
pub struct Shown {
    pub state: Printed,
    pub text: Seq<char>,
    pub precedence: EvidencePrecedence,
}

/// Evidence that is shown as a whole.
pub open spec fn atom(state: Printed, text: Seq<char>) -> Shown {
    Shown { state, text, precedence: EvidencePrecedence::Atom }
}

impl<'a> Printer<'a> {
    /// The name of evidence that is given. It stays the same within a declaration.
    pub open spec fn binder_named(self, state: Printed, binder: EvidenceBinderId) -> Named {
        let known = state.evidence;
        let key = binder.raw as u64;
        if known.display.contains_key(key) {
            Named { state, text: known.display[key] }
        } else {
            let constraints = self.own.checked.evidence@.binders;
            let base = if binder.raw < constraints.len() {
                self.evidence_base(constraints[binder.raw as int])
            } else {
                "evidenceDict"@
            };
            let name = display_name(known.used, base);
            Named {
                state: Printed {
                    evidence: EvidenceTexts {
                        display: known.display.insert(key, name),
                        used: known.used.insert(name),
                    },
                    ..state
                },
                text: name,
            }
        }
    }

    pub fn evidence_binder_name(&self, printing: &mut Printing, binder: EvidenceBinderId) -> (name:
        String)
        ensures
            (Named { state: final(printing)@, text: name@ }) == self.binder_named(
                old(printing)@,
                binder,
            ),
    {
        if let Some(name) = printing.evidence.get(binder) {
            return name;
        }
        let constraints = &self.own.checked.evidence.binders;
        let base = if (binder.raw as usize) < constraints.len() {
            self.evidence_base_name(constraints[binder.raw as usize])
        } else {
            "evidenceDict".to_owned()
        };
        printing.evidence.allocate(binder, base)
    }

    /// Evidence as it is shown. `depth` bounds how deep evidence is looked into.
    pub open spec fn evidence_shown(
        self,
        state: Printed,
        evidence: Evidence,
        depth: nat,
    ) -> Shown
        decreases depth, 1nat, 0nat,
    {
        match evidence {
            Evidence::Variable(variable) => self.variable_shown(state, variable, depth),
            Evidence::Given(binder) => {
                let named = self.binder_named(state, binder);
                atom(named.state, named.text)
            },
            Evidence::Instance { origin, subgoals } => {
                let (dictionaries, name) = self.dictionary_named(origin, state.dictionaries);
                let shown = self.subgoals_shown(
                    Named { state: Printed { dictionaries, ..state }, text: name },
                    subgoals@,
                    subgoals@.len(),
                    depth,
                );
                Shown {
                    state: shown.state,
                    text: shown.text,
                    precedence: if subgoals@.len() == 0 {
                        EvidencePrecedence::Atom
                    } else {
                        EvidencePrecedence::Application
                    },
                }
            },
            Evidence::Superclass { parent, superclass } => {
                let shown = self.proof_shown(state, parent, depth);
                atom(
                    shown.state,
                    projected(shown.precedence, shown.text, self.field_text(superclass)),
                )
            },
            Evidence::Trivial => atom(state, "trivial"@),
            Evidence::Synthesized(synthesized) => atom(state, synthesized_text(synthesized)),
        }
    }

    /// A proof as it is shown.
    pub open spec fn proof_shown(self, state: Printed, proof: EvidenceId, depth: nat) -> Shown
        decreases depth, 0nat, 0nat,
    {
        let proofs = self.own.checked.evidence@.proofs;
        if depth > 0 && proof.raw < proofs.len() {
            self.evidence_shown(state, proofs[proof.raw as int], (depth - 1) as nat)
        } else {
            atom(state, "error"@)
        }
    }

    /// Evidence that was asked for, as it is shown.
    pub open spec fn variable_shown(self, state: Printed, variable: EvidenceVarId, depth: nat) -> Shown
        decreases depth, 0nat, 1nat,
    {
        let variables = self.own.checked.evidence@.variables;
        if variable.raw < variables.len() {
            match variables[variable.raw as int] {
                EvidenceState::Solved(proof) => self.proof_shown(state, proof, depth),
                EvidenceState::Unsolved => atom(state, "unsolved"@),
                EvidenceState::Error => atom(state, "error"@),
            }
        } else {
            atom(state, "error"@)
        }
    }

    /// An instance with the evidence that it needs.
    pub open spec fn subgoals_shown(
        self,
        instance: Named,
        subgoals: Seq<EvidenceVarId>,
        count: nat,
        depth: nat,
    ) -> Named
        decreases depth, 0nat, count + 2,
    {
        if count == 0 || count > subgoals.len() {
            instance
        } else {
            let before = self.subgoals_shown(instance, subgoals, (count - 1) as nat, depth);
            let shown = self.variable_shown(before.state, subgoals[count - 1], depth);
            Named { state: shown.state, text: before.text + " {"@ + shown.text + "}"@ }
        }
    }

    fn show_evidence(&self, printing: &mut Printing, evidence: &Evidence, depth: usize) -> (shown: (
        String,
        EvidencePrecedence,
    ))
        requires
            self.wf(),
        ensures
            (Shown { state: final(printing)@, text: shown.0@, precedence: shown.1 })
                == self.evidence_shown(old(printing)@, *evidence, depth as nat),
        decreases depth, 1nat, 0nat,
    {
        match evidence {
            Evidence::Variable(variable) => self.show_variable(printing, *variable, depth),
            Evidence::Given(binder) => (
                self.evidence_binder_name(printing, *binder),
                EvidencePrecedence::Atom,
            ),
            Evidence::Instance { origin, subgoals } => {
                let mut text = self.instance_dictionary_name_with_cache(
                    *origin,
                    &mut printing.dictionaries,
                );
                self.show_subgoals(printing, &mut text, subgoals, depth);
                let precedence = if subgoals.len() == 0 {
                    EvidencePrecedence::Atom
                } else {
                    EvidencePrecedence::Application
                };
                (text, precedence)
            },
            Evidence::Superclass { parent, superclass } => {
                let (text, precedence) = self.show_proof(printing, *parent, depth);
                let field = self.superclass_field_name(*superclass);
                (precedence.projection(text.as_str(), field.as_str()), EvidencePrecedence::Atom)
            },
            Evidence::Trivial => ("trivial".to_owned(), EvidencePrecedence::Atom),
            Evidence::Synthesized(synthesized) => (
                synthesized_evidence_name(synthesized),
                EvidencePrecedence::Atom,
            ),
        }
    }

    fn show_proof(&self, printing: &mut Printing, proof: EvidenceId, depth: usize) -> (shown: (
        String,
        EvidencePrecedence,
    ))
        requires
            self.wf(),
        ensures
            (Shown { state: final(printing)@, text: shown.0@, precedence: shown.1 })
                == self.proof_shown(old(printing)@, proof, depth as nat),
        decreases depth, 0nat, 0nat,
    {
        let proofs = &self.own.checked.evidence.proofs;
        if depth > 0 && (proof.raw as usize) < proofs.len() {
            self.show_evidence(printing, &proofs[proof.raw as usize], depth - 1)
        } else {
            ("error".to_owned(), EvidencePrecedence::Atom)
        }
    }

    fn show_variable(&self, printing: &mut Printing, variable: EvidenceVarId, depth: usize) -> (shown:
        (String, EvidencePrecedence))
        requires
            self.wf(),
        ensures
            (Shown { state: final(printing)@, text: shown.0@, precedence: shown.1 })
                == self.variable_shown(old(printing)@, variable, depth as nat),
        decreases depth, 0nat, 1nat,
    {
        let variables = &self.own.checked.evidence.variables;
        if (variable.raw as usize) < variables.len() {
            match variables[variable.raw as usize] {
                EvidenceState::Solved(proof) => self.show_proof(printing, proof, depth),
                EvidenceState::Unsolved => ("unsolved".to_owned(), EvidencePrecedence::Atom),
                EvidenceState::Error => ("error".to_owned(), EvidencePrecedence::Atom),
            }
        } else {
            ("error".to_owned(), EvidencePrecedence::Atom)
        }
    }

    fn show_subgoals(
        &self,
        printing: &mut Printing,
        text: &mut String,
        subgoals: &Vec<EvidenceVarId>,
        depth: usize,
    )
        requires
            self.wf(),
        ensures
            (Named { state: final(printing)@, text: final(text)@ }) == self.subgoals_shown(
                Named { state: old(printing)@, text: old(text)@ },
                subgoals@,
                subgoals@.len(),
                depth as nat,
            ),
        decreases depth, 0nat, subgoals@.len() + 2,
    {
        let mut index: usize = 0;
        while index < subgoals.len()
            invariant
                self.wf(),
                index <= subgoals.len(),
                (Named { state: printing@, text: text@ }) == self.subgoals_shown(
                    Named { state: old(printing)@, text: old(text)@ },
                    subgoals@,
                    index as nat,
                    depth as nat,
                ),
            decreases subgoals.len() - index,
        {
            let (shown, _) = self.show_variable(printing, subgoals[index], depth);
            text.append(" {");
            text.append(shown.as_str());
            text.append("}");
            index += 1;
        }
    }

    /// How deep evidence is looked into: as deep as it can be without a circle.
    pub open spec fn evidence_depth(self) -> nat {
        limit(
            self.own.checked.evidence@.variables.len(),
            self.own.checked.evidence@.proofs.len(),
        )
    }

    /// The name of evidence.
    pub open spec fn evidence_named(self, state: Printed, evidence: Evidence) -> Named {
        let shown = self.evidence_shown(state, evidence, self.evidence_depth());
        Named { state: shown.state, text: shown.text }
    }

    pub fn evidence_name(&self, printing: &mut Printing, evidence: &Evidence) -> (name: String)
        requires
            self.wf(),
        ensures
            (Named { state: final(printing)@, text: name@ }) == self.evidence_named(
                old(printing)@,
                *evidence,
            ),
    {
        let depth: usize = limited(
            self.own.checked.evidence.variables.len(),
            self.own.checked.evidence.proofs.len(),
        );
        let (name, _) = self.show_evidence(printing, evidence, depth);
        name
    }

    pub fn evidence_variable_name(&self, printing: &mut Printing, variable: EvidenceVarId) -> (name:
        String)
        requires
            self.wf(),
        ensures
            (Named { state: final(printing)@, text: name@ }) == self.evidence_named(
                old(printing)@,
                Evidence::Variable(variable),
            ),
    {
        self.evidence_name(printing, &Evidence::Variable(variable))
    }
}

} // verus!
