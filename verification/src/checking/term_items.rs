//! Instances, values and operators.

use super::derive::traversable::ApplicationArgument;
use super::error::{ErrorCrumb, ErrorKind};
use super::evidence::{EvidenceBinderId, EvidenceModel, EvidenceState, EvidenceVarId, SuperclassId};
use super::groups::{
    lemma_begun_describes, lemma_describes_extends, lemma_with_describes, Preparation,
};
use super::lowering::SourceTypeId;
use super::state::{
    all_wanted, last_text, lemma_none_more, lemma_one_more_wanted, named, next_name, reported,
    unification_added, with_tree, CanonicalConstraintId, CheckState, CheckedInstance,
    CheckedModule, RigidRenaming, RigidReplacement, UnificationEntry, UnificationState,
};
use super::terms::equations::{CheckedValueEquations, ElaboratedEquation, EquationTypeOrigin};
use super::terms::form_do::{insert_error_at, is_variable, reported_at};
use super::tree::{
    DeclarationAbstraction, Equation, EquationSource, EquationSourceId, InstanceMember,
    InstanceSuperclass, TermDeclaration, TermDeclarationId, TermDeclarationKind, Tree,
    ValueDeclaration,
};
use super::types::{
    extends, lemma_extends_reflexive, lemma_extends_transitive, FileId, ForallBinderId, Name, Prim,
    SmolStrId, Type, TypeId, TypeStore, Types,
};
use crate::collections::IdMap;
use crate::indexing::items::{InstanceSourceItemId, TermItemId, TypeItemId};
use crate::indexing::source::{AstId, InstanceId};
use vstd::prelude::*;

verus! {

// Instance declarations

/// The way to an instance.
pub fn instance_crumb(item: InstanceSourceItemId) -> (crumb: ErrorCrumb)
    ensures
        crumb == (match item {
            InstanceSourceItemId::Instance(id) => ErrorCrumb::InstanceDeclaration(id),
            InstanceSourceItemId::Derive(id) => ErrorCrumb::DeriveDeclaration(id),
        }),
{
    match item {
        InstanceSourceItemId::Instance(id) => ErrorCrumb::InstanceDeclaration(id),
        InstanceSourceItemId::Derive(id) => ErrorCrumb::DeriveDeclaration(id),
    }
}

/// Reports an instance with another number of arguments than its class has.
pub fn check_instance_head(
    state: &mut CheckState,
    class_file: FileId,
    class_item: TypeItemId,
    expected: usize,
    actual: usize,
)
    ensures
        expected == actual ==> *final(state) == *old(state),
        expected != actual ==> reported(
            *old(state),
            *final(state),
            ErrorKind::InstanceHeadMismatch { class_file, class_item, expected, actual },
        ),
{
    if expected != actual {
        state.insert_error(
            ErrorKind::InstanceHeadMismatch { class_file, class_item, expected, actual },
        );
    }
}

/// The type of an instance: the applied class under the instance's constraints, the
/// first one outermost.
pub fn canonical_instance(types: &mut Types, class_type: TypeId, constraints: &Vec<TypeId>) -> (
canonical: TypeId)
    requires
        old(types)@.wf(),
    ensures
        final(types)@.wf(),
        extends(old(types)@, final(types)@),
        (final(types)@, canonical) == old(types)@.with_constraints(constraints@, class_type),
        final(types)@.is_constrained(canonical, constraints@, class_type),
{
    types.intern_constraints(constraints, class_type)
}

/// Records an instance.
pub fn record_instance(
    state: &mut CheckState,
    instance_id: InstanceId,
    resolution: (FileId, TypeItemId),
    signature: TypeId,
    matchable: TypeId,
)
    ensures
        final(state).checked.instances@ == old(state).checked.instances@.insert(
            instance_id.raw as u64,
            CheckedInstance { resolution, signature, matchable },
        ),
        *final(state) == (CheckState {
            checked: CheckedModule {
                instances: final(state).checked.instances,
                ..old(state).checked
            },
            ..*old(state)
        }),
{
    state.checked.instances.insert(
        instance_id.raw as u64,
        CheckedInstance { resolution, signature, matchable },
    );
}

/// The texts of names, with the texts of a class's kind variables added for the
/// type variables that an instance has in their place. A name keeps the text that
/// it has.
pub open spec fn inherited_names(
    store: TypeStore,
    texts: Seq<Option<SmolStrId>>,
    arguments: Seq<ApplicationArgument>,
    count: nat,
    names: Seq<(Name, SmolStrId)>,
) -> Seq<(Name, SmolStrId)>
    decreases count,
{
    if count == 0 || count > texts.len() {
        names
    } else {
        let before = inherited_names(store, texts, arguments, (count - 1) as nat, names);
        let last = count - 1;
        match (texts[last], arguments[last]) {
            (Some(text), ApplicationArgument::Kind(argument)) => match store.type_at(argument) {
                Type::Rigid(name, _, _) => if last_text(before, name) is None {
                    before.push((name, text))
                } else {
                    before
                },
                _ => before,
            },
            _ => before,
        }
    }
}

/// How many of the first arguments are kinds.
pub open spec fn leading_kinds(arguments: Seq<ApplicationArgument>, limit: nat) -> nat
    decreases limit,
{
    if limit == 0 || arguments.len() == 0 || !(arguments[0] is Kind) {
        0
    } else {
        1 + leading_kinds(arguments.skip(1), (limit - 1) as nat)
    }
}

/// Gives the kind variables of an instance the names that they have in its class.
/// `texts` are the names of the class's kind variables.
pub fn inherit_instance_kind_names(
    state: &mut CheckState,
    types: &Types,
    texts: &Vec<Option<SmolStrId>>,
    arguments: &Vec<ApplicationArgument>,
)
    requires
        forall|i: int|
            0 <= i < arguments@.len() ==> (#[trigger] arguments@[i] matches
                ApplicationArgument::Kind(argument) ==> types@.has_type(argument)),
    ensures
        final(state).checked.names@ == inherited_names(
            types@,
            texts@,
            arguments@,
            leading_kinds(arguments@, texts@.len()),
            old(state).checked.names@,
        ),
        *final(state) == (CheckState {
            checked: CheckedModule { names: final(state).checked.names, ..old(state).checked },
            ..*old(state)
        }),
{
    let mut index: usize = 0;
    assert(arguments@.skip(0) =~= arguments@);
    while index < texts.len() && index < arguments.len()
        invariant
            index <= texts.len(),
            index <= arguments.len(),
            forall|i: int|
                0 <= i < arguments@.len() ==> (#[trigger] arguments@[i] matches
                    ApplicationArgument::Kind(argument) ==> types@.has_type(argument)),
            leading_kinds(arguments@, texts@.len()) == index + leading_kinds(
                arguments@.skip(index as int),
                (texts@.len() - index) as nat,
            ),
            state.checked.names@ == inherited_names(
                types@,
                texts@,
                arguments@,
                index as nat,
                old(state).checked.names@,
            ),
            *state == (CheckState {
                checked: CheckedModule { names: state.checked.names, ..old(state).checked },
                ..*old(state)
            }),
        ensures
            leading_kinds(arguments@, texts@.len()) == index,
        decreases texts.len() - index,
    {
        assert(arguments@.skip(index as int).skip(1) =~= arguments@.skip(index + 1));
        assert(arguments@.skip(index as int)[0] == arguments@[index as int]);
        let ApplicationArgument::Kind(argument) = arguments[index] else {
            break;
        };
        if let Some(text) = texts[index] {
            if let Type::Rigid(name, _, _) = types.lookup_type(argument) {
                if state.checked.names.lookup(name).is_none() {
                    state.checked.names.insert(name, text);
                }
            }
        }
        index += 1;
    }
}

/// A new type variable in place of one of an instance's. Its kind has been renamed.
pub fn freshen_instance_rigid(
    state: &mut CheckState,
    types: &mut Types,
    renaming: &mut RigidRenaming,
    name: Name,
    kind: TypeId,
    text: Option<SmolStrId>,
) -> (rigid: TypeId)
    requires
        old(state).names.count() < u32::MAX,
        old(types)@.wf(),
    ensures
        final(types)@.wf(),
        extends(old(types)@, final(types)@),
        final(types)@ == old(types)@.with_type(
            Type::Rigid(next_name(*old(state)), old(state).depth, kind),
        ),
        named(*old(state), *final(state), next_name(*old(state)), text),
        final(types)@.denotes(rigid, Type::Rigid(next_name(*old(state)), old(state).depth, kind)),
        final(renaming).replacements@ == old(renaming).replacements@.push(
            RigidReplacement { from: name, to: next_name(*old(state)), depth: old(state).depth },
        ),
{
    let depth = state.depth;
    let rigid = state.fresh_rigid_named(types, kind, text);
    if let Type::Rigid(to, _, _) = types.lookup_type(rigid) {
        renaming.replacements.push(RigidReplacement { from: name, to, depth });
    }
    rigid
}

/// A superclass constraint of a class, with the instance's arguments put in.
#[derive(Clone, Copy, Debug, PartialEq, Eq, Structural)]
pub struct SuperclassConstraint {
    pub source_id: SourceTypeId,
    pub constraint: TypeId,
}

/// The constraints of superclasses.
pub open spec fn superclass_constraints(superclasses: Seq<SuperclassConstraint>) -> Seq<TypeId> {
    Seq::new(superclasses.len(), |i: int| superclasses[i].constraint)
}

/// Evidence for the superclasses of an instance has been asked for, in order.
pub open spec fn superclasses_emitted(
    before: CheckState,
    after: CheckState,
    class: (FileId, TypeItemId),
    superclasses: Seq<SuperclassConstraint>,
    checked: Seq<InstanceSuperclass>,
) -> bool {
    &&& checked.len() == superclasses.len()
    &&& forall|i: int|
        0 <= i < checked.len() ==> #[trigger] checked[i] == (InstanceSuperclass {
            id: SuperclassId {
                file_id: class.0,
                type_id: class.1,
                source_id: superclasses[i].source_id,
            },
            constraint: superclasses[i].constraint,
            evidence: EvidenceVarId {
                raw: (before.checked.evidence@.variables.len() + i) as u32,
            },
        })
    &&& all_wanted(before, after, superclass_constraints(superclasses))
}

/// Asks for the evidence of an instance's superclasses, in order.
pub fn emit_instance_superclass_constraints(
    state: &mut CheckState,
    class_file: FileId,
    class_id: TypeItemId,
    superclasses: &Vec<SuperclassConstraint>,
) -> (checked: Vec<InstanceSuperclass>)
    requires
        old(state).implications@.wf(),
        old(state).checked.evidence@.variables.len() + superclasses@.len() <= u32::MAX,
    ensures
        superclasses_emitted(
            *old(state),
            *final(state),
            (class_file, class_id),
            superclasses@,
            checked@,
        ),
{
    let mut checked: Vec<InstanceSuperclass> = Vec::new();
    let ghost first = state.checked.evidence@.variables.len();
    let ghost all = superclass_constraints(superclasses@);
    let mut index: usize = 0;
    proof {
        assert(all.take(0) =~= Seq::empty());
        lemma_none_more(*state);
    }
    while index < superclasses.len()
        invariant
            index <= superclasses.len(),
            checked@.len() == index,
            all == superclass_constraints(superclasses@),
            first == old(state).checked.evidence@.variables.len(),
            first + superclasses@.len() <= u32::MAX,
            old(state).implications@.wf(),
            forall|i: int|
                0 <= i < checked@.len() ==> #[trigger] checked@[i] == (InstanceSuperclass {
                    id: SuperclassId {
                        file_id: class_file,
                        type_id: class_id,
                        source_id: superclasses@[i].source_id,
                    },
                    constraint: superclasses@[i].constraint,
                    evidence: EvidenceVarId { raw: (first + i) as u32 },
                }),
            all_wanted(*old(state), *state, all.take(index as int)),
        decreases superclasses.len() - index,
    {
        let ghost middle = *state;
        let superclass = superclasses[index];
        let evidence = state.push_wanted(superclass.constraint);
        proof {
            let constraints = all.take(index as int);
            lemma_one_more_wanted(
                *old(state),
                middle,
                *state,
                constraints,
                superclass.constraint,
                evidence,
            );
            assert(all.take(index + 1) =~= constraints.push(superclass.constraint));
        }
        let id = SuperclassId {
            file_id: class_file,
            type_id: class_id,
            source_id: superclass.source_id,
        };
        checked.push(InstanceSuperclass { id, constraint: superclass.constraint, evidence });
        index += 1;
    }
    assert(all.take(index as int) =~= all);
    checked
}

// Instance members

/// A member of a class with its type in the class.
#[derive(Clone, Copy, Debug, PartialEq, Eq, Structural)]
pub struct ClassMemberType {
    pub item_id: TermItemId,
    pub field_type: TypeId,
}

/// A class as its instances see it.
#[derive(Debug)]
pub struct ClassInfo {
    pub file: FileId,
    pub kind_binders: Vec<Name>,
    pub type_parameters: Vec<Name>,
    pub members: Vec<ClassMemberType>,
}

/// The type of the member, the first one where there are several.
pub open spec fn member_type(members: Seq<ClassMemberType>, item_id: TermItemId) -> Option<TypeId>
    decreases members.len(),
{
    if members.len() == 0 {
        None
    } else if members[0].item_id == item_id {
        Some(members[0].field_type)
    } else {
        member_type(members.skip(1), item_id)
    }
}

/// The arguments are kinds for the kind variables, then types for the parameters,
/// and nothing else.
pub open spec fn arguments_fit(class: ClassInfo, arguments: Seq<ApplicationArgument>) -> bool {
    let kinds = class.kind_binders@.len();
    &&& arguments.len() == kinds + class.type_parameters@.len()
    &&& forall|i: int| 0 <= i < kinds ==> #[trigger] arguments[i] is Kind
    &&& forall|i: int| kinds <= i < arguments.len() ==> #[trigger] arguments[i] is Type
}

/// The type of an argument.
pub open spec fn argument_type(argument: ApplicationArgument) -> TypeId {
    match argument {
        ApplicationArgument::Kind(type_id) => type_id,
        ApplicationArgument::Type(type_id) => type_id,
    }
}

/// What stands for each variable of a class.
pub open spec fn class_bindings(class: ClassInfo, arguments: Seq<ApplicationArgument>) -> Seq<
    (Name, TypeId),
> {
    let names = class.kind_binders@ + class.type_parameters@;
    Seq::new(names.len(), |i: int| (names[i], argument_type(arguments[i])))
}

/// The type of a class's member with what has to be put in for the variables of the
/// class; none where the class has no such member or other arguments.
pub fn instantiate_class_member_type(
    class: &ClassInfo,
    member: (FileId, TermItemId),
    arguments: &Vec<ApplicationArgument>,
) -> (instantiated: Option<(TypeId, Vec<(Name, TypeId)>)>)
    ensures
        ({
            let found = member_type(class.members@, member.1);
            match instantiated {
                Some((field_type, bindings)) => {
                    &&& member.0 == class.file
                    &&& found == Some(field_type)
                    &&& arguments_fit(*class, arguments@)
                    &&& bindings@ == class_bindings(*class, arguments@)
                },
                None => member.0 != class.file || found is None || !arguments_fit(
                    *class,
                    arguments@,
                ),
            }
        }),
{
    if member.0 != class.file {
        return None;
    }
    let field_type = find_member(class, member.1)?;
    let kinds: usize = class.kind_binders.len();
    let parameters: usize = class.type_parameters.len();
    if arguments.len() < kinds || arguments.len() - kinds != parameters {
        return None;
    }
    let mut bindings: Vec<(Name, TypeId)> = Vec::new();
    let mut index: usize = 0;
    let ghost names = class.kind_binders@ + class.type_parameters@;
    while index < arguments.len()
        invariant
            index <= arguments.len(),
            kinds == class.kind_binders@.len(),
            arguments@.len() == kinds + class.type_parameters@.len(),
            names == class.kind_binders@ + class.type_parameters@,
            bindings@.len() == index,
            forall|i: int|
                0 <= i < index ==> bindings@[i] == (names[i], argument_type(arguments@[i])),
            forall|i: int| 0 <= i < index && i < kinds ==> #[trigger] arguments@[i] is Kind,
            forall|i: int| kinds <= i < index ==> #[trigger] arguments@[i] is Type,
        decreases arguments.len() - index,
    {
        match arguments[index] {
            ApplicationArgument::Kind(argument) => {
                if index >= kinds {
                    assert(!(arguments@[index as int] is Type));
                    return None;
                }
                bindings.push((class.kind_binders[index], argument));
            },
            ApplicationArgument::Type(argument) => {
                if index < kinds {
                    assert(!(arguments@[index as int] is Kind));
                    return None;
                }
                bindings.push((class.type_parameters[index - kinds], argument));
            },
        }
        index += 1;
    }
    assert(bindings@ =~= class_bindings(*class, arguments@));
    Some((field_type, bindings))
}

fn find_member(class: &ClassInfo, item_id: TermItemId) -> (field_type: Option<TypeId>)
    ensures
        field_type == member_type(class.members@, item_id),
{
    let mut index: usize = 0;
    assert(class.members@.skip(0) =~= class.members@);
    while index < class.members.len()
        invariant
            index <= class.members.len(),
            member_type(class.members@, item_id) == member_type(
                class.members@.skip(index as int),
                item_id,
            ),
        decreases class.members.len() - index,
    {
        assert(class.members@.skip(index as int).skip(1) =~= class.members@.skip(index + 1));
        if class.members[index].item_id == item_id {
            return Some(class.members[index].field_type);
        }
        index += 1;
    }
    None
}

/// What the equations of a member are checked against.
#[allow(inconsistent_fields)]
#[derive(Clone, Copy, Debug, PartialEq, Eq, Structural)]
pub enum MemberRequest {
    /// A signature in the instance, which has to be checked. It has to be a subtype
    /// of the class's type, where that is known.
    Signature { signature: SourceTypeId, class_type: Option<TypeId> },
    /// The type that the class gives to the member.
    Class { expected: TypeId },
    /// There is nothing to check against.
    Nothing,
}

/// What the equations of a member are checked against.
pub fn check_instance_member_group(
    signature: Option<SourceTypeId>,
    class_member_type: Option<TypeId>,
) -> (request: MemberRequest)
    ensures
        request == (match (signature, class_member_type) {
            (Some(signature), class_type) => MemberRequest::Signature { signature, class_type },
            (None, Some(expected)) => MemberRequest::Class { expected },
            (None, None) => MemberRequest::Nothing,
        }),
{
    match (signature, class_member_type) {
        (Some(signature), class_type) => MemberRequest::Signature { signature, class_type },
        (None, Some(expected)) => MemberRequest::Class { expected },
        (None, None) => MemberRequest::Nothing,
    }
}

/// Where the type of a member comes from.
pub fn member_type_origin(signature: Option<SourceTypeId>) -> (origin: EquationTypeOrigin)
    ensures
        origin == (match signature {
            Some(signature) => EquationTypeOrigin::Explicit(signature),
            None => EquationTypeOrigin::Implicit,
        }),
{
    match signature {
        Some(signature) => EquationTypeOrigin::Explicit(signature),
        None => EquationTypeOrigin::Implicit,
    }
}

/// Reports a signature in an instance that is no subtype of the class's type.
pub fn check_member_signature(state: &mut CheckState, unified: bool, expected: TypeId, actual: TypeId)
    ensures
        unified ==> *final(state) == *old(state),
        !unified ==> reported(
            *old(state),
            *final(state),
            ErrorKind::InstanceMemberTypeMismatch { expected, actual },
        ),
{
    if !unified {
        state.insert_error(ErrorKind::InstanceMemberTypeMismatch { expected, actual });
    }
}

/// The equations are those elaborated, each with its source.
pub open spec fn are_trees(elaborated: Seq<ElaboratedEquation>, equations: Seq<Equation>) -> bool {
    &&& equations.len() == elaborated.len()
    &&& forall|i: int|
        0 <= i < equations.len() ==> elaborated[i].source is Some && #[trigger] equations[i] == (
        Equation {
            source: EquationSource::Item(elaborated[i].source->0),
            binders: elaborated[i].binders,
            guarded_expression: elaborated[i].guarded,
        })
}

/// The equations with their sources; none where a source is not known.
pub fn equation_trees(elaborated: Vec<ElaboratedEquation>) -> (equations: Option<Vec<Equation>>)
    ensures
        match equations {
            Some(equations) => are_trees(elaborated@, equations@),
            None => exists|i: int| 0 <= i < elaborated@.len() && #[trigger] elaborated@[i].source is None,
        },
{
    let mut remaining = elaborated;
    let mut equations: Vec<Equation> = Vec::new();
    loop
        invariant
            remaining@ == elaborated@.take(remaining@.len() as int),
            remaining@.len() + equations@.len() == elaborated@.len(),
            are_trees(elaborated@.skip(remaining@.len() as int), equations@),
        ensures
            remaining@.len() == 0,
        decreases remaining@.len(),
    {
        let ghost count = remaining@.len();
        let Some(last) = remaining.pop() else {
            break;
        };
        assert(elaborated@[count - 1] == last);
        assert(remaining@ =~= elaborated@.take(count - 1));
        let tree = last.into_tree();
        match tree {
            Some(tree) => {
                let ghost before = equations@;
                equations.insert(0, tree);
                proof {
                    let rest = elaborated@.skip(count as int);
                    let more = elaborated@.skip(count - 1);
                    assert forall|i: int| 0 <= i < equations@.len() implies more[i].source is Some
                        && #[trigger] equations@[i] == (Equation {
                        source: EquationSource::Item(more[i].source->0),
                        binders: more[i].binders,
                        guarded_expression: more[i].guarded,
                    }) by {
                        if i > 0 {
                            assert(equations@[i] == before[i - 1]);
                            assert(more[i] == rest[i - 1]);
                        }
                    }
                }
            },
            None => {
                assert(elaborated@[count - 1].source is None);
                return None;
            },
        }
    }
    assert(elaborated@.skip(0) =~= elaborated@);
    Some(equations)
}

/// The equations are all of the source's, in order.
pub open spec fn is_complete(
    sources: Seq<Option<EquationSourceId>>,
    elaborated: Seq<ElaboratedEquation>,
) -> bool {
    &&& sources.len() > 0
    &&& sources.len() == elaborated.len()
    &&& forall|i: int|
        0 <= i < sources.len() ==> #[trigger] sources[i] is Some && elaborated[i].source
            == sources[i]
}

fn covers_sources(sources: &Vec<Option<EquationSourceId>>, equations: &Vec<Equation>) -> (complete:
    bool)
    ensures
        complete == (sources@.len() > 0 && sources@.len() == equations@.len() && forall|i: int|
            0 <= i < sources@.len() ==> #[trigger] sources@[i] is Some && equations@[i].source
                == EquationSource::Item(sources@[i]->0)),
{
    if sources.len() == 0 || sources.len() != equations.len() {
        return false;
    }
    let mut index: usize = 0;
    while index < sources.len()
        invariant
            index <= sources.len() == equations.len(),
            forall|i: int|
                0 <= i < index ==> #[trigger] sources@[i] is Some && equations@[i].source
                    == EquationSource::Item(sources@[i]->0),
        decreases sources.len() - index,
    {
        match sources[index] {
            Some(source) => {
                let matches_source = match equations[index].source {
                    EquationSource::Item(own) => own == source,
                    _ => false,
                };
                if !matches_source {
                    assert(sources@[index as int] is Some);
                    return false;
                }
            },
            None => {
                assert(sources@[index as int] is None);
                return false;
            },
        }
        index += 1;
    }
    true
}

/// The member of an instance whose equations have been checked; none where its
/// class member is not known or where equations are missing.
pub fn record_instance_member(
    resolution: Option<(FileId, TermItemId)>,
    sources: &Vec<Option<EquationSourceId>>,
    implementation_type: TypeId,
    checked: CheckedValueEquations,
) -> (member: Option<InstanceMember>)
    ensures
        member is Some <==> resolution is Some && is_complete(sources@, checked.equations@),
        member matches Some(member) ==> {
            &&& member.resolution == resolution->0
            &&& member.implementation_type == implementation_type
            &&& member.abstractions == checked.abstractions
            &&& are_trees(checked.equations@, member.equations@)
        },
{
    let resolution = resolution?;
    let abstractions = checked.abstractions;
    let ghost elaborated = checked.equations@;
    let trees = equation_trees(checked.equations);
    match trees {
        Some(equations) => {
            let complete = covers_sources(sources, &equations);
            proof {
                lemma_complete(sources@, elaborated, equations@);
            }
            if !complete {
                return None;
            }
            Some(InstanceMember { resolution, implementation_type, abstractions, equations })
        },
        None => {
            proof {
                let i = choose|i: int|
                    0 <= i < elaborated.len() && #[trigger] elaborated[i].source is None;
                if is_complete(sources@, elaborated) {
                    assert(sources@[i] is Some);
                }
            }
            None
        },
    }
}

proof fn lemma_complete(
    sources: Seq<Option<EquationSourceId>>,
    elaborated: Seq<ElaboratedEquation>,
    equations: Seq<Equation>,
)
    requires
        are_trees(elaborated, equations),
    ensures
        is_complete(sources, elaborated) <==> (sources.len() > 0 && sources.len()
            == equations.len() && forall|i: int|
            0 <= i < sources.len() ==> #[trigger] sources[i] is Some && equations[i].source
                == EquationSource::Item(sources[i]->0)),
{
    if is_complete(sources, elaborated) {
        assert forall|i: int| 0 <= i < sources.len() implies #[trigger] sources[i] is Some
            && equations[i].source == EquationSource::Item(sources[i]->0) by {
            assert(equations[i].source == EquationSource::Item(elaborated[i].source->0));
        }
    }
    if sources.len() > 0 && sources.len() == equations.len() && forall|i: int|
        0 <= i < sources.len() ==> #[trigger] sources[i] is Some && equations[i].source
            == EquationSource::Item(sources[i]->0) {
        assert forall|i: int| 0 <= i < sources.len() implies #[trigger] sources[i] is Some
            && elaborated[i].source == sources[i] by {
            assert(equations[i].source == EquationSource::Item(elaborated[i].source->0));
        }
    }
}

// Members of an instance as a whole

/// A member of a class with its name, where it has one.
#[derive(Debug)]
pub struct ClassMemberName {
    pub item_id: TermItemId,
    pub name: Option<String>,
}

/// The member is implemented.
pub open spec fn is_implemented(
    implementations: Seq<InstanceMember>,
    member: (FileId, TermItemId),
) -> bool {
    exists|i: int|
        0 <= i < implementations.len() && (#[trigger] implementations[i]).resolution == member
}

/// The names of the members that are not implemented, in the order of the class.
pub open spec fn missing_names(
    class_file: FileId,
    members: Seq<ClassMemberName>,
    implementations: Seq<InstanceMember>,
) -> Seq<String>
    decreases members.len(),
{
    if members.len() == 0 {
        Seq::empty()
    } else {
        let before = missing_names(class_file, members.drop_last(), implementations);
        let member = members.last();
        match member.name {
            Some(name) if !is_implemented(implementations, (class_file, member.item_id)) => {
                before.push(name)
            },
            _ => before,
        }
    }
}

fn implements(implementations: &Vec<InstanceMember>, member: (FileId, TermItemId)) -> (implemented:
    bool)
    ensures
        implemented == is_implemented(implementations@, member),
{
    let mut index: usize = 0;
    while index < implementations.len()
        invariant
            index <= implementations.len(),
            forall|i: int|
                0 <= i < index ==> (#[trigger] implementations@[i]).resolution != member,
        decreases implementations.len() - index,
    {
        let resolution = implementations[index].resolution;
        if resolution.0 == member.0 && resolution.1 == member.1 {
            assert(implementations@[index as int].resolution == member);
            return true;
        }
        index += 1;
    }
    false
}

/// The names of the members that are not implemented.
pub fn missing_members(
    class_file: FileId,
    members: &Vec<ClassMemberName>,
    implementations: &Vec<InstanceMember>,
) -> (missing: Vec<String>)
    ensures
        missing@ == missing_names(class_file, members@, implementations@),
{
    let mut missing: Vec<String> = Vec::new();
    let mut index: usize = 0;
    assert(members@.take(0) =~= Seq::empty());
    while index < members.len()
        invariant
            index <= members.len(),
            missing@ == missing_names(
                class_file,
                members@.take(index as int),
                implementations@,
            ),
        decreases members.len() - index,
    {
        assert(members@.take(index + 1).drop_last() =~= members@.take(index as int));
        let member = &members[index];
        if !implements(implementations, (class_file, member.item_id)) {
            if let Some(name) = &member.name {
                missing.push(name.clone());
            }
        }
        index += 1;
    }
    assert(members@.take(index as int) =~= members@);
    missing
}

/// The members that are missing have been reported, where there are any and they are
/// not to be passed over.
pub open spec fn missing_reported(
    before: CheckState,
    after: CheckState,
    missing: Seq<String>,
    suppress: bool,
) -> bool {
    if missing.len() == 0 || suppress {
        after == before
    } else {
        exists|names: Vec<String>| #[trigger]
            reported(before, after, ErrorKind::MissingInstanceMembers { members: names })
                && names@ == missing
    }
}

/// Reports members that are not implemented, unless that is suppressed: an instance
/// without members whose constraints can never hold needs none.
pub fn report_missing_members(
    state: &mut CheckState,
    class_file: FileId,
    members: &Vec<ClassMemberName>,
    implementations: &Vec<InstanceMember>,
    suppress: bool,
)
    ensures
        missing_reported(
            *old(state),
            *final(state),
            missing_names(class_file, members@, implementations@),
            suppress,
        ),
{
    let missing = missing_members(class_file, members, implementations);
    if missing.len() > 0 && !suppress {
        state.insert_error(ErrorKind::MissingInstanceMembers { members: missing });
        assert(reported(
            *old(state),
            *state,
            ErrorKind::MissingInstanceMembers { members: missing },
        ));
    }
}

/// The position of a member within its class, the last one where there are several.
pub open spec fn last_position(members: Seq<ClassMemberName>, item_id: TermItemId) -> Option<nat>
    decreases members.len(),
{
    if members.len() == 0 {
        None
    } else if members.last().item_id == item_id {
        Some((members.len() - 1) as nat)
    } else {
        last_position(members.drop_last(), item_id)
    }
}

/// What members of an instance are ordered by: their position within the class.
/// Others come last.
pub open spec fn member_key(
    class_file: FileId,
    members: Seq<ClassMemberName>,
    resolution: (FileId, TermItemId),
) -> nat {
    if resolution.0 == class_file {
        match last_position(members, resolution.1) {
            Some(position) => position,
            None => usize::MAX as nat,
        }
    } else {
        usize::MAX as nat
    }
}

/// The keys of members.
pub open spec fn member_keys(
    class_file: FileId,
    members: Seq<ClassMemberName>,
    implementations: Seq<InstanceMember>,
) -> Seq<nat> {
    Seq::new(
        implementations.len(),
        |i: int| member_key(class_file, members, implementations[i].resolution),
    )
}

fn find_key(class_file: FileId, members: &Vec<ClassMemberName>, resolution: (FileId, TermItemId)) -> (
key: usize)
    ensures
        key == member_key(class_file, members@, resolution),
{
    if resolution.0 != class_file {
        return usize::MAX;
    }
    let mut index: usize = members.len();
    assert(members@.take(index as int) =~= members@);
    while index > 0
        invariant
            index <= members.len(),
            resolution.0 == class_file,
            last_position(members@, resolution.1) == last_position(
                members@.take(index as int),
                resolution.1,
            ),
        decreases index,
    {
        index -= 1;
        assert(members@.take(index + 1).drop_last() =~= members@.take(index as int));
        if members[index].item_id == resolution.1 {
            return index;
        }
    }
    usize::MAX
}

/// The number of members at the front whose keys are smaller.
pub open spec fn smaller_front(keys: Seq<nat>, key: nat) -> nat
    decreases keys.len(),
{
    if keys.len() == 0 || keys[0] >= key {
        0
    } else {
        1 + smaller_front(keys.skip(1), key)
    }
}

/// The members in the order of their keys. Those with the same key stay in their
/// order: each member is put in front of those with the same or a greater key that
/// come behind it.
pub open spec fn sorted_members(
    class_file: FileId,
    members: Seq<ClassMemberName>,
    implementations: Seq<InstanceMember>,
) -> Seq<InstanceMember>
    decreases implementations.len(),
{
    if implementations.len() == 0 {
        Seq::empty()
    } else {
        let rest = sorted_members(class_file, members, implementations.skip(1));
        let first = implementations[0];
        rest.insert(
            smaller_front(
                member_keys(class_file, members, rest),
                member_key(class_file, members, first.resolution),
            ) as int,
            first,
        )
    }
}

proof fn lemma_smaller_front(keys: Seq<nat>, key: nat)
    ensures
        smaller_front(keys, key) <= keys.len(),
        forall|i: int| 0 <= i < smaller_front(keys, key) ==> keys[i] < key,
        smaller_front(keys, key) < keys.len() ==> keys[smaller_front(keys, key) as int] >= key,
    decreases keys.len(),
{
    if keys.len() > 0 && keys[0] < key {
        lemma_smaller_front(keys.skip(1), key);
        assert forall|i: int| 0 <= i < smaller_front(keys, key) implies keys[i] < key by {
            if i > 0 {
                assert(keys.skip(1)[i - 1] == keys[i]);
            }
        }
    }
}

/// Puts the members of an instance into the order of the class.
pub fn sort_members(
    class_file: FileId,
    members: &Vec<ClassMemberName>,
    implementations: Vec<InstanceMember>,
) -> (sorted: Vec<InstanceMember>)
    ensures
        sorted@ == sorted_members(class_file, members@, implementations@),
{
    let mut remaining = implementations;
    let mut sorted: Vec<InstanceMember> = Vec::new();
    assert(implementations@.skip(implementations@.len() as int) =~= Seq::empty());
    loop
        invariant
            remaining@ == implementations@.take(remaining@.len() as int),
            remaining@.len() <= implementations@.len(),
            sorted@ == sorted_members(
                class_file,
                members@,
                implementations@.skip(remaining@.len() as int),
            ),
        ensures
            remaining@.len() == 0,
        decreases remaining@.len(),
    {
        let ghost count = remaining@.len();
        let Some(member) = remaining.pop() else {
            break;
        };
        assert(implementations@[count - 1] == member);
        assert(remaining@ =~= implementations@.take(count - 1));
        assert(implementations@.skip(count - 1).skip(1) =~= implementations@.skip(count as int));
        let key: usize = find_key(class_file, members, member.resolution);
        let ghost keys = member_keys(class_file, members@, sorted@);
        let mut position: usize = 0;
        assert(keys.skip(0) =~= keys);
        while position < sorted.len() && find_key(
            class_file,
            members,
            sorted[position].resolution,
        ) < key
            invariant
                position <= sorted.len(),
                keys == member_keys(class_file, members@, sorted@),
                smaller_front(keys, key as nat) == position + smaller_front(
                    keys.skip(position as int),
                    key as nat,
                ),
            decreases sorted.len() - position,
        {
            assert(keys.skip(position as int).skip(1) =~= keys.skip(position + 1));
            position += 1;
        }
        sorted.insert(position, member);
    }
    assert(implementations@.skip(0) =~= implementations@);
    sorted
}

/// Sorted members are the same members, in the order of the class.
pub proof fn lemma_sorted_members(
    class_file: FileId,
    members: Seq<ClassMemberName>,
    implementations: Seq<InstanceMember>,
)
    ensures
        sorted_members(class_file, members, implementations).to_multiset()
            == implementations.to_multiset(),
        forall|i: int, j: int|
            0 <= i <= j < implementations.len() ==> #[trigger] member_keys(
                class_file,
                members,
                sorted_members(class_file, members, implementations),
            )[i] <= #[trigger] member_keys(
                class_file,
                members,
                sorted_members(class_file, members, implementations),
            )[j],
        sorted_members(class_file, members, implementations).len() == implementations.len(),
    decreases implementations.len(),
{
    broadcast use vstd::seq_lib::group_to_multiset_ensures;

    if implementations.len() > 0 {
        let rest = implementations.skip(1);
        let first = implementations[0];
        let key = member_key(class_file, members, first.resolution);
        let tail = sorted_members(class_file, members, rest);
        let keys = member_keys(class_file, members, tail);
        lemma_sorted_members(class_file, members, rest);
        lemma_smaller_front(keys, key);
        let position = smaller_front(keys, key) as int;
        let sorted = tail.insert(position, first);
        assert(implementations =~= rest.insert(0, first));
        let all = member_keys(class_file, members, sorted);
        assert(all =~= keys.insert(position, key));
        assert forall|i: int, j: int| 0 <= i <= j < implementations.len() implies
            #[trigger] all[i] <= #[trigger] all[j] by {
            let before = if i < position {
                i
            } else {
                i - 1
            };
            let after = if j < position {
                j
            } else {
                j - 1
            };
            if i != position && j != position {
                assert(keys[before] <= keys[after]);
            } else if i == position && j != position {
                assert(keys[position] <= keys[after]);
            } else if i != position && j == position {
                assert(keys[before] < key);
            }
        }
    }
}

// Values

/// What a term is, as far as its signature goes.
#[derive(Clone, Copy, Debug)]
pub enum TermItemShape {
    Foreign { signature: Option<SourceTypeId> },
    Value { signature: Option<SourceTypeId> },
    Operator { resolution: Option<(FileId, TermItemId)> },
    Other,
}

/// The signature that has to be checked for a term.
pub fn term_signature(shape: TermItemShape) -> (signature: Option<SourceTypeId>)
    ensures
        signature == (match shape {
            TermItemShape::Foreign { signature } => signature,
            TermItemShape::Value { signature } => signature,
            _ => None,
        }),
{
    match shape {
        TermItemShape::Foreign { signature } => signature,
        TermItemShape::Value { signature } => signature,
        _ => None,
    }
}

/// Records the type of a term whose signature has been checked. A foreign term is
/// declared by its signature alone.
pub fn record_term_signature(
    state: &mut CheckState,
    item_id: TermItemId,
    shape: TermItemShape,
    type_id: TypeId,
)
    requires
        old(state).checked.tree@.term_declarations.len() <= u32::MAX,
        item_id.raw < usize::MAX,
    ensures
        final(state).checked.term_item_types@ == old(state).checked.term_item_types@.insert(
            item_id.raw as u64,
            type_id,
        ),
        final(state).checked.tree@ == (if shape is Foreign {
            declared(
                old(state).checked.tree@,
                item_id,
                TermDeclaration { type_id, kind: TermDeclarationKind::Foreign },
            )
        } else {
            old(state).checked.tree@
        }),
        *final(state) == (CheckState {
            checked: CheckedModule {
                tree: final(state).checked.tree,
                term_item_types: final(state).checked.term_item_types,
                ..old(state).checked
            },
            ..*old(state)
        }),
{
    state.checked.term_item_types.insert(item_id.raw as u64, type_id);
    if let TermItemShape::Foreign { .. } = shape {
        let declaration = TermDeclaration { type_id, kind: TermDeclarationKind::Foreign };
        state.checked.tree.insert_term(item_id, declaration);
    }
}

/// The tree with the declaration of a term.
pub open spec fn declared(tree: Tree, item_id: TermItemId, declaration: TermDeclaration) -> Tree {
    Tree {
        term_declarations: tree.term_declarations.push(declaration),
        terms: tree.terms.insert(
            item_id.raw,
            TermDeclarationId { raw: tree.term_declarations.len() as u32 },
        ),
        ..tree
    }
}

/// The term of the same module that an operator stands for.
pub open spec fn operator_target(file: FileId, shape: TermItemShape) -> Option<u64> {
    match shape {
        TermItemShape::Operator { resolution: Some((target_file, target)) } => {
            if target_file == file {
                Some(target.raw as u64)
            } else {
                None
            }
        },
        _ => None,
    }
}

fn find_target(file: FileId, shape: TermItemShape) -> (target: Option<u64>)
    ensures
        target == operator_target(file, shape),
{
    match shape {
        TermItemShape::Operator { resolution: Some((target_file, target)) } => {
            if target_file == file {
                Some(target.raw as u64)
            } else {
                None
            }
        },
        _ => None,
    }
}

/// The types once the terms of a group have one.
pub open spec fn types_prepared(
    begun: Preparation,
    file: FileId,
    items: Seq<(TermItemId, TermItemShape)>,
) -> Preparation
    decreases items.len(),
{
    if items.len() == 0 {
        begun
    } else {
        types_prepared(begun, file, items.drop_last()).with(
            items.last().0.raw as u64,
            operator_target(file, items.last().1),
        )
    }
}

/// Prepares the terms of a group whose members refer to each other: a term without a
/// type gets that of the term which it stands for, or one that is still to be found.
pub fn prepare_binding_group(
    state: &mut CheckState,
    types: &mut Types,
    prim: &Prim,
    file: FileId,
    items: &Vec<(TermItemId, TermItemShape)>,
)
    requires
        old(state).unifications.wf(),
        !old(state).unifications.is_frozen(),
        old(state).unifications@.len() + items@.len() <= u32::MAX,
        old(types)@.wf(),
    ensures
        final(types)@.wf(),
        extends(old(types)@, final(types)@),
        *final(state) == (CheckState {
            checked: CheckedModule {
                term_item_types: final(state).checked.term_item_types,
                ..old(state).checked
            },
            unifications: final(state).unifications,
            ..*old(state)
        }),
        ({
            let prepared = types_prepared(
                Preparation::begun(old(state).checked.term_item_types@),
                file,
                items@,
            );
            &&& prepared.describes(
                final(types)@,
                final(state).checked.term_item_types@,
                old(state).unifications@.len(),
            )
            &&& prepared.counted(*old(state), *final(state), prim.t)
            &&& final(types)@ == old(types)@.with_variables(
                old(state).unifications@.len(),
                prepared.fresh,
            )
        }),
{
    let mut index: usize = 0;
    let ghost begun = Preparation::begun(state.checked.term_item_types@);
    let ghost first = state.unifications@.len();
    proof {
        lemma_extends_reflexive(types@);
        lemma_begun_describes(types@, state.checked.term_item_types@, first);
        assert(items@.take(0) =~= Seq::empty());
        assert(begun.counted(*state, *state, prim.t)) by {
            assert(state.unifications@ + Seq::new(
                0,
                |i: int|
                    UnificationEntry {
                        depth: state.depth,
                        kind: prim.t,
                        state: UnificationState::Unsolved,
                    },
            ) =~= state.unifications@);
        }
    }
    while index < items.len()
        invariant
            index <= items.len(),
            types@.wf(),
            extends(old(types)@, types@),
            begun == Preparation::begun(old(state).checked.term_item_types@),
            first == old(state).unifications@.len(),
            first + items@.len() <= u32::MAX,
            types_prepared(begun, file, items@.take(index as int)).fresh <= index,
            types@ == old(types)@.with_variables(
                first,
                types_prepared(begun, file, items@.take(index as int)).fresh,
            ),
            types_prepared(begun, file, items@.take(index as int)).describes(
                types@,
                state.checked.term_item_types@,
                first,
            ),
            types_prepared(begun, file, items@.take(index as int)).counted(
                *old(state),
                *state,
                prim.t,
            ),
            *state == (CheckState {
                checked: CheckedModule {
                    term_item_types: state.checked.term_item_types,
                    ..old(state).checked
                },
                unifications: state.unifications,
                ..*old(state)
            }),
        decreases items.len() - index,
    {
        let (item_id, shape) = items[index];
        let key: u64 = item_id.raw as u64;
        let target = find_target(file, shape);
        let ghost store = types@;
        let ghost known = state.checked.term_item_types@;
        let ghost before = types_prepared(begun, file, items@.take(index as int));
        assert(items@.take(index + 1).drop_last() =~= items@.take(index as int));
        assert(items@.take(index + 1).last() == items@[index as int]);
        if state.checked.term_item_types.get(key).is_none() {
            let target_type = match target {
                Some(target) => match state.checked.term_item_types.get(target) {
                    Some(type_id) => Some(*type_id),
                    None => None,
                },
                None => None,
            };
            let item_type = match target_type {
                Some(item_type) => item_type,
                None => state.fresh_unification(types, prim.t),
            };
            state.checked.term_item_types.insert(key, item_type);
            proof {
                if target is Some {
                    assert(before.types.dom().contains(target->0) == known.contains_key(
                        target->0,
                    ));
                }
                lemma_extends_reflexive(store);
                lemma_extends_transitive(old(types)@, store, types@);
                lemma_describes_extends(before, store, types@, known, first);
                lemma_with_describes(before, types@, known, first, key, target, item_type);
                if target_type is None {
                    assert(state.unifications@ =~= old(state).unifications@ + Seq::new(
                        before.fresh + 1,
                        |i: int|
                            UnificationEntry {
                                depth: old(state).depth,
                                kind: prim.t,
                                state: UnificationState::Unsolved,
                            },
                    ));
                }
            }
        } else {
            assert(before.types.dom().contains(key));
        }
        index += 1;
    }
    assert(items@.take(index as int) =~= items@);
}

/// How the equations of a value are elaborated.
#[allow(inconsistent_fields)]
#[derive(Clone, Copy, Debug, PartialEq, Eq, Structural)]
pub enum ValueGroupRequest {
    Check { signature: SourceTypeId, signature_type: TypeId },
    Infer,
}

/// How the equations of a value are elaborated: they are checked against a signature
/// whose type is known, and inferred otherwise.
pub fn check_value_group_core(
    state: &CheckState,
    item_id: TermItemId,
    signature: Option<SourceTypeId>,
) -> (request: ValueGroupRequest)
    ensures
        request == ({
            let known = state.checked.term_item_types@;
            if signature is Some && known.contains_key(item_id.raw as u64) {
                ValueGroupRequest::Check {
                    signature: signature->0,
                    signature_type: known[item_id.raw as u64],
                }
            } else {
                ValueGroupRequest::Infer
            }
        }),
{
    match (signature, state.checked.term_item_types.get(item_id.raw as u64)) {
        (Some(signature), Some(signature_type)) => ValueGroupRequest::Check {
            signature,
            signature_type: *signature_type,
        },
        _ => ValueGroupRequest::Infer,
    }
}

/// The type of a value whose equations are to be inferred.
pub fn begin_inferred_group(
    state: &mut CheckState,
    types: &mut Types,
    prim: &Prim,
    item_id: TermItemId,
) -> (group_type: TypeId)
    requires
        old(state).unifications.wf(),
        !old(state).unifications.is_frozen(),
        old(state).unifications@.len() < u32::MAX,
        old(types)@.wf(),
    ensures
        final(types)@.wf(),
        extends(old(types)@, final(types)@),
        final(types)@ == old(types)@.with_variable(old(state).unifications@.len()),
        is_variable(final(types)@, group_type, old(state).unifications@.len()),
        final(state).checked.term_item_types@ == old(state).checked.term_item_types@.insert(
            item_id.raw as u64,
            group_type,
        ),
        exists|middle: CheckState| #[trigger]
            unification_added(*old(state), middle, prim.t) && *final(state) == (CheckState {
                checked: CheckedModule {
                    term_item_types: final(state).checked.term_item_types,
                    ..middle.checked
                },
                ..middle
            }),
{
    let group_type = state.fresh_unification(types, prim.t);
    let ghost middle = *state;
    state.checked.term_item_types.insert(item_id.raw as u64, group_type);
    assert(unification_added(*old(state), middle, prim.t));
    group_type
}

/// The type of an operator: recorded, or to be made a subtype of the type that the
/// operator has already.
pub fn check_term_operator(state: &mut CheckState, item_id: TermItemId, operator_type: TypeId) -> (
known: Option<TypeId>)
    ensures
        ({
            let before = old(state).checked.term_item_types@;
            let key = item_id.raw as u64;
            if before.contains_key(key) {
                known == Some(before[key]) && *final(state) == *old(state)
            } else {
                &&& known is None
                &&& final(state).checked.term_item_types@ == before.insert(key, operator_type)
                &&& *final(state) == (CheckState {
                    checked: CheckedModule {
                        term_item_types: final(state).checked.term_item_types,
                        ..old(state).checked
                    },
                    ..*old(state)
                })
            }
        }),
{
    match state.checked.term_item_types.get(item_id.raw as u64) {
        Some(item_type) => {
            return Some(*item_type);
        },
        None => {},
    }
    state.checked.term_item_types.insert(item_id.raw as u64, operator_type);
    None
}

// Groups of values

/// A constraint that could not be solved: what was wanted and given, and the
/// evidence that is missing.
#[derive(Debug)]
pub struct Residual {
    pub evidence: EvidenceVarId,
    pub wanted: CanonicalConstraintId,
    pub given: Vec<TypeId>,
    pub constraint: TypeId,
}

/// A value whose equations have been elaborated.
#[allow(inconsistent_fields)]
#[derive(Debug)]
pub enum PendingValueGroup {
    Checked {
        residuals: Vec<Residual>,
        abstractions: Vec<DeclarationAbstraction>,
        equations: Vec<ElaboratedEquation>,
    },
    Inferred { residuals: Vec<Residual>, equations: Vec<ElaboratedEquation> },
}

/// The values of a group that have been elaborated.
pub struct TermSccState {
    pub value_groups: IdMap<PendingValueGroup>,
}

impl TermSccState {
    pub fn new() -> (scc: TermSccState)
        ensures
            scc.value_groups@ == Map::<u64, PendingValueGroup>::empty(),
    {
        TermSccState { value_groups: IdMap::new() }
    }

    pub fn insert(&mut self, item_id: TermItemId, pending: PendingValueGroup)
        ensures
            final(self).value_groups@ == old(self).value_groups@.insert(
                item_id.raw as u64,
                pending,
            ),
    {
        self.value_groups.insert(item_id.raw as u64, pending);
    }

    /// Takes a value out of the group.
    pub fn take(&mut self, item_id: TermItemId) -> (pending: Option<PendingValueGroup>)
        ensures
            pending == super::tree::entry(old(self).value_groups@, item_id.raw as u64),
            final(self).value_groups@ == old(self).value_groups@.remove(item_id.raw as u64),
    {
        self.value_groups.remove(item_id.raw as u64)
    }
}

/// A constraint of an inferred type with the evidence that is given for it.
#[derive(Clone, Copy, Debug, PartialEq, Eq, Structural)]
pub struct InferredConstraint {
    pub constraint: TypeId,
    pub binder: EvidenceBinderId,
}

/// The abstractions over the constraints of an inferred type.
pub open spec fn evidence_abstractions(constraints: Seq<InferredConstraint>) -> Seq<
    DeclarationAbstraction,
> {
    Seq::new(
        constraints.len(),
        |i: int|
            DeclarationAbstraction::Evidence {
                constraint: constraints[i].constraint,
                binder: constraints[i].binder,
            },
    )
}

/// The abstractions over the constraints of an inferred type.
pub fn constraint_abstractions(constraints: &Vec<InferredConstraint>) -> (abstractions: Vec<
    DeclarationAbstraction,
>)
    ensures
        abstractions@ == evidence_abstractions(constraints@),
{
    let mut abstractions: Vec<DeclarationAbstraction> = Vec::new();
    let mut index: usize = 0;
    while index < constraints.len()
        invariant
            index <= constraints.len(),
            abstractions@.len() == index,
            forall|i: int|
                0 <= i < abstractions@.len() ==> #[trigger] abstractions@[i] == (
                DeclarationAbstraction::Evidence {
                    constraint: constraints@[i].constraint,
                    binder: constraints@[i].binder,
                }),
        decreases constraints.len() - index,
    {
        abstractions.push(
            DeclarationAbstraction::Evidence {
                constraint: constraints[index].constraint,
                binder: constraints[index].binder,
            },
        );
        index += 1;
    }
    assert(abstractions@ =~= evidence_abstractions(constraints@));
    abstractions
}

/// A type parameter that generalisation has added.
#[derive(Clone, Copy, Debug, PartialEq, Eq, Structural)]
pub struct GeneralisedParameter {
    pub binder: ForallBinderId,
    pub rigid: TypeId,
}

/// The abstractions of a declaration: over its type parameters, then the others.
pub open spec fn all_abstractions(
    parameters: Seq<GeneralisedParameter>,
    abstractions: Seq<DeclarationAbstraction>,
) -> Seq<DeclarationAbstraction> {
    Seq::new(
        parameters.len(),
        |i: int|
            DeclarationAbstraction::Type {
                binder: parameters[i].binder,
                rigid: parameters[i].rigid,
            },
    ) + abstractions
}

/// The abstractions of a declaration.
pub fn declaration_abstractions(
    parameters: &Vec<GeneralisedParameter>,
    abstractions: Vec<DeclarationAbstraction>,
) -> (all: Vec<DeclarationAbstraction>)
    ensures
        all@ == all_abstractions(parameters@, abstractions@),
{
    let mut all: Vec<DeclarationAbstraction> = Vec::new();
    let mut index: usize = 0;
    while index < parameters.len()
        invariant
            index <= parameters.len(),
            all@.len() == index,
            forall|i: int|
                0 <= i < index ==> #[trigger] all@[i] == (DeclarationAbstraction::Type {
                    binder: parameters@[i].binder,
                    rigid: parameters@[i].rigid,
                }),
        decreases parameters.len() - index,
    {
        all.push(
            DeclarationAbstraction::Type {
                binder: parameters[index].binder,
                rigid: parameters[index].rigid,
            },
        );
        index += 1;
    }
    let mut abstractions = abstractions;
    let ghost rest = abstractions@;
    all.append(&mut abstractions);
    assert(all@ =~= all_abstractions(parameters@, rest));
    all
}

/// The sources of a value's equations.
pub open spec fn value_sources(sources: Seq<AstId>) -> Seq<Option<EquationSourceId>> {
    Seq::new(sources.len(), |i: int| Some(EquationSourceId::Value(sources[i])))
}

/// The declaration of a value.
pub open spec fn is_value_declaration(
    declaration: TermDeclaration,
    type_id: TypeId,
    abstractions: Seq<DeclarationAbstraction>,
    elaborated: Seq<ElaboratedEquation>,
) -> bool {
    &&& declaration.type_id == type_id
    &&& declaration.kind matches TermDeclarationKind::Value(value)
    &&& value.abstractions@ == abstractions
    &&& are_trees(elaborated, value.equations@)
}

/// Declares a value, where all of its equations have been elaborated. `sources` are
/// the equations of the item, where it is a value.
pub fn record_value_declaration(
    state: &mut CheckState,
    item_id: TermItemId,
    sources: Option<&Vec<AstId>>,
    type_id: TypeId,
    abstractions: Vec<DeclarationAbstraction>,
    equations: Vec<ElaboratedEquation>,
)
    requires
        old(state).checked.tree@.term_declarations.len() <= u32::MAX,
        item_id.raw < usize::MAX,
    ensures
        *final(state) == with_tree(*old(state), final(state).checked.tree),
        value_recorded(
            old(state).checked.tree@,
            final(state).checked.tree@,
            item_id,
            sources,
            type_id,
            abstractions@,
            equations@,
        ),
{
    let Some(sources) = sources else {
        return ;
    };
    let ghost elaborated = equations@;
    let trees = equation_trees(equations);
    let Some(equations) = trees else {
        proof {
            let i = choose|i: int|
                0 <= i < elaborated.len() && #[trigger] elaborated[i].source is None;
            if is_complete(value_sources(sources@), elaborated) {
                assert(value_sources(sources@)[i] is Some);
            }
        }
        return ;
    };
    let known = optional_sources(sources);
    let complete = covers_sources(&known, &equations);
    proof {
        lemma_complete(known@, elaborated, equations@);
    }
    if !complete {
        return ;
    }
    let declaration = TermDeclaration {
        type_id,
        kind: TermDeclarationKind::Value(ValueDeclaration { abstractions, equations }),
    };
    assert(is_value_declaration(declaration, type_id, abstractions@, elaborated));
    state.checked.tree.insert_term(item_id, declaration);
    assert(state.checked.tree@ == declared(old(state).checked.tree@, item_id, declaration));
}

fn optional_sources(sources: &Vec<AstId>) -> (known: Vec<Option<EquationSourceId>>)
    ensures
        known@ == value_sources(sources@),
{
    let mut known: Vec<Option<EquationSourceId>> = Vec::new();
    let mut index: usize = 0;
    while index < sources.len()
        invariant
            index <= sources.len(),
            known@.len() == index,
            forall|i: int|
                0 <= i < index ==> #[trigger] known@[i] == Some(
                    EquationSourceId::Value(sources@[i]),
                ),
        decreases sources.len() - index,
    {
        known.push(Some(EquationSourceId::Value(sources[index])));
        index += 1;
    }
    assert(known@ =~= value_sources(sources@));
    known
}

/// The later tree has the value's declaration, where all of its equations have been
/// elaborated.
pub open spec fn value_recorded(
    before: Tree,
    after: Tree,
    item_id: TermItemId,
    sources: Option<&Vec<AstId>>,
    type_id: TypeId,
    abstractions: Seq<DeclarationAbstraction>,
    elaborated: Seq<ElaboratedEquation>,
) -> bool {
    if sources is Some && is_complete(value_sources(sources->0@), elaborated) {
        exists|declaration: TermDeclaration| #[trigger]
            is_value_declaration(declaration, type_id, abstractions, elaborated) && after
                == declared(before, item_id, declaration)
    } else {
        after == before
    }
}

/// The later state has further errors, all at a place below that of the earlier
/// one.
pub open spec fn errors_added(
    before: CheckState,
    after: CheckState,
    crumb: ErrorCrumb,
    kinds: Seq<ErrorKind>,
) -> bool {
    let first = before.checked.errors@.len();
    &&& after == (CheckState {
        checked: CheckedModule { errors: after.checked.errors, ..before.checked },
        crumbs: after.crumbs,
        ..before
    })
    &&& after.crumbs@ == before.crumbs@
    &&& after.checked.errors@.len() == first + kinds.len()
    &&& after.checked.errors@.take(first as int) == before.checked.errors@
    &&& forall|i: int|
        0 <= i < kinds.len() ==> (#[trigger] after.checked.errors@[first + i]).kind == kinds[i]
            && after.checked.errors@[first + i].crumbs@ == before.crumbs@.push(crumb)
}

proof fn lemma_errors_added_none(state: CheckState, crumb: ErrorCrumb)
    ensures
        errors_added(state, state, crumb, Seq::empty()),
{
    assert(state.checked.errors@.take(state.checked.errors@.len() as int)
        =~= state.checked.errors@);
}

proof fn lemma_errors_added_one(
    first: CheckState,
    second: CheckState,
    third: CheckState,
    crumb: ErrorCrumb,
    kinds: Seq<ErrorKind>,
    kind: ErrorKind,
)
    requires
        errors_added(first, second, crumb, kinds),
        reported_at(second, third, crumb, kind),
    ensures
        errors_added(first, third, crumb, kinds.push(kind)),
{
    let count = first.checked.errors@.len();
    let errors = third.checked.errors@;
    assert forall|i: int| 0 <= i < second.checked.errors@.len() implies errors[i]
        == second.checked.errors@[i] by {
        assert(errors.drop_last()[i] == second.checked.errors@[i]);
    }
    assert(errors.take(count as int) =~= second.checked.errors@.take(count as int));
    assert forall|i: int| 0 <= i < kinds.push(kind).len() implies (
    #[trigger] errors[count + i]).kind == kinds.push(kind)[i] && errors[count + i].crumbs@
        == first.crumbs@.push(crumb) by {
        if i < kinds.len() {
            assert(errors[count + i] == second.checked.errors@[count + i]);
        }
    }
}

/// The errors for constraints that are ambiguous.
pub open spec fn ambiguous_kinds(constraints: Seq<TypeId>) -> Seq<ErrorKind> {
    Seq::new(
        constraints.len(),
        |i: int| ErrorKind::AmbiguousConstraint { constraint: constraints[i] },
    )
}

/// The errors that came up for a constraint.
pub open spec fn attached_kinds(
    errors: Map<u64, Vec<ErrorKind>>,
    wanted: CanonicalConstraintId,
) -> Seq<ErrorKind> {
    if errors.contains_key(wanted.raw as u64) {
        errors[wanted.raw as u64]@
    } else {
        Seq::empty()
    }
}

/// The errors that are still attached to constraints once some constraints have
/// been reported.
pub open spec fn errors_left(errors: Map<u64, Vec<ErrorKind>>, residuals: Seq<Residual>) -> Map<
    u64,
    Vec<ErrorKind>,
>
    decreases residuals.len(),
{
    if residuals.len() == 0 {
        errors
    } else {
        errors_left(errors, residuals.drop_last()).remove(residuals.last().wanted.raw as u64)
    }
}

/// The errors for constraints that are not satisfied: those that came up on the
/// way and have not been reported before, then that there is no instance.
pub open spec fn unsatisfied_kinds(
    residuals: Seq<Residual>,
    errors: Map<u64, Vec<ErrorKind>>,
) -> Seq<ErrorKind>
    decreases residuals.len(),
{
    if residuals.len() == 0 {
        Seq::empty()
    } else {
        let last = residuals.last();
        (unsatisfied_kinds(residuals.drop_last(), errors) + attached_kinds(
            errors_left(errors, residuals.drop_last()),
            last.wanted,
        )).push(ErrorKind::NoInstanceFound { given: last.given, constraint: last.constraint })
    }
}

/// What came up for a constraint is reported with the first residual that wants
/// it, and with no later one.
pub proof fn lemma_attached_once(
    errors: Map<u64, Vec<ErrorKind>>,
    residuals: Seq<Residual>,
    wanted: CanonicalConstraintId,
)
    ensures
        attached_kinds(errors_left(errors, residuals), wanted) == (if exists|i: int|
            0 <= i < residuals.len() && (#[trigger] residuals[i]).wanted == wanted {
            Seq::empty()
        } else {
            attached_kinds(errors, wanted)
        }),
    decreases residuals.len(),
{
    if residuals.len() > 0 {
        let rest = residuals.drop_last();
        lemma_attached_once(errors, rest, wanted);
        if exists|i: int| 0 <= i < rest.len() && (#[trigger] rest[i]).wanted == wanted {
            let i = choose|i: int| 0 <= i < rest.len() && (#[trigger] rest[i]).wanted == wanted;
            assert(residuals[i].wanted == wanted);
        }
        if residuals.last().wanted == wanted {
            assert(residuals[residuals.len() - 1].wanted == wanted);
        }
        if exists|i: int| 0 <= i < residuals.len() && (#[trigger] residuals[i]).wanted == wanted {
            let i = choose|i: int|
                0 <= i < residuals.len() && (#[trigger] residuals[i]).wanted == wanted;
            if i < rest.len() {
                assert(rest[i].wanted == wanted);
            }
        }
    }
}

/// The evidence for constraints that are not satisfied is an error.
pub open spec fn evidence_marked(
    variables: Seq<EvidenceState>,
    residuals: Seq<Residual>,
) -> Seq<EvidenceState>
    decreases residuals.len(),
{
    if residuals.len() == 0 {
        variables
    } else {
        evidence_marked(variables, residuals.drop_last()).update(
            residuals.last().evidence.raw as int,
            EvidenceState::Error,
        )
    }
}

proof fn lemma_evidence_marked_len(variables: Seq<EvidenceState>, residuals: Seq<Residual>)
    requires
        forall|i: int|
            0 <= i < residuals.len() ==> (#[trigger] residuals[i]).evidence.raw < variables.len(),
    ensures
        evidence_marked(variables, residuals).len() == variables.len(),
    decreases residuals.len(),
{
    if residuals.len() > 0 {
        let rest = residuals.drop_last();
        assert forall|i: int| 0 <= i < rest.len() implies (#[trigger] rest[i]).evidence.raw
            < variables.len() by {
            assert(rest[i] == residuals[i]);
        }
        lemma_evidence_marked_len(variables, rest);
        assert(residuals[residuals.len() - 1].evidence.raw < variables.len());
    }
}

/// Marks the evidence for constraints that are not satisfied.
pub fn mark_unsatisfied(state: &mut CheckState, residuals: &Vec<Residual>)
    requires
        forall|i: int|
            0 <= i < residuals@.len() ==> (#[trigger] residuals@[i]).evidence.raw < old(
                state,
            ).checked.evidence@.variables.len(),
    ensures
        *final(state) == (CheckState {
            checked: CheckedModule {
                evidence: final(state).checked.evidence,
                ..old(state).checked
            },
            ..*old(state)
        }),
        final(state).checked.evidence@ == (EvidenceModel {
            variables: evidence_marked(
                old(state).checked.evidence@.variables,
                residuals@,
            ),
            ..old(state).checked.evidence@
        }),
{
    let mut index: usize = 0;
    assert(residuals@.take(0) =~= Seq::empty());
    while index < residuals.len()
        invariant
            index <= residuals.len(),
            forall|i: int|
                0 <= i < residuals@.len() ==> (#[trigger] residuals@[i]).evidence.raw < old(
                    state,
                ).checked.evidence@.variables.len(),
            *state == (CheckState {
                checked: CheckedModule { evidence: state.checked.evidence, ..old(state).checked },
                ..*old(state)
            }),
            state.checked.evidence@ == (EvidenceModel {
                variables: evidence_marked(
                    old(state).checked.evidence@.variables,
                    residuals@.take(index as int),
                ),
                ..old(state).checked.evidence@
            }),
        decreases residuals.len() - index,
    {
        proof {
            assert(residuals@.take(index + 1).drop_last() =~= residuals@.take(index as int));
            lemma_evidence_marked_len(
                old(state).checked.evidence@.variables,
                residuals@.take(index as int),
            );
        }
        state.checked.evidence.mark_error(residuals[index].evidence);
        index += 1;
    }
    assert(residuals@.take(index as int) =~= residuals@);
}

/// Reports constraints that are ambiguous.
pub fn report_ambiguous(state: &mut CheckState, item_id: TermItemId, constraints: &Vec<TypeId>)
    ensures
        errors_added(
            *old(state),
            *final(state),
            ErrorCrumb::TermDeclaration(item_id),
            ambiguous_kinds(constraints@),
        ),
{
    let crumb = ErrorCrumb::TermDeclaration(item_id);
    let mut index: usize = 0;
    proof {
        lemma_errors_added_none(*state, crumb);
        assert(ambiguous_kinds(constraints@).take(0) =~= Seq::empty());
    }
    while index < constraints.len()
        invariant
            index <= constraints.len(),
            crumb == ErrorCrumb::TermDeclaration(item_id),
            errors_added(
                *old(state),
                *state,
                crumb,
                ambiguous_kinds(constraints@).take(index as int),
            ),
        decreases constraints.len() - index,
    {
        let ghost before = *state;
        let ghost kind = ErrorKind::AmbiguousConstraint { constraint: constraints@[index as int] };
        insert_error_at(
            state,
            crumb,
            ErrorKind::AmbiguousConstraint { constraint: constraints[index] },
        );
        proof {
            lemma_errors_added_one(
                *old(state),
                before,
                *state,
                crumb,
                ambiguous_kinds(constraints@).take(index as int),
                kind,
            );
            assert(ambiguous_kinds(constraints@).take(index + 1) =~= ambiguous_kinds(
                constraints@,
            ).take(index as int).push(kind));
        }
        index += 1;
    }
    assert(ambiguous_kinds(constraints@).take(index as int) =~= ambiguous_kinds(constraints@));
}

fn report_attached(state: &mut CheckState, crumb: ErrorCrumb, attached: Vec<ErrorKind>)
    ensures
        errors_added(*old(state), *final(state), crumb, attached@),
{
    let mut attached = attached;
    let ghost all = attached@;
    proof {
        lemma_errors_added_none(*state, crumb);
        assert(all.take(0) =~= Seq::empty());
        assert(all.skip(0) =~= all);
    }
    while attached.len() > 0
        invariant
            attached@.len() <= all.len(),
            attached@ == all.skip(all.len() - attached@.len()),
            errors_added(*old(state), *state, crumb, all.take(all.len() - attached@.len())),
        decreases attached.len(),
    {
        let ghost before = *state;
        let ghost count = all.len() - attached@.len();
        let kind = attached.remove(0);
        insert_error_at(state, crumb, kind);
        proof {
            lemma_errors_added_one(*old(state), before, *state, crumb, all.take(count), kind);
            assert(all.take(count + 1) =~= all.take(count).push(kind));
            assert(attached@ =~= all.skip(count + 1));
        }
    }
    assert(all.take(all.len() as int) =~= all);
}

proof fn lemma_errors_added_all(
    first: CheckState,
    second: CheckState,
    third: CheckState,
    crumb: ErrorCrumb,
    kinds: Seq<ErrorKind>,
    more: Seq<ErrorKind>,
)
    requires
        errors_added(first, second, crumb, kinds),
        errors_added(second, third, crumb, more),
    ensures
        errors_added(first, third, crumb, kinds + more),
{
    let start = first.checked.errors@.len();
    let middle = second.checked.errors@;
    let errors = third.checked.errors@;
    assert forall|i: int| 0 <= i < middle.len() implies errors[i] == middle[i] by {
        assert(errors.take(middle.len() as int)[i] == middle[i]);
    }
    assert(errors.take(start as int) =~= middle.take(start as int));
    assert forall|i: int| 0 <= i < (kinds + more).len() implies (
    #[trigger] errors[start + i]).kind == (kinds + more)[i] && errors[start + i].crumbs@
        == first.crumbs@.push(crumb) by {
        if i < kinds.len() {
            assert(errors[start + i] == middle[start + i]);
        } else {
            assert(errors[middle.len() + (i - kinds.len())].kind == more[i - kinds.len()]);
        }
    }
}

/// Reports constraints that are not satisfied. What came up for one of them is taken
/// out as it is reported.
pub fn report_unsatisfied(state: &mut CheckState, item_id: TermItemId, residuals: Vec<Residual>)
    ensures
        errors_added(
            CheckState { canonical_errors: final(state).canonical_errors, ..*old(state) },
            *final(state),
            ErrorCrumb::TermDeclaration(item_id),
            unsatisfied_kinds(residuals@, old(state).canonical_errors@),
        ),
        final(state).canonical_errors@ == errors_left(old(state).canonical_errors@, residuals@),
{
    let crumb = ErrorCrumb::TermDeclaration(item_id);
    let mut residuals = residuals;
    let ghost all = residuals@;
    let ghost errors = state.canonical_errors@;
    proof {
        lemma_errors_added_none(*state, crumb);
        assert(all.take(0) =~= Seq::empty());
        assert(all.skip(0) =~= all);
    }
    while residuals.len() > 0
        invariant
            crumb == ErrorCrumb::TermDeclaration(item_id),
            residuals@.len() <= all.len(),
            residuals@ == all.skip(all.len() - residuals@.len()),
            errors == old(state).canonical_errors@,
            errors_added(
                CheckState { canonical_errors: state.canonical_errors, ..*old(state) },
                *state,
                crumb,
                unsatisfied_kinds(all.take(all.len() - residuals@.len()), errors),
            ),
            state.canonical_errors@ == errors_left(
                errors,
                all.take(all.len() - residuals@.len()),
            ),
        decreases residuals.len(),
    {
        let ghost count = all.len() - residuals@.len();
        let residual = residuals.remove(0);
        let ghost kinds = unsatisfied_kinds(all.take(count), errors);
        let ghost attached = attached_kinds(state.canonical_errors@, residual.wanted);
        let ghost kind = ErrorKind::NoInstanceFound {
            given: residual.given,
            constraint: residual.constraint,
        };
        let removed = state.canonical_errors.remove(residual.wanted.raw as u64);
        let ghost start = CheckState { canonical_errors: state.canonical_errors, ..*old(state) };
        let ghost before = *state;
        proof {
            lemma_errors_added_none(*state, crumb);
            assert(errors_added(start, before, crumb, kinds));
        }
        match removed {
            Some(attached) => report_attached(state, crumb, attached),
            None => {},
        }
        let ghost middle = *state;
        insert_error_at(
            state,
            crumb,
            ErrorKind::NoInstanceFound { given: residual.given, constraint: residual.constraint },
        );
        proof {
            lemma_errors_added_all(start, before, middle, crumb, kinds, attached);
            lemma_errors_added_one(start, middle, *state, crumb, kinds + attached, kind);
            assert(all.take(count + 1).drop_last() =~= all.take(count));
            assert(residuals@ =~= all.skip(count + 1));
        }
    }
    assert(all.take(all.len() as int) =~= all);
}

/// A value whose type has been generalised.
#[derive(Debug)]
pub struct GeneralisedValue {
    pub item_id: TermItemId,
    pub type_id: TypeId,
    pub parameters: Vec<GeneralisedParameter>,
    pub abstractions: Vec<DeclarationAbstraction>,
    pub equations: Vec<ElaboratedEquation>,
    /// Whether constraints were added to the type.
    pub inferred_constraints: bool,
    pub ambiguous: Vec<TypeId>,
    pub unsatisfied: Vec<Residual>,
}

/// A type with the constraints that were left over put in front of it.
#[derive(Debug)]
pub struct ConstrainedType {
    pub type_id: TypeId,
    pub constraints: Vec<InferredConstraint>,
    pub ambiguous: Vec<TypeId>,
    pub unsatisfied: Vec<Residual>,
}

/// The value has what its equations left over; the residuals of an inferred type are
/// apart.
pub open spec fn is_pending(
    item_id: TermItemId,
    type_id: TypeId,
    group: Option<PendingValueGroup>,
    value: GeneralisedValue,
    left: Option<Vec<Residual>>,
) -> bool {
    &&& value.item_id == item_id
    &&& value.type_id == type_id
    &&& value.parameters@.len() == 0
    &&& value.ambiguous@.len() == 0
    &&& !value.inferred_constraints
    &&& match group {
        Some(PendingValueGroup::Checked { residuals, abstractions, equations }) => {
            &&& left is None
            &&& value.unsatisfied == residuals
            &&& value.abstractions == abstractions
            &&& value.equations == equations
        },
        Some(PendingValueGroup::Inferred { residuals, equations }) => {
            &&& left == Some(residuals)
            &&& value.unsatisfied@.len() == 0
            &&& value.abstractions@.len() == 0
            &&& value.equations == equations
        },
        None => {
            &&& left is None
            &&& value.unsatisfied@.len() == 0
            &&& value.abstractions@.len() == 0
            &&& value.equations@.len() == 0
        },
    }
}

/// A value with what its equations left over. For a type that was inferred, the
/// residuals are still to become constraints of it.
pub fn pending_value(item_id: TermItemId, type_id: TypeId, group: Option<PendingValueGroup>) -> (
pending: (GeneralisedValue, Option<Vec<Residual>>))
    ensures
        is_pending(item_id, type_id, group, pending.0, pending.1),
{
    let (abstractions, equations, unsatisfied, left) = match group {
        Some(PendingValueGroup::Checked { residuals, abstractions, equations }) => (
            abstractions,
            equations,
            residuals,
            None,
        ),
        Some(PendingValueGroup::Inferred { residuals, equations }) => (
            Vec::new(),
            equations,
            Vec::new(),
            Some(residuals),
        ),
        None => (Vec::new(), Vec::new(), Vec::new(), None),
    };
    let value = GeneralisedValue {
        item_id,
        type_id,
        parameters: Vec::new(),
        abstractions,
        equations,
        inferred_constraints: false,
        ambiguous: Vec::new(),
        unsatisfied,
    };
    (value, left)
}

/// The value abstracts over the constraints of its inferred type.
pub fn constrained_value(value: GeneralisedValue, constrained: ConstrainedType) -> (after:
    GeneralisedValue)
    ensures
        after == (GeneralisedValue {
            type_id: constrained.type_id,
            abstractions: after.abstractions,
            inferred_constraints: constrained.constraints@.len() > 0,
            ambiguous: constrained.ambiguous,
            unsatisfied: constrained.unsatisfied,
            ..value
        }),
        after.abstractions@ == evidence_abstractions(constrained.constraints@),
{
    let abstractions = constraint_abstractions(&constrained.constraints);
    GeneralisedValue {
        type_id: constrained.type_id,
        abstractions,
        inferred_constraints: constrained.constraints.len() > 0,
        ambiguous: constrained.ambiguous,
        unsatisfied: constrained.unsatisfied,
        ..value
    }
}

/// The errors of a value. A constraint that a recursive value was inferred to have
/// cannot be passed on.
pub open spec fn value_kinds(
    value: GeneralisedValue,
    recursive: bool,
    errors: Map<u64, Vec<ErrorKind>>,
) -> Seq<ErrorKind> {
    let first = if recursive && value.inferred_constraints {
        seq![ErrorKind::CannotGeneraliseRecursiveFunction { type_id: value.type_id }]
    } else {
        Seq::empty()
    };
    first + ambiguous_kinds(value.ambiguous@) + unsatisfied_kinds(value.unsatisfied@, errors)
}

/// The value has been finished: its type is recorded, it is declared, the evidence for
/// constraints that are not satisfied is an error, and they are reported.
pub open spec fn value_finalised(
    start: CheckState,
    end: CheckState,
    value: GeneralisedValue,
    sources: Option<&Vec<AstId>>,
    recursive: bool,
) -> bool {
    let before = start.checked;
    let after = end.checked;
    let middle = CheckState {
        checked: CheckedModule {
            tree: after.tree,
            evidence: after.evidence,
            term_item_types: after.term_item_types,
            ..before
        },
        canonical_errors: end.canonical_errors,
        ..start
    };
    &&& errors_added(
        middle,
        end,
        ErrorCrumb::TermDeclaration(value.item_id),
        value_kinds(value, recursive, start.canonical_errors@),
    )
    &&& end.canonical_errors@ == errors_left(
        start.canonical_errors@,
        value.unsatisfied@,
    )
    &&& after.term_item_types@ == before.term_item_types@.insert(
        value.item_id.raw as u64,
        value.type_id,
    )
    &&& value_recorded(
        before.tree@,
        after.tree@,
        value.item_id,
        sources,
        value.type_id,
        all_abstractions(value.parameters@, value.abstractions@),
        value.equations@,
    )
    &&& after.evidence@ == (EvidenceModel {
        variables: evidence_marked(before.evidence@.variables, value.unsatisfied@),
        ..before.evidence@
    })
}

/// Finishes a value: records its type, declares it, and reports the constraints that
/// are left.
pub fn finalise_value(
    state: &mut CheckState,
    value: GeneralisedValue,
    sources: Option<&Vec<AstId>>,
    recursive: bool,
)
    requires
        old(state).checked.tree@.term_declarations.len() <= u32::MAX,
        value.item_id.raw < usize::MAX,
        forall|i: int|
            0 <= i < value.unsatisfied@.len() ==> (#[trigger] value.unsatisfied@[i]).evidence.raw
                < old(state).checked.evidence@.variables.len(),
    ensures
        value_finalised(*old(state), *final(state), value, sources, recursive),
{
    let item_id = value.item_id;
    let type_id = value.type_id;
    let crumb = ErrorCrumb::TermDeclaration(item_id);
    let ghost first_kinds = if recursive && value.inferred_constraints {
        seq![ErrorKind::CannotGeneraliseRecursiveFunction { type_id: value.type_id }]
    } else {
        Seq::empty()
    };
    state.checked.term_item_types.insert(item_id.raw as u64, type_id);
    let abstractions = declaration_abstractions(&value.parameters, value.abstractions);
    record_value_declaration(state, item_id, sources, type_id, abstractions, value.equations);
    mark_unsatisfied(state, &value.unsatisfied);
    let ghost middle = *state;
    proof {
        lemma_errors_added_none(middle, crumb);
    }
    if recursive && value.inferred_constraints {
        // Keep constraint evidence consistent with the candidate type used for error
        // recovery. The error prevents the invalid recursive abstraction from
        // proceeding.
        insert_error_at(
            state,
            crumb,
            ErrorKind::CannotGeneraliseRecursiveFunction { type_id },
        );
        proof {
            let kind = ErrorKind::CannotGeneraliseRecursiveFunction { type_id };
            lemma_errors_added_one(middle, middle, *state, crumb, Seq::empty(), kind);
            assert(Seq::empty().push(kind) =~= first_kinds);
        }
    }
    let ghost first = *state;
    report_ambiguous(state, item_id, &value.ambiguous);
    let ghost second = *state;
    report_unsatisfied(state, item_id, value.unsatisfied);
    proof {
        let ambiguous = ambiguous_kinds(value.ambiguous@);
        let unsatisfied = unsatisfied_kinds(value.unsatisfied@, middle.canonical_errors@);
        lemma_errors_added_all(middle, first, second, crumb, first_kinds, ambiguous);
        let errors = state.canonical_errors;
        let start = CheckState { canonical_errors: errors, ..middle };
        let end = CheckState { canonical_errors: errors, ..second };
        assert(errors_added(start, end, crumb, first_kinds + ambiguous));
        lemma_errors_added_all(
            start,
            end,
            *state,
            crumb,
            first_kinds + ambiguous,
            unsatisfied,
        );
    }
}

} // verus!
