//! Derived instances as a whole.

use super::super::evidence::{Evidence, EvidenceBinderId, EvidenceVarId};
use super::super::state::{all_given, lemma_none_more, lemma_one_more_given, wanted, CheckState};
use super::super::terms::application::ElaboratedExpression;
use super::super::tree::{
    is_plain, DeclarationAbstraction, Equation, EquationSource, GuardedExpression,
    InstanceDeclaration, InstanceEvidence, InstanceImplementation, InstanceMember,
    InstanceSuperclass, TermDeclaration, TermDeclarationKind, WhereExpression,
};
use super::super::types::{FileId, TypeId};
use super::plan::{
    emitted, in_order, plain_type, stepped, Emission, KnownTerms, Plan, PlanId, PlanType, Step,
};
use super::{contravariant, foldable, traversable};
use crate::indexing::items::{TermItemId, TypeItemId};
use crate::indexing::source::DeriveId;
use vstd::prelude::*;

verus! {

/// The class that an instance is derived for.
#[derive(Clone, Copy, Debug, PartialEq, Eq, Structural)]
pub enum DeriveDispatch {
    Eq,
    Eq1,
    Ord,
    Ord1,
    Functor,
    Bifunctor,
    Contravariant,
    Profunctor,
    Foldable,
    Bifoldable,
    Traversable,
    Bitraversable,
    Newtype,
    Generic,
    Unsupported,
}

/// How an instance is derived.
#[allow(inconsistent_fields)]
#[derive(Clone, Copy, Debug, PartialEq, Eq, Structural)]
pub enum DeriveStrategy {
    NewtypeDeriveConstraint { delegate_constraint: TypeId },
    FieldConstraints { data_file: FileId, data_id: TypeItemId },
    DelegateConstraint { constraint: TypeId },
    VarianceConstraints { data_file: FileId, data_id: TypeItemId },
    NewtypeClass,
    Generic { data_file: FileId, data_id: TypeItemId },
}

/// How a derived instance comes about.
#[derive(Clone, Copy, Debug, PartialEq, Eq, Structural)]
pub enum InstanceRequest {
    /// Through the instance for the type within a newtype.
    Delegate { delegate_constraint: TypeId },
    /// Through members that are generated.
    Known { dispatch: DeriveDispatch },
}

/// How a derived instance comes about.
pub fn generate_instance(strategy: DeriveStrategy, dispatch: DeriveDispatch) -> (request:
    InstanceRequest)
    requires
        strategy is NewtypeDeriveConstraint || !(dispatch is Unsupported),
    ensures
        request == (match strategy {
            DeriveStrategy::NewtypeDeriveConstraint { delegate_constraint } => {
                InstanceRequest::Delegate { delegate_constraint }
            },
            _ => InstanceRequest::Known { dispatch },
        }),
{
    match strategy {
        DeriveStrategy::NewtypeDeriveConstraint { delegate_constraint } => {
            InstanceRequest::Delegate { delegate_constraint }
        },
        _ => InstanceRequest::Known { dispatch },
    }
}

/// The first constraints, as many as there are of the signature's.
pub open spec fn matched(constraints: Seq<TypeId>, signature_constraints: Seq<TypeId>) -> Seq<TypeId> {
    if constraints.len() <= signature_constraints.len() {
        constraints
    } else {
        constraints.take(signature_constraints.len() as int)
    }
}

/// Each piece of evidence is given for a constraint of the signature.
pub open spec fn is_given_evidence(
    evidences: Seq<InstanceEvidence>,
    signature_constraints: Seq<TypeId>,
    first: nat,
) -> bool {
    forall|i: int|
        0 <= i < evidences.len() ==> #[trigger] evidences[i] == (InstanceEvidence {
            constraint: signature_constraints[i],
            evidence: Evidence::Given(EvidenceBinderId { raw: (first + i) as u32 }),
        })
}

/// Gives the evidence of an instance. The constraints have type variables of their
/// own; those of the signature are what the evidence is listed for.
pub fn give_instance_evidence(
    state: &mut CheckState,
    constraints: &Vec<TypeId>,
    signature_constraints: &Vec<TypeId>,
) -> (evidences: Vec<InstanceEvidence>)
    requires
        old(state).implications@.wf(),
        old(state).checked.evidence@.binders.len() + constraints@.len() <= u32::MAX,
    ensures
        evidences@.len() == matched(constraints@, signature_constraints@).len(),
        is_given_evidence(
            evidences@,
            signature_constraints@,
            old(state).checked.evidence@.binders.len(),
        ),
        all_given(
            *old(state),
            *final(state),
            matched(constraints@, signature_constraints@),
        ),
{
    let mut evidences: Vec<InstanceEvidence> = Vec::new();
    let ghost first = state.checked.evidence@.binders.len();
    let mut index: usize = 0;
    proof {
        assert(constraints@.take(0) =~= Seq::empty());
        lemma_none_more(*state);
    }
    while index < constraints.len() && index < signature_constraints.len()
        invariant
            index <= constraints.len(),
            index <= signature_constraints.len(),
            evidences@.len() == index,
            first == old(state).checked.evidence@.binders.len(),
            first + constraints@.len() <= u32::MAX,
            old(state).implications@.wf(),
            is_given_evidence(evidences@, signature_constraints@, first),
            all_given(*old(state), *state, constraints@.take(index as int)),
        decreases constraints.len() - index,
    {
        let ghost middle = *state;
        let constraint = constraints[index];
        let binder = state.push_given(constraint);
        let evidence = Evidence::Given(binder);
        evidences.push(InstanceEvidence { constraint: signature_constraints[index], evidence });
        proof {
            let before = constraints@.take(index as int);
            lemma_one_more_given(*old(state), middle, *state, before, constraint, binder);
            assert(constraints@.take(index + 1) =~= before.push(constraint));
        }
        index += 1;
    }
    assert(constraints@.take(index as int) =~= matched(constraints@, signature_constraints@));
    evidences
}

/// The head of a derived instance.
#[derive(Clone, Copy, Debug)]
pub struct DeriveHead {
    pub derive_id: DeriveId,
    pub class: (FileId, TypeItemId),
    pub signature: TypeId,
}

/// The instance that delegates to the one for the type within a newtype. Its
/// evidence has been given; that of the instance delegated to is asked for.
pub fn generate_delegate_instance(
    state: &mut CheckState,
    head: DeriveHead,
    rigids: Vec<TypeId>,
    evidences: Vec<InstanceEvidence>,
    delegate_constraint: TypeId,
) -> (declaration: TermDeclaration)
    requires
        old(state).implications@.wf(),
        old(state).checked.evidence@.variables.len() <= u32::MAX,
    ensures
        final(state).implications@.wf(),
        exists|evidence: EvidenceVarId, superclasses: Vec<InstanceSuperclass>|
            {
                &&& #[trigger] wanted(
                    *old(state),
                    *final(state),
                    delegate_constraint,
                    evidence,
                )
                &&& superclasses@.len() == 0
                &&& declaration == #[trigger] instance_of(
                    head,
                    rigids,
                    evidences,
                    superclasses,
                    InstanceImplementation::Delegate { constraint: delegate_constraint, evidence },
                )
            },
{
    let evidence = state.push_wanted(delegate_constraint);
    let superclasses: Vec<InstanceSuperclass> = Vec::new();
    instance_declaration(
        head,
        rigids,
        evidences,
        superclasses,
        InstanceImplementation::Delegate { constraint: delegate_constraint, evidence },
    )
}

/// The declaration of an instance.
pub open spec fn instance_of(
    head: DeriveHead,
    rigid_parameters: Vec<TypeId>,
    evidences: Vec<InstanceEvidence>,
    superclasses: Vec<InstanceSuperclass>,
    implementation: InstanceImplementation,
) -> TermDeclaration {
    TermDeclaration {
        type_id: head.signature,
        kind: TermDeclarationKind::Instance(
            InstanceDeclaration {
                class: head.class,
                rigid_parameters,
                evidences,
                superclasses,
                implementation,
            },
        ),
    }
}

/// The declaration of an instance.
pub fn instance_declaration(
    head: DeriveHead,
    rigid_parameters: Vec<TypeId>,
    evidences: Vec<InstanceEvidence>,
    superclasses: Vec<InstanceSuperclass>,
    implementation: InstanceImplementation,
) -> (declaration: TermDeclaration)
    ensures
        declaration == instance_of(
            head,
            rigid_parameters,
            evidences,
            superclasses,
            implementation,
        ),
{
    TermDeclaration {
        type_id: head.signature,
        kind: TermDeclarationKind::Instance(
            InstanceDeclaration {
                class: head.class,
                rigid_parameters,
                evidences,
                superclasses,
                implementation,
            },
        ),
    }
}

// Members

/// The two maps that are covariant in all parameters.
#[derive(Clone, Copy, Debug, PartialEq, Eq, Structural)]
pub enum FunctorKind {
    Functor,
    Bifunctor,
}

/// The members that have to be generated for a class.
#[derive(Clone, Copy, Debug)]
pub enum MembersRequest {
    Eq,
    Ord,
    /// One member that is another term, where that is known.
    Delegated { operation: Option<(FileId, TermItemId)> },
    Functor(FunctorKind),
    Contravariant(contravariant::TraversalKind),
    Foldable(foldable::TraversalKind),
    Traversable(traversable::TraversalKind),
    Generic,
    /// The class has no members at run time.
    NoMembers,
    /// The instance cannot be generated.
    Nothing,
}

/// The members that have to be generated for a class. Those that go through the
/// fields of constructors need a recipe.
pub open spec fn members_requested(
    dispatch: DeriveDispatch,
    has_recipe: bool,
    known: KnownTerms,
) -> MembersRequest {
    match dispatch {
        DeriveDispatch::Eq => MembersRequest::Eq,
        DeriveDispatch::Eq1 => MembersRequest::Delegated { operation: known.eq },
        DeriveDispatch::Ord => MembersRequest::Ord,
        DeriveDispatch::Ord1 => MembersRequest::Delegated { operation: known.compare },
        DeriveDispatch::Newtype => MembersRequest::NoMembers,
        DeriveDispatch::Generic => MembersRequest::Generic,
        DeriveDispatch::Unsupported => MembersRequest::Nothing,
        _ if !has_recipe => MembersRequest::Nothing,
        DeriveDispatch::Functor => MembersRequest::Functor(FunctorKind::Functor),
        DeriveDispatch::Bifunctor => MembersRequest::Functor(FunctorKind::Bifunctor),
        DeriveDispatch::Contravariant => MembersRequest::Contravariant(
            contravariant::TraversalKind::Contravariant,
        ),
        DeriveDispatch::Profunctor => MembersRequest::Contravariant(
            contravariant::TraversalKind::Profunctor,
        ),
        DeriveDispatch::Foldable => MembersRequest::Foldable(foldable::TraversalKind::Foldable),
        DeriveDispatch::Bifoldable => MembersRequest::Foldable(foldable::TraversalKind::Bifoldable),
        DeriveDispatch::Traversable => MembersRequest::Traversable(
            traversable::TraversalKind::Traversable,
        ),
        DeriveDispatch::Bitraversable => MembersRequest::Traversable(
            traversable::TraversalKind::Bitraversable,
        ),
    }
}

/// The members that have to be generated for a class.
pub fn request_members(dispatch: DeriveDispatch, has_recipe: bool, known: &KnownTerms) -> (request:
    MembersRequest)
    requires
        !(dispatch is Unsupported),
    ensures
        request == members_requested(dispatch, has_recipe, *known),
{
    match dispatch {
        DeriveDispatch::Eq => MembersRequest::Eq,
        DeriveDispatch::Eq1 => MembersRequest::Delegated { operation: known.eq },
        DeriveDispatch::Ord => MembersRequest::Ord,
        DeriveDispatch::Ord1 => MembersRequest::Delegated { operation: known.compare },
        DeriveDispatch::Newtype => MembersRequest::NoMembers,
        DeriveDispatch::Generic => MembersRequest::Generic,
        DeriveDispatch::Unsupported => MembersRequest::Nothing,
        _ => {
            if !has_recipe {
                return MembersRequest::Nothing;
            }
            match dispatch {
                DeriveDispatch::Functor => MembersRequest::Functor(FunctorKind::Functor),
                DeriveDispatch::Bifunctor => MembersRequest::Functor(FunctorKind::Bifunctor),
                DeriveDispatch::Contravariant => MembersRequest::Contravariant(
                    contravariant::TraversalKind::Contravariant,
                ),
                DeriveDispatch::Profunctor => MembersRequest::Contravariant(
                    contravariant::TraversalKind::Profunctor,
                ),
                DeriveDispatch::Foldable => MembersRequest::Foldable(
                    foldable::TraversalKind::Foldable,
                ),
                DeriveDispatch::Bifoldable => MembersRequest::Foldable(
                    foldable::TraversalKind::Bifoldable,
                ),
                DeriveDispatch::Traversable => MembersRequest::Traversable(
                    traversable::TraversalKind::Traversable,
                ),
                _ => MembersRequest::Traversable(traversable::TraversalKind::Bitraversable),
            }
        },
    }
}

/// The derived instance, once its members have been generated; none where they
/// could not be.
pub fn generate_known_instance(
    head: DeriveHead,
    rigids: Vec<TypeId>,
    evidences: Vec<InstanceEvidence>,
    superclasses: Vec<InstanceSuperclass>,
    members: Option<Vec<InstanceMember>>,
) -> (declaration: Option<TermDeclaration>)
    ensures
        declaration == (match members {
            Some(members) => Some(
                instance_of(
                    head,
                    rigids,
                    evidences,
                    superclasses,
                    InstanceImplementation::Members(members),
                ),
            ),
            None => None,
        }),
{
    let members = members?;
    Some(
        instance_declaration(
            head,
            rigids,
            evidences,
            superclasses,
            InstanceImplementation::Members(members),
        ),
    )
}

/// A member of a class with the type that it has in an instance.
#[derive(Clone, Copy, Debug)]
pub struct ResolvedMember {
    pub resolution: (FileId, TermItemId),
    pub implementation_type: TypeId,
}

/// The member of a class that has one; none where it has none or several.
pub fn single_member(class_file: FileId, members: &Vec<TermItemId>) -> (resolution: Option<
    (FileId, TermItemId),
>)
    ensures
        resolution == (if members@.len() == 1 {
            Some((class_file, members@[0]))
        } else {
            None
        }),
{
    if members.len() == 1 {
        Some((class_file, members[0]))
    } else {
        None
    }
}

/// A member with its type in the instance, where that could be found.
pub fn resolve_known_member(
    resolution: (FileId, TermItemId),
    implementation_type: Option<TypeId>,
) -> (member: Option<ResolvedMember>)
    ensures
        member == (match implementation_type {
            Some(implementation_type) => Some(ResolvedMember { resolution, implementation_type }),
            None => None,
        }),
{
    let implementation_type = implementation_type?;
    Some(ResolvedMember { resolution, implementation_type })
}

/// The term and the member of an instance whose one member is another term; none
/// where the instance is derived otherwise, or where one of them is not known.
pub fn delegated_member(
    strategy: DeriveStrategy,
    operation: Option<(FileId, TermItemId)>,
    class_file: FileId,
    members: &Vec<TermItemId>,
) -> (delegated: Option<((FileId, TermItemId), (FileId, TermItemId))>)
    ensures
        delegated == (if strategy is DelegateConstraint && operation is Some && members@.len()
            == 1 {
            Some((operation->0, (class_file, members@[0])))
        } else {
            None
        }),
{
    let DeriveStrategy::DelegateConstraint { .. } = strategy else {
        return None;
    };
    let operation = operation?;
    let member = single_member(class_file, members)?;
    Some((operation, member))
}

/// The member has one equation without binders or conditions, which is the body.
pub open spec fn is_generated(
    member: InstanceMember,
    derive_id: DeriveId,
    resolved: ResolvedMember,
    abstractions: Seq<DeclarationAbstraction>,
    body: ElaboratedExpression,
) -> bool {
    &&& member.resolution == resolved.resolution
    &&& member.implementation_type == resolved.implementation_type
    &&& member.abstractions@ == abstractions
    &&& member.equations@.len() == 1
    &&& member.equations@[0].source == (EquationSource::Generated {
        derive: derive_id,
        member: resolved.resolution.1,
    })
    &&& member.equations@[0].binders@.len() == 0
    &&& member.equations@[0].guarded_expression.alternatives@.len() == 1
    &&& member.equations@[0].guarded_expression.alternatives@[0].pattern_guards@.len() == 0
    &&& is_plain(
        member.equations@[0].guarded_expression.alternatives@[0].where_expression,
        body.expression,
    )
}

/// The operation as a member of another type.
pub open spec fn delegated(
    operation: (FileId, TermItemId),
    body_type: TypeId,
    plan: Seq<Step>,
) -> Emission {
    stepped(plan, Step::Reference { resolution: operation }).as_type(plain_type(body_type))
}

/// Emits a member that is the operation.
pub fn generate_delegated_member(
    plan: &mut Plan,
    operation: (FileId, TermItemId),
    body_type: TypeId,
) -> (body: PlanId)
    requires
        in_order(old(plan)@),
    ensures
        emitted(
            old(plan)@,
            final(plan)@,
            Some(delegated(operation, body_type, old(plan)@)),
            Some(body),
        ),
{
    let reference = plan.term_reference(operation);
    plan.subtype(reference, PlanType::plain(body_type))
}

/// A member with a body that was generated.
pub fn generated_member(
    derive_id: DeriveId,
    resolved: ResolvedMember,
    abstractions: Vec<DeclarationAbstraction>,
    body: ElaboratedExpression,
) -> (member: InstanceMember)
    ensures
        is_generated(member, derive_id, resolved, abstractions@, body),
{
    let where_expression = WhereExpression::new(body.expression);
    let guarded_expression = GuardedExpression::unconditional(where_expression);
    let equation = Equation::generated(
        derive_id,
        resolved.resolution.1,
        Vec::new(),
        guarded_expression,
    );
    let mut equations: Vec<Equation> = Vec::new();
    equations.push(equation);
    InstanceMember {
        resolution: resolved.resolution,
        implementation_type: resolved.implementation_type,
        abstractions,
        equations,
    }
}

} // verus!
