//! Implements checking and inference rules for value groups.

use super::super::error::ErrorKind;
use super::super::evidence::EvidenceBinderId;
use super::super::lowering::{LetBindingEquationId, SourceBinderId, SourceTypeId};
use super::super::state::{all_given, lemma_none_more, lemma_one_more_given, reported, CheckState};
use super::super::tree::{
    is_plain, BinderId, DeclarationAbstraction, Equation, EquationSource, EquationSourceId,
    ExpressionKind, GuardedExpression, WhereExpression,
};
use super::super::types::{extends, ForallBinderId, TypeId, TypeStore, Types};
use super::application::{grown_by, stands};
use vstd::prelude::*;

verus! {

/// The syntactic origin of an equation's expected type.
#[derive(Clone, Copy, Debug, PartialEq, Eq, Structural)]
pub enum EquationTypeOrigin {
    /// There is a syntactic origin.
    Explicit(SourceTypeId),
    /// This is no syntactic origin.
    Implicit,
}

/// The signature that equations are checked against.
#[derive(Debug)]
pub struct ValueEquationSignature {
    pub signature: TypeId,
    pub arguments: Vec<TypeId>,
    pub result: TypeId,
}

/// The types of the columns of patterns, for use in exhaustiveness checking.
pub type ValueEquationPatterns = Vec<TypeId>;

#[derive(Debug)]
pub struct CheckedValueEquations {
    pub patterns: ValueEquationPatterns,
    pub abstractions: Vec<DeclarationAbstraction>,
    pub equations: Vec<ElaboratedEquation>,
}

#[derive(Debug)]
pub struct ElaboratedEquation {
    pub source: Option<EquationSourceId>,
    pub binders: Vec<BinderId>,
    pub guarded: GuardedExpression,
}

impl ElaboratedEquation {
    /// The equation of an item, where its source is known.
    pub fn into_tree(self) -> (equation: Option<Equation>)
        ensures
            equation == (match self.source {
                Some(source) => Some(
                    Equation {
                        source: EquationSource::Item(source),
                        binders: self.binders,
                        guarded_expression: self.guarded,
                    },
                ),
                None => None,
            }),
    {
        match self.source {
            Some(source) => Some(Equation::item(source, self.binders, self.guarded)),
            None => None,
        }
    }

    /// The equation of a local declaration, which is no item.
    pub fn into_local_tree(self, source: LetBindingEquationId) -> (equation: Equation)
        requires
            self.source is None,
        ensures
            equation == (Equation {
                source: EquationSource::Local(source),
                binders: self.binders,
                guarded_expression: self.guarded,
            }),
    {
        Equation::local(source, self.binders, self.guarded)
    }
}

/// An equation of the source.
#[derive(Debug)]
pub struct SourceEquation {
    pub source: Option<EquationSourceId>,
    pub binders: Vec<SourceBinderId>,
    pub has_guarded: bool,
}

/// The number is the greatest arity of the equations.
pub open spec fn greatest_arity(equations: Seq<SourceEquation>) -> nat
    decreases equations.len(),
{
    if equations.len() == 0 {
        0
    } else {
        let rest = greatest_arity(equations.drop_last());
        let arity = equations.last().binders@.len();
        if arity > rest {
            arity
        } else {
            rest
        }
    }
}

/// The smallest arity of the equations; none have arity zero.
pub open spec fn smallest_arity(equations: Seq<SourceEquation>) -> nat
    decreases equations.len(),
{
    if equations.len() == 0 {
        0
    } else if equations.len() == 1 {
        equations[0].binders@.len()
    } else {
        let rest = smallest_arity(equations.drop_last());
        let arity = equations.last().binders@.len();
        if arity < rest {
            arity
        } else {
            rest
        }
    }
}

/// How many arguments a signature must have for the equations.
pub fn required_arity(equations: &Vec<SourceEquation>) -> (arity: usize)
    ensures
        arity == greatest_arity(equations@),
{
    let mut arity: usize = 0;
    let mut index: usize = 0;
    assert(equations@.take(0) =~= Seq::empty());
    while index < equations.len()
        invariant
            index <= equations.len(),
            arity == greatest_arity(equations@.take(index as int)),
        decreases equations.len() - index,
    {
        assert(equations@.take(index + 1).drop_last() =~= equations@.take(index as int));
        let current: usize = equations[index].binders.len();
        if current > arity {
            arity = current;
        }
        index += 1;
    }
    assert(equations@.take(index as int) =~= equations@);
    arity
}

/// How many arguments all of the equations have.
pub fn minimum_equation_arity(equations: &Vec<SourceEquation>) -> (arity: usize)
    ensures
        arity == smallest_arity(equations@),
{
    if equations.len() == 0 {
        return 0;
    }
    let mut arity: usize = equations[0].binders.len();
    let mut index: usize = 1;
    assert(equations@.take(1)[0] == equations@[0]);
    while index < equations.len()
        invariant
            1 <= index <= equations.len(),
            arity == smallest_arity(equations@.take(index as int)),
        decreases equations.len() - index,
    {
        assert(equations@.take(index + 1).drop_last() =~= equations@.take(index as int));
        let current: usize = equations[index].binders.len();
        if current < arity {
            arity = current;
        }
        index += 1;
    }
    assert(equations@.take(index as int) =~= equations@);
    arity
}

/// Every equation has at least the smallest and at most the greatest arity.
pub proof fn lemma_arities(equations: Seq<SourceEquation>, index: int)
    requires
        0 <= index < equations.len(),
    ensures
        smallest_arity(equations) <= equations[index].binders@.len() <= greatest_arity(equations),
    decreases equations.len(),
{
    if index < equations.len() - 1 {
        lemma_arities(equations.drop_last(), index);
        assert(equations.drop_last()[index] == equations[index]);
    } else if equations.len() > 1 {
        lemma_arities(equations.drop_last(), 0);
    }
}

/// The type of an inferred equation: its first arguments, as many as all
/// equations have, to the result of the group.
pub fn inferred_equation_type(
    types: &mut Types,
    arguments: &Vec<TypeId>,
    minimum: usize,
    result: TypeId,
) -> (id: TypeId)
    requires
        old(types)@.wf(),
        minimum <= arguments@.len(),
    ensures
        final(types)@.wf(),
        extends(old(types)@, final(types)@),
        (final(types)@, id) == old(types)@.with_functions(
            arguments@.take(minimum as int),
            result,
        ),
        final(types)@.is_function(id, arguments@.take(minimum as int), result),
{
    let mut first: Vec<TypeId> = Vec::new();
    let mut index: usize = 0;
    while index < minimum
        invariant
            index <= minimum <= arguments.len(),
            first@ == arguments@.take(index as int),
        decreases minimum - index,
    {
        first.push(arguments[index]);
        assert(first@ =~= arguments@.take(index + 1));
        index += 1;
    }
    types.intern_function_list(&first, result)
}

/// A part of a signature whose type variables have been made rigid.
#[allow(inconsistent_fields)]
#[derive(Clone, Copy, Debug, PartialEq, Eq, Structural)]
pub enum SkolemisedAbstraction {
    Type { binder: ForallBinderId, rigid: TypeId },
    Constraint { constraint: TypeId },
    Argument { argument: TypeId },
}

/// The constraints among some abstractions, in order.
pub open spec fn signature_constraints(abstractions: Seq<SkolemisedAbstraction>) -> Seq<TypeId>
    decreases abstractions.len(),
{
    if abstractions.len() == 0 {
        Seq::empty()
    } else {
        let before = signature_constraints(abstractions.drop_last());
        match abstractions.last() {
            SkolemisedAbstraction::Constraint { constraint } => before.push(constraint),
            _ => before,
        }
    }
}

/// The abstractions of a declaration, with evidence numbered from `first` on.
pub open spec fn bound_abstractions(
    abstractions: Seq<SkolemisedAbstraction>,
    first: nat,
) -> Seq<DeclarationAbstraction>
    decreases abstractions.len(),
{
    if abstractions.len() == 0 {
        Seq::empty()
    } else {
        let rest = abstractions.drop_last();
        bound_abstractions(rest, first).push(
            match abstractions.last() {
                SkolemisedAbstraction::Type { binder, rigid } => DeclarationAbstraction::Type {
                    binder,
                    rigid,
                },
                SkolemisedAbstraction::Constraint { constraint } => {
                    DeclarationAbstraction::Evidence {
                        constraint,
                        binder: EvidenceBinderId {
                            raw: (first + signature_constraints(rest).len()) as u32,
                        },
                    }
                },
                SkolemisedAbstraction::Argument { .. } => DeclarationAbstraction::Argument,
            },
        )
    }
}

/// Gives the evidence that a signature provides.
pub fn bind_signature_abstractions(
    state: &mut CheckState,
    abstractions: &Vec<SkolemisedAbstraction>,
) -> (bound: Vec<DeclarationAbstraction>)
    requires
        old(state).implications@.wf(),
        old(state).checked.evidence@.binders.len() + abstractions@.len() <= u32::MAX,
    ensures
        bound@ == bound_abstractions(abstractions@, old(state).checked.evidence@.binders.len()),
        all_given(*old(state), *final(state), signature_constraints(abstractions@)),
{
    let mut bound: Vec<DeclarationAbstraction> = Vec::new();
    let ghost first = state.checked.evidence@.binders.len();
    let mut index: usize = 0;
    assert(abstractions@.take(0) =~= Seq::empty());
    proof {
        lemma_none_more(*state);
    }
    while index < abstractions.len()
        invariant
            index <= abstractions.len(),
            old(state).implications@.wf(),
            first == old(state).checked.evidence@.binders.len(),
            first + abstractions@.len() <= u32::MAX,
            signature_constraints(abstractions@.take(index as int)).len() <= index,
            bound@ == bound_abstractions(abstractions@.take(index as int), first),
            all_given(
                *old(state),
                *state,
                signature_constraints(abstractions@.take(index as int)),
            ),
        decreases abstractions.len() - index,
    {
        let ghost taken = abstractions@.take(index + 1);
        let ghost before = abstractions@.take(index as int);
        let ghost middle = *state;
        assert(taken.drop_last() =~= before);
        match abstractions[index] {
            SkolemisedAbstraction::Type { binder, rigid } => {
                bound.push(DeclarationAbstraction::Type { binder, rigid });
            },
            SkolemisedAbstraction::Constraint { constraint } => {
                let binder = state.push_given(constraint);
                bound.push(DeclarationAbstraction::Evidence { constraint, binder });
                proof {
                    lemma_one_more_given(
                        *old(state),
                        middle,
                        *state,
                        signature_constraints(before),
                        constraint,
                        binder,
                    );
                }
            },
            SkolemisedAbstraction::Argument { .. } => {
                bound.push(DeclarationAbstraction::Argument);
            },
        }
        index += 1;
    }
    assert(abstractions@.take(index as int) =~= abstractions@);
    bound
}

/// The arguments among some abstractions, in order.
pub open spec fn signature_arguments(abstractions: Seq<SkolemisedAbstraction>) -> Seq<TypeId>
    decreases abstractions.len(),
{
    if abstractions.len() == 0 {
        Seq::empty()
    } else {
        let before = signature_arguments(abstractions.drop_last());
        match abstractions.last() {
            SkolemisedAbstraction::Argument { argument } => before.push(argument),
            _ => before,
        }
    }
}

/// The signature that equations are checked against.
pub fn equation_signature(
    types: &mut Types,
    abstractions: &Vec<SkolemisedAbstraction>,
    result: TypeId,
) -> (signature: ValueEquationSignature)
    requires
        old(types)@.wf(),
    ensures
        final(types)@.wf(),
        extends(old(types)@, final(types)@),
        (final(types)@, signature.signature) == old(types)@.with_functions(
            signature.arguments@,
            result,
        ),
        signature.arguments@ == signature_arguments(abstractions@),
        signature.result == result,
        final(types)@.is_function(signature.signature, signature.arguments@, result),
{
    let mut arguments: Vec<TypeId> = Vec::new();
    let mut index: usize = 0;
    assert(abstractions@.take(0) =~= Seq::empty());
    while index < abstractions.len()
        invariant
            index <= abstractions.len(),
            arguments@ == signature_arguments(abstractions@.take(index as int)),
        decreases abstractions.len() - index,
    {
        assert(abstractions@.take(index + 1).drop_last() =~= abstractions@.take(index as int));
        if let SkolemisedAbstraction::Argument { argument } = abstractions[index] {
            arguments.push(argument);
        }
        index += 1;
    }
    assert(abstractions@.take(index as int) =~= abstractions@);
    let signature = types.intern_function_list(&arguments, result);
    ValueEquationSignature { signature, arguments, result }
}

/// How the binder of an equation is checked.
#[derive(Clone, Copy, Debug, PartialEq, Eq, Structural)]
pub enum BinderRequest {
    /// Against the type of its column.
    Check(TypeId),
    /// On its own, as the signature has no such argument.
    Infer,
}

/// How the binder at a position is checked.
pub fn binder_request(arguments: &Vec<TypeId>, position: usize) -> (request: BinderRequest)
    ensures
        request == (if position < arguments@.len() {
            BinderRequest::Check(arguments@[position as int])
        } else {
            BinderRequest::Infer
        }),
{
    if position < arguments.len() {
        BinderRequest::Check(arguments[position])
    } else {
        BinderRequest::Infer
    }
}

/// The error for an equation with more binders than the signature has arguments.
pub open spec fn too_many_binders(
    origin: EquationTypeOrigin,
    signature: ValueEquationSignature,
    equation: SourceEquation,
) -> ErrorKind {
    ErrorKind::TooManyBinders {
        signature: match origin {
            EquationTypeOrigin::Explicit(id) => Some(id),
            EquationTypeOrigin::Implicit => None,
        },
        expected: signature.arguments@.len() as u32,
        actual: equation.binders@.len() as u32,
    }
}

/// Reports an equation with more binders than the signature has arguments.
pub fn check_equation_arity(
    state: &mut CheckState,
    origin: EquationTypeOrigin,
    signature: &ValueEquationSignature,
    equation: &SourceEquation,
)
    ensures
        equation.binders@.len() <= signature.arguments@.len() ==> *final(state) == *old(state),
        equation.binders@.len() > signature.arguments@.len() ==> reported(
            *old(state),
            *final(state),
            too_many_binders(origin, *signature, *equation),
        ),
{
    let expected_arity: usize = signature.arguments.len();
    let equation_arity: usize = equation.binders.len();
    if equation_arity > expected_arity {
        let signature = match origin {
            EquationTypeOrigin::Explicit(id) => Some(id),
            EquationTypeOrigin::Implicit => None,
        };
        state.insert_error(
            ErrorKind::TooManyBinders {
                signature,
                expected: expected_arity as u32,
                actual: equation_arity as u32,
            },
        );
    }
}

/// The type is what is left of the signature behind the binders of an equation.
pub open spec fn is_guarded_type(
    store: TypeStore,
    signature: ValueEquationSignature,
    equation_arity: nat,
    id: TypeId,
) -> bool {
    if equation_arity == 0 {
        id == signature.signature
    } else if equation_arity >= signature.arguments@.len() {
        id == signature.result
    } else {
        store.is_function(
            id,
            signature.arguments@.skip(equation_arity as int),
            signature.result,
        )
    }
}

/// The type of an equation's right side: what is left of the signature behind
/// its binders.
pub fn expected_guarded_type(
    types: &mut Types,
    signature: &ValueEquationSignature,
    equation_arity: usize,
) -> (id: TypeId)
    requires
        old(types)@.wf(),
    ensures
        final(types)@.wf(),
        extends(old(types)@, final(types)@),
        final(types)@ == (if 0 < equation_arity < signature.arguments@.len() {
            old(types)@.with_functions(
                signature.arguments@.skip(equation_arity as int),
                signature.result,
            ).0
        } else {
            old(types)@
        }),
        is_guarded_type(final(types)@, *signature, equation_arity as nat, id),
{
    let expected_arity: usize = signature.arguments.len();
    if equation_arity == 0 {
        signature.signature
    } else if equation_arity >= expected_arity {
        signature.result
    } else {
        types.intern_function_from(&signature.arguments, equation_arity, signature.result)
    }
}

/// An unconditional error in place of a right side that is missing.
pub fn missing_guarded_expression(state: &mut CheckState, type_id: TypeId) -> (guarded:
    GuardedExpression)
    requires
        old(state).checked.tree@.expressions.len() <= u32::MAX,
    ensures
        grown_by(*old(state), *final(state), 1),
        guarded.alternatives@.len() == 1,
        guarded.alternatives@[0].pattern_guards@.len() == 0,
        is_plain(
            guarded.alternatives@[0].where_expression,
            old(state).checked.tree@.next_expression(),
        ),
        stands(
            final(state).checked.tree@,
            old(state).checked.tree@.next_expression(),
            type_id,
            ExpressionKind::Error,
        ),
{
    let expression = state.allocate_error_expression(type_id);
    GuardedExpression::unconditional(WhereExpression::new(expression))
}

/// The binders of all equations with their columns, row by row.
pub open spec fn pattern_columns(equations: Seq<SourceEquation>) -> Seq<(usize, SourceBinderId)>
    decreases equations.len(),
{
    if equations.len() == 0 {
        Seq::empty()
    } else {
        pattern_columns(equations.drop_last()) + enumerated(equations.last().binders@)
    }
}

/// The values of a list with their positions.
pub open spec fn enumerated(binders: Seq<SourceBinderId>) -> Seq<(usize, SourceBinderId)> {
    Seq::new(binders.len(), |i: int| (i as usize, binders[i]))
}

/// Adds the values of a list with their positions to another list.
pub fn push_enumerated(
    columns: &mut Vec<(usize, SourceBinderId)>,
    binders: &Vec<SourceBinderId>,
)
    ensures
        final(columns)@ == old(columns)@ + enumerated(binders@),
{
    let mut index: usize = 0;
    assert(columns@ =~= old(columns)@ + enumerated(binders@).take(0));
    while index < binders.len()
        invariant
            index <= binders.len(),
            columns@ == old(columns)@ + enumerated(binders@).take(index as int),
        decreases binders.len() - index,
    {
        columns.push((index, binders[index]));
        assert(columns@ =~= old(columns)@ + enumerated(binders@).take(index + 1));
        index += 1;
    }
    assert(enumerated(binders@).take(index as int) =~= enumerated(binders@));
}

/// The binders whose types the columns of patterns take part in.
pub fn instantiate_pattern_arguments(equations: &Vec<SourceEquation>) -> (columns: Vec<
    (usize, SourceBinderId),
>)
    ensures
        columns@ == pattern_columns(equations@),
{
    let mut columns: Vec<(usize, SourceBinderId)> = Vec::new();
    let mut index: usize = 0;
    assert(equations@.take(0) =~= Seq::empty());
    while index < equations.len()
        invariant
            index <= equations.len(),
            columns@ == pattern_columns(equations@.take(index as int)),
        decreases equations.len() - index,
    {
        assert(equations@.take(index + 1).drop_last() =~= equations@.take(index as int));
        push_enumerated(&mut columns, &equations[index].binders);
        index += 1;
    }
    assert(equations@.take(index as int) =~= equations@);
    columns
}

// Groups of equations

/// How far the equations of a group have been elaborated: the ones that are done,
/// and the binders of the one that is under way, with their types.
#[derive(Debug)]
pub struct EquationProgress {
    pub elaborated: Vec<ElaboratedEquation>,
    pub binders: Vec<BinderId>,
    pub arguments: Vec<TypeId>,
}

/// What is to be done next with the equations of a group whose type is known.
#[derive(Clone, Copy, Debug, PartialEq, Eq, Structural)]
pub enum CheckEquationStep {
    CheckBinder { binder: SourceBinderId, expected: TypeId },
    InferBinder { binder: SourceBinderId },
    /// What stands behind the binders is checked.
    CheckBody { equation: usize, expected: TypeId },
    /// Nothing stands behind the binders: there is an error in that place.
    MissingBody { equation: usize, expected: TypeId },
    Done,
}

/// What is to be done next with the equations of a group whose type is inferred.
#[allow(inconsistent_fields)]
#[derive(Clone, Copy, Debug, PartialEq, Eq, Structural)]
pub enum InferEquationStep {
    InferBinder { binder: SourceBinderId },
    /// The type of the equation has to be a subtype of the group's; then what
    /// stands behind the binders is checked.
    CheckBody { equation: usize, inferred: TypeId, expected: TypeId },
    /// The type of the equation has to be a subtype of the group's. Nothing stands
    /// behind the binders: there is an error in that place.
    MissingBody { equation: usize, inferred: TypeId, expected: TypeId },
    Done,
}

impl EquationProgress {
    /// The equations that are done, and the binders of the next one, are those of
    /// the source, in order.
    pub open spec fn follows(self, equations: Seq<SourceEquation>) -> bool {
        &&& self.elaborated@.len() <= equations.len()
        &&& forall|i: int|
            0 <= i < self.elaborated@.len() ==> {
                &&& (#[trigger] self.elaborated@[i]).source == equations[i].source
                &&& self.elaborated@[i].binders@.len() == equations[i].binders@.len()
            }
        &&& self.binders@.len() == self.arguments@.len()
        &&& if self.elaborated@.len() < equations.len() {
            self.binders@.len() <= equations[self.elaborated@.len() as int].binders@.len()
        } else {
            self.binders@.len() == 0
        }
    }

    pub fn new() -> (progress: EquationProgress)
        ensures
            progress.elaborated@.len() == 0,
            progress.binders@.len() == 0,
            progress.arguments@.len() == 0,
            forall|equations: Seq<SourceEquation>| #[trigger] progress.follows(equations),
    {
        EquationProgress { elaborated: Vec::new(), binders: Vec::new(), arguments: Vec::new() }
    }

    /// One more binder of the equation under way has been elaborated.
    pub fn push_binder(&mut self, binder: BinderId, type_id: TypeId)
        ensures
            final(self).elaborated == old(self).elaborated,
            final(self).binders@ == old(self).binders@.push(binder),
            final(self).arguments@ == old(self).arguments@.push(type_id),
            forall|equations: Seq<SourceEquation>| #[trigger]
                old(self).follows(equations) && old(self).elaborated@.len() < equations.len()
                    && old(self).binders@.len()
                    < equations[old(self).elaborated@.len() as int].binders@.len()
                    ==> final(self).follows(equations),
    {
        self.binders.push(binder);
        self.arguments.push(type_id);
    }

    /// The equation under way is done.
    pub fn push_body(&mut self, equation: &SourceEquation, guarded: GuardedExpression)
        ensures
            final(self).elaborated@ == old(self).elaborated@.push(
                ElaboratedEquation {
                    source: equation.source,
                    binders: old(self).binders,
                    guarded,
                },
            ),
            final(self).binders@.len() == 0,
            final(self).arguments@.len() == 0,
            forall|equations: Seq<SourceEquation>| #[trigger]
                old(self).follows(equations) && old(self).elaborated@.len() < equations.len()
                    && equations[old(self).elaborated@.len() as int] == *equation
                    && old(self).binders@.len() == equation.binders@.len()
                    ==> final(self).follows(equations),
    {
        let ghost before = *self;
        let mut binders: Vec<BinderId> = Vec::new();
        std::mem::swap(&mut self.binders, &mut binders);
        self.arguments.clear();
        self.elaborated.push(ElaboratedEquation { source: equation.source, binders, guarded });
        assert forall|equations: Seq<SourceEquation>| #[trigger]
            before.follows(equations) && before.elaborated@.len() < equations.len()
                && equations[before.elaborated@.len() as int] == *equation
                && before.binders@.len() == equation.binders@.len() implies self.follows(
            equations,
        ) by {
            assert forall|i: int| 0 <= i < self.elaborated@.len() implies (
            #[trigger] self.elaborated@[i]).source == equations[i].source
                && self.elaborated@[i].binders@.len() == equations[i].binders@.len() by {
                if i < before.elaborated@.len() {
                    assert(self.elaborated@[i] == before.elaborated@[i]);
                }
            }
        }
    }

    /// All equations are done.
    pub fn finish(
        self,
        patterns: ValueEquationPatterns,
        abstractions: Vec<DeclarationAbstraction>,
    ) -> (checked: CheckedValueEquations)
        ensures
            checked == (CheckedValueEquations {
                patterns,
                abstractions,
                equations: self.elaborated,
            }),
    {
        CheckedValueEquations { patterns, abstractions, equations: self.elaborated }
    }
}

/// What is to be done next with the equations of a group whose type is known. An
/// equation with more binders than its type has arguments is reported as its first
/// binder comes up; the binders without an argument are inferred.
pub fn check_equations_step(
    state: &mut CheckState,
    types: &mut Types,
    origin: EquationTypeOrigin,
    signature: &ValueEquationSignature,
    patterns: &ValueEquationPatterns,
    equations: &Vec<SourceEquation>,
    progress: &EquationProgress,
) -> (step: CheckEquationStep)
    requires
        progress.follows(equations@),
        old(types)@.wf(),
    ensures
        final(types)@.wf(),
        extends(old(types)@, final(types)@),
        ({
            let count = progress.elaborated@.len();
            let position = progress.binders@.len();
            if count == equations@.len() {
                &&& step == CheckEquationStep::Done
                &&& *final(state) == *old(state)
                &&& final(types)@ == old(types)@
            } else if position < equations@[count as int].binders@.len() {
                let equation = equations@[count as int];
                let binder = equation.binders@[position as int];
                &&& step == (if position < patterns@.len() {
                    CheckEquationStep::CheckBinder { binder, expected: patterns@[position as int] }
                } else {
                    CheckEquationStep::InferBinder { binder }
                })
                &&& final(types)@ == old(types)@
                &&& if position == 0 && equation.binders@.len() > signature.arguments@.len() {
                    reported(
                        *old(state),
                        *final(state),
                        too_many_binders(origin, *signature, equation),
                    )
                } else {
                    *final(state) == *old(state)
                }
            } else {
                &&& *final(state) == *old(state)
                &&& exists|expected: TypeId| #[trigger]
                    is_guarded_type(final(types)@, *signature, position, expected) && step == (
                    if equations@[count as int].has_guarded {
                        CheckEquationStep::CheckBody { equation: count as usize, expected }
                    } else {
                        CheckEquationStep::MissingBody { equation: count as usize, expected }
                    })
            }
        }),
{
    let count: usize = progress.elaborated.len();
    if count == equations.len() {
        return CheckEquationStep::Done;
    }
    let equation = &equations[count];
    let position: usize = progress.binders.len();
    if position == equation.binders.len() {
        let expected = expected_guarded_type(types, signature, position);
        if equation.has_guarded {
            return CheckEquationStep::CheckBody { equation: count, expected };
        }
        return CheckEquationStep::MissingBody { equation: count, expected };
    }
    if position == 0 {
        check_equation_arity(state, origin, signature, equation);
    }
    let binder = equation.binders[position];
    match binder_request(patterns, position) {
        BinderRequest::Check(expected) => CheckEquationStep::CheckBinder { binder, expected },
        BinderRequest::Infer => CheckEquationStep::InferBinder { binder },
    }
}

/// No equation has fewer binders than the smallest arity.
proof fn lemma_smallest_arity(equations: Seq<SourceEquation>, index: int)
    requires
        0 <= index < equations.len(),
    ensures
        smallest_arity(equations) <= equations[index].binders@.len(),
    decreases equations.len(),
{
    if equations.len() > 1 && index < equations.len() - 1 {
        lemma_smallest_arity(equations.drop_last(), index);
    }
}

/// What is to be done next with the equations of a group whose type is inferred.
/// The type of an equation takes as many arguments as every equation has.
pub fn infer_equations_step(
    types: &mut Types,
    minimum: usize,
    result: TypeId,
    equations: &Vec<SourceEquation>,
    progress: &EquationProgress,
) -> (step: InferEquationStep)
    requires
        progress.follows(equations@),
        minimum == smallest_arity(equations@),
        old(types)@.wf(),
    ensures
        final(types)@.wf(),
        extends(old(types)@, final(types)@),
        ({
            let count = progress.elaborated@.len();
            let position = progress.binders@.len();
            if count == equations@.len() {
                step == InferEquationStep::Done && final(types)@ == old(types)@
            } else if position < equations@[count as int].binders@.len() {
                &&& step == (InferEquationStep::InferBinder {
                    binder: equations@[count as int].binders@[position as int],
                })
                &&& final(types)@ == old(types)@
            } else {
                let arguments = progress.arguments@.take(minimum as int);
                exists|inferred: TypeId| #[trigger]
                    final(types)@.is_function(inferred, arguments, result) && step == (
                    if equations@[count as int].has_guarded {
                        InferEquationStep::CheckBody {
                            equation: count as usize,
                            inferred,
                            expected: result,
                        }
                    } else {
                        InferEquationStep::MissingBody {
                            equation: count as usize,
                            inferred,
                            expected: result,
                        }
                    })
            }
        }),
{
    let count: usize = progress.elaborated.len();
    if count == equations.len() {
        return InferEquationStep::Done;
    }
    let equation = &equations[count];
    let position: usize = progress.binders.len();
    if position < equation.binders.len() {
        return InferEquationStep::InferBinder { binder: equation.binders[position] };
    }
    proof {
        lemma_smallest_arity(equations@, count as int);
    }
    let inferred = inferred_equation_type(types, &progress.arguments, minimum, result);
    if equation.has_guarded {
        InferEquationStep::CheckBody { equation: count, inferred, expected: result }
    } else {
        InferEquationStep::MissingBody { equation: count, inferred, expected: result }
    }
}

} // verus!
