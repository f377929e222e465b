//! What holds of the requests to the printer of types.

use super::super::evidence::{Evidence, EvidenceId, EvidenceState, EvidenceVarId};
use super::super::state::last_text;
use super::super::tree::{
    entry, BinderId, BinderKind, CaseAlternative, ClassDeclaration, ClassMember, ClassSuperclass,
    DataDeclaration, DeclarationAbstraction, Equation, ExpressionId, ExpressionKind,
    GuardedAlternative, GuardedExpression, InstanceDeclaration, InstanceEvidence,
    InstanceImplementation, InstanceMember, InstanceSuperclass, LetBindingChunk, LetBindings,
    LocalDeclarationId, PatternGuard, RecordBinderField, RecordExpressionField,
    RecordExpressionUpdate, TermDeclarationId, TermDeclarationKind, TypeDeclarationKind,
    ValueDeclaration, WhereExpression,
};
use super::super::types::{FileId, ForallBinderId, Type, TypeId};
use super::declarations::{
    constructor_doc, is_enclosed, name_docs, quantifier_docs, with_fields,
    with_parameters, ParameterName,
};
use super::evidence::{
    members_of, members_reserved, module_names, source_declaration, source_text, Named, Printed,
};
use super::expressions::{
    abstracted, accessed, equation_doc, is_unguarded, lambda_docs, or_error, where_doc,
    with_result, ExpressionPrecedence, RigidName,
};
use super::layout::{joined, Doc};
use super::module::{keyword_of, Declarations};
use super::names::display_name;
use super::patterns::answered;
use super::printer::{Printer, TypeRequest};
use crate::indexing::items::{InstanceSourceItemId, OrderedTermItemId, TermItemId, TypeItemId};
use vstd::prelude::*;

verus! {

/// The request is answered by a text.
pub open spec fn has_answer(request: TypeRequest) -> bool {
    match request {
        TypeRequest::Render { .. } => true,
        TypeRequest::RenderAlone { .. } => true,
        TypeRequest::KindSignature { .. } => true,
        TypeRequest::DisplayName { .. } => true,
        _ => false,
    }
}

/// A scope of names began with the request.
pub open spec fn is_scope(requests: Seq<TypeRequest>, scope: usize) -> bool {
    scope < requests.len() && (requests[scope as int] is Begin || requests[scope as int] is Fork)
}

/// The request refers to scopes and names that earlier ones have made.
pub open spec fn fits(requests: Seq<TypeRequest>, request: TypeRequest) -> bool {
    match request {
        TypeRequest::Begin { .. } => true,
        TypeRequest::RenderAlone { .. } => true,
        TypeRequest::Fork { scope } => is_scope(requests, scope),
        TypeRequest::Render { scope, .. } => is_scope(requests, scope),
        TypeRequest::KindSignature { scope, .. } => is_scope(requests, scope),
        TypeRequest::DisplayName { scope, .. } => is_scope(requests, scope),
        TypeRequest::Allocate { scope, .. } => is_scope(requests, scope),
        TypeRequest::Assign { scope, display, .. } => is_scope(requests, scope) && display
            < requests.len() && requests[display as int] is DisplayName,
    }
}

/// Every request refers to earlier ones only.
pub open spec fn in_order(requests: Seq<TypeRequest>) -> bool {
    forall|i: int|
        0 <= i < requests.len() ==> fits(requests.take(i), #[trigger] requests[i])
}

/// Every text that is filled in later is the answer to a request.
pub open spec fn is_answered(document: Doc, requests: Seq<TypeRequest>) -> bool
    decreases document,
{
    match document {
        Doc::Answer(number) => number < requests.len() && has_answer(requests[number as int]),
        Doc::Append(first, second) => is_answered(*first, requests) && is_answered(
            *second,
            requests,
        ),
        Doc::Nest(_, inner) => is_answered(*inner, requests),
        Doc::Group(inner) => is_answered(*inner, requests),
        _ => true,
    }
}

/// The requests can be counted, and then they are in order.
spec fn ok(state: Printed) -> bool {
    state.requests.len() <= usize::MAX ==> in_order(state.requests)
}

/// The scope can be asked about.
spec fn ready(state: Printed, scope: usize) -> bool {
    state.requests.len() <= usize::MAX ==> in_order(state.requests) && is_scope(
        state.requests,
        scope,
    )
}

/// The document can be filled in.
spec fn sound(state: Printed, document: Doc) -> bool {
    state.requests.len() <= usize::MAX ==> in_order(state.requests) && is_answered(
        document,
        state.requests,
    )
}

/// The documents can be filled in.
spec fn all_sound(state: Printed, documents: Seq<Doc>) -> bool {
    state.requests.len() <= usize::MAX ==> in_order(state.requests) && forall|i: int|
        0 <= i < documents.len() ==> is_answered(#[trigger] documents[i], state.requests)
}

/// More may have been asked since.
spec fn later(before: Printed, after: Printed) -> bool {
    before.requests.is_prefix_of(after.requests)
}

proof fn lemma_answered_later(document: Doc, before: Seq<TypeRequest>, after: Seq<TypeRequest>)
    requires
        before.is_prefix_of(after),
        is_answered(document, before),
    ensures
        is_answered(document, after),
    decreases document,
{
    match document {
        Doc::Answer(number) => {
            assert(after[number as int] == before[number as int]);
        },
        Doc::Append(first, second) => {
            lemma_answered_later(*first, before, after);
            lemma_answered_later(*second, before, after);
        },
        Doc::Nest(_, inner) => lemma_answered_later(*inner, before, after),
        Doc::Group(inner) => lemma_answered_later(*inner, before, after),
        _ => {},
    }
}

proof fn lemma_later(first: Printed, second: Printed, third: Printed)
    requires
        later(first, second),
        later(second, third),
    ensures
        later(first, third),
{
    assert forall|i: int| 0 <= i < first.requests.len() implies first.requests[i]
        == third.requests[i] by {
        assert(first.requests[i] == second.requests[i]);
    }
    assert(first.requests =~= third.requests.subrange(0, first.requests.len() as int));
}

/// A scope stays one.
proof fn lemma_ready(before: Printed, after: Printed, scope: usize)
    requires
        ready(before, scope),
        later(before, after),
        ok(after),
    ensures
        ready(after, scope),
{
    if after.requests.len() <= usize::MAX {
        assert(after.requests[scope as int] == before.requests[scope as int]);
    }
}

/// What can be filled in still can be.
proof fn lemma_sound(before: Printed, after: Printed, document: Doc)
    requires
        sound(before, document),
        later(before, after),
        ok(after),
    ensures
        sound(after, document),
{
    if after.requests.len() <= usize::MAX {
        lemma_answered_later(document, before.requests, after.requests);
    }
}

proof fn lemma_all_sound(before: Printed, after: Printed, documents: Seq<Doc>)
    requires
        all_sound(before, documents),
        later(before, after),
        ok(after),
    ensures
        all_sound(after, documents),
{
    if after.requests.len() <= usize::MAX {
        assert forall|i: int| 0 <= i < documents.len() implies is_answered(
            #[trigger] documents[i],
            after.requests,
        ) by {
            lemma_answered_later(documents[i], before.requests, after.requests);
        }
    }
}

/// A document behind others.
proof fn lemma_push(
    first: Printed,
    second: Printed,
    third: Printed,
    documents: Seq<Doc>,
    document: Doc,
)
    requires
        later(first, second),
        all_sound(second, documents),
        later(second, third),
        sound(third, document),
    ensures
        later(first, third),
        all_sound(third, documents.push(document)),
{
    lemma_later(first, second, third);
    lemma_all_sound(second, third, documents);
}

/// One more request.
proof fn lemma_ask(state: Printed, request: TypeRequest)
    requires
        ok(state),
        state.requests.len() <= usize::MAX ==> fits(state.requests, request),
    ensures
        later(state, state.asked(request)),
        ok(state.asked(request)),
        has_answer(request) ==> sound(state.asked(request), answered(state)),
        (request is Begin || request is Fork) ==> ready(
            state.asked(request),
            state.requests.len() as usize,
        ),
{
    let after = state.asked(request);
    assert(state.requests =~= after.requests.subrange(0, state.requests.len() as int));
    if after.requests.len() <= usize::MAX {
        assert forall|i: int| 0 <= i < after.requests.len() implies fits(
            after.requests.take(i),
            #[trigger] after.requests[i],
        ) by {
            if i < state.requests.len() {
                assert(after.requests.take(i) =~= state.requests.take(i));
                assert(after.requests[i] == state.requests[i]);
            } else {
                assert(after.requests.take(i) =~= state.requests);
            }
        }
    }
}

/// Documents with a separator in between can be filled in.
proof fn lemma_joined(state: Printed, documents: Seq<Doc>, separator: Doc)
    requires
        all_sound(state, documents),
        is_answered(separator, state.requests),
    ensures
        sound(state, joined(documents, separator)),
    decreases documents.len(),
{
    if documents.len() > 1 {
        let rest = documents.drop_last();
        assert(all_sound(state, rest)) by {
            assert forall|i: int| 0 <= i < rest.len() && state.requests.len()
                <= usize::MAX implies is_answered(#[trigger] rest[i], state.requests) by {
                assert(documents[i] == rest[i]);
            }
        }
        lemma_joined(state, rest, separator);
        assert(documents.last() == documents[documents.len() - 1]);
        reveal_with_fuel(is_answered, 3);
    } else if documents.len() == 1 {
        assert(joined(documents, separator) == documents[0]);
    }
}

proof fn lemma_abstracted(state: Printed, documents: Seq<Doc>)
    requires
        all_sound(state, documents),
        documents.len() > 0,
    ensures
        sound(state, abstracted(documents)),
    decreases documents.len(),
{
    if documents.len() > 1 {
        let rest = documents.drop_last();
        assert(all_sound(state, rest)) by {
            assert forall|i: int| 0 <= i < rest.len() && state.requests.len()
                <= usize::MAX implies is_answered(#[trigger] rest[i], state.requests) by {
                assert(documents[i] == rest[i]);
            }
        }
        lemma_abstracted(state, rest);
        assert(documents.last() == documents[documents.len() - 1]);
        reveal_with_fuel(is_answered, 5);
    } else {
        assert(abstracted(documents) == documents[0]);
    }
}

proof fn lemma_accessed(state: Printed, record: Doc, labels: Seq<String>)
    requires
        sound(state, record),
    ensures
        sound(state, accessed(record, labels)),
    decreases labels.len(),
{
    if labels.len() > 0 {
        lemma_accessed(state, record, labels.drop_last());
        reveal_with_fuel(is_answered, 3);
    }
}

proof fn lemma_equation(
    state: Printed,
    name: Seq<char>,
    abstractions: Seq<Doc>,
    body: Doc,
    forced: bool,
    lambda: bool,
)
    requires
        all_sound(state, abstractions),
        sound(state, body),
    ensures
        sound(state, equation_doc(name, abstractions, body, forced, lambda)),
{
    if abstractions.len() > 0 {
        lemma_abstracted(state, abstractions);
    }
    reveal_with_fuel(is_answered, 8);
}

// Evidence asks for nothing

impl<'a> Printer<'a> {
    proof fn lemma_evidence_quiet(self, state: Printed, evidence: Evidence, depth: nat)
        ensures
            self.evidence_shown(state, evidence, depth).state.requests == state.requests,
        decreases depth, 1nat, 0nat,
    {
        match evidence {
            Evidence::Variable(variable) => self.lemma_variable_quiet(state, variable, depth),
            Evidence::Instance { origin, subgoals } => {
                let (dictionaries, name) = self.dictionary_named(origin, state.dictionaries);
                self.lemma_subgoals_quiet(
                    Named { state: Printed { dictionaries, ..state }, text: name },
                    subgoals@,
                    subgoals@.len(),
                    depth,
                );
            },
            Evidence::Superclass { parent, .. } => self.lemma_proof_quiet(state, parent, depth),
            _ => {},
        }
    }

    proof fn lemma_proof_quiet(self, state: Printed, proof_id: EvidenceId, depth: nat)
        ensures
            self.proof_shown(state, proof_id, depth).state.requests == state.requests,
        decreases depth, 0nat, 0nat,
    {
        let proofs = self.own.checked.evidence@.proofs;
        if depth > 0 && proof_id.raw < proofs.len() {
            self.lemma_evidence_quiet(state, proofs[proof_id.raw as int], (depth - 1) as nat);
        }
    }

    proof fn lemma_variable_quiet(self, state: Printed, variable: EvidenceVarId, depth: nat)
        ensures
            self.variable_shown(state, variable, depth).state.requests == state.requests,
        decreases depth, 0nat, 1nat,
    {
        let variables = self.own.checked.evidence@.variables;
        if variable.raw < variables.len() {
            match variables[variable.raw as int] {
                EvidenceState::Solved(id) => self.lemma_proof_quiet(state, id, depth),
                _ => {},
            }
        }
    }

    proof fn lemma_subgoals_quiet(
        self,
        instance: Named,
        subgoals: Seq<EvidenceVarId>,
        count: nat,
        depth: nat,
    )
        ensures
            self.subgoals_shown(instance, subgoals, count, depth).state.requests
                == instance.state.requests,
        decreases depth, 0nat, count + 2,
    {
        if count > 0 && count <= subgoals.len() {
            let before = self.subgoals_shown(instance, subgoals, (count - 1) as nat, depth);
            self.lemma_subgoals_quiet(instance, subgoals, (count - 1) as nat, depth);
            self.lemma_variable_quiet(before.state, subgoals[count - 1], depth);
        }
    }

    proof fn lemma_abstractions_quiet(
        self,
        state: Printed,
        abstractions: Seq<DeclarationAbstraction>,
        count: nat,
    )
        ensures
            self.evidence_begun(state, abstractions, count).requests == state.requests,
            self.evidence_listed(state, abstractions, count).state.requests == state.requests,
            ok(state) ==> all_sound(
                self.evidence_listed(state, abstractions, count).state,
                self.evidence_listed(state, abstractions, count).docs,
            ),
        decreases count,
    {
        if count > 0 && count <= abstractions.len() {
            self.lemma_abstractions_quiet(state, abstractions, (count - 1) as nat);
        }
    }

    // Patterns

    proof fn lemma_pattern(self, state: Printed, id: BinderId, scope: usize, depth: nat)
        requires
            ready(state, scope),
        ensures
            later(state, self.pattern(state, id, scope, depth).state),
            sound(
                self.pattern(state, id, scope, depth).state,
                self.pattern(state, id, scope, depth).doc,
            ),
        decreases depth, 0nat, 0nat,
    {
        reveal_with_fuel(is_answered, 7);
        match self.own.checked.tree@.binder_at(id) {
            Some(binder) if depth > 0 => {
                let inner = (depth - 1) as nat;
                match binder.kind {
                    BinderKind::Typed { binder, annotation } => {
                        let laid = self.pattern(state, binder, scope, inner);
                        let request = TypeRequest::Render { scope, type_id: annotation };
                        self.lemma_pattern(state, binder, scope, inner);
                        lemma_ready(state, laid.state, scope);
                        lemma_ask(laid.state, request);
                        lemma_sound(laid.state, laid.state.asked(request), laid.doc);
                        lemma_later(state, laid.state, laid.state.asked(request));
                    },
                    BinderKind::Named { binder, .. } => {
                        self.lemma_pattern(state, binder, scope, inner);
                    },
                    BinderKind::Array { elements } => {
                        let listed = self.patterns(
                            state,
                            elements@,
                            elements@.len(),
                            scope,
                            inner,
                        );
                        self.lemma_patterns(state, elements@, elements@.len(), scope, inner);
                        lemma_joined(listed.state, listed.docs, Doc::Text(", "@));
                    },
                    BinderKind::Record { fields } => {
                        let listed = self.pattern_fields(
                            state,
                            fields@,
                            fields@.len(),
                            scope,
                            inner,
                        );
                        self.lemma_pattern_fields(state, fields@, fields@.len(), scope, inner);
                        lemma_joined(listed.state, listed.docs, Doc::Text(", "@));
                    },
                    BinderKind::Constructor { arguments, .. } => {
                        let listed = self.patterns(
                            state,
                            arguments@,
                            arguments@.len(),
                            scope,
                            inner,
                        );
                        self.lemma_patterns(state, arguments@, arguments@.len(), scope, inner);
                        lemma_joined(listed.state, listed.docs, Doc::Text(" "@));
                    },
                    _ => {},
                }
            },
            _ => {},
        }
    }

    proof fn lemma_patterns(
        self,
        state: Printed,
        ids: Seq<BinderId>,
        count: nat,
        scope: usize,
        depth: nat,
    )
        requires
            ready(state, scope),
        ensures
            later(state, self.patterns(state, ids, count, scope, depth).state),
            all_sound(
                self.patterns(state, ids, count, scope, depth).state,
                self.patterns(state, ids, count, scope, depth).docs,
            ),
        decreases depth, 1nat, count,
    {
        if count > 0 && count <= ids.len() {
            let before = self.patterns(state, ids, (count - 1) as nat, scope, depth);
            let laid = self.pattern(before.state, ids[count - 1], scope, depth);
            self.lemma_patterns(state, ids, (count - 1) as nat, scope, depth);
            lemma_ready(state, before.state, scope);
            self.lemma_pattern(before.state, ids[count - 1], scope, depth);
            lemma_push(state, before.state, laid.state, before.docs, laid.doc);
        }
    }

    proof fn lemma_pattern_fields(
        self,
        state: Printed,
        fields: Seq<RecordBinderField>,
        count: nat,
        scope: usize,
        depth: nat,
    )
        requires
            ready(state, scope),
        ensures
            later(state, self.pattern_fields(state, fields, count, scope, depth).state),
            all_sound(
                self.pattern_fields(state, fields, count, scope, depth).state,
                self.pattern_fields(state, fields, count, scope, depth).docs,
            ),
        decreases depth, 1nat, count,
    {
        if count > 0 && count <= fields.len() {
            let before = self.pattern_fields(state, fields, (count - 1) as nat, scope, depth);
            self.lemma_pattern_fields(state, fields, (count - 1) as nat, scope, depth);
            lemma_ready(state, before.state, scope);
            match fields[count - 1] {
                RecordBinderField::Field { label, binder } => {
                    let laid = self.pattern(before.state, binder, scope, depth);
                    let doc = Doc::Text(label@ + ": "@).append(laid.doc);
                    self.lemma_pattern(before.state, binder, scope, depth);
                    reveal_with_fuel(is_answered, 2);
                    lemma_push(state, before.state, laid.state, before.docs, doc);
                },
                RecordBinderField::Pun { label } => {
                    lemma_push(
                        state,
                        before.state,
                        before.state,
                        before.docs,
                        Doc::Text(label@),
                    );
                },
            }
        }
    }

    proof fn lemma_pattern_laid(self, state: Printed, id: BinderId, scope: usize)
        requires
            ready(state, scope),
        ensures
            later(state, self.pattern_laid(state, id, scope).state),
            sound(
                self.pattern_laid(state, id, scope).state,
                self.pattern_laid(state, id, scope).doc,
            ),
            ready(self.pattern_laid(state, id, scope).state, scope),
    {
        self.lemma_pattern(state, id, scope, self.pattern_depth());
        lemma_ready(state, self.pattern_laid(state, id, scope).state, scope);
    }

    proof fn lemma_patterns_laid(self, state: Printed, ids: Seq<BinderId>, scope: usize)
        requires
            ready(state, scope),
        ensures
            later(state, self.patterns_laid(state, ids, scope).state),
            all_sound(
                self.patterns_laid(state, ids, scope).state,
                self.patterns_laid(state, ids, scope).docs,
            ),
            ready(self.patterns_laid(state, ids, scope).state, scope),
    {
        self.lemma_patterns(state, ids, ids.len(), scope, self.pattern_depth());
        lemma_ready(state, self.patterns_laid(state, ids, scope).state, scope);
    }

    // Expressions

    proof fn lemma_expression(
        self,
        state: Printed,
        id: ExpressionId,
        required: ExpressionPrecedence,
        scope: usize,
        depth: nat,
    )
        requires
            ready(state, scope),
        ensures
            ({
                let laid = self.expression_laid(state, id, required, scope, depth);
                later(state, laid.state) && sound(laid.state, laid.doc) && ready(
                    laid.state,
                    scope,
                )
            }),
        decreases depth, 1nat, self, 0nat,
    {
        reveal_with_fuel(is_answered, 5);
        match self.own.checked.tree@.expression_at(id) {
            Some(expression) => {
                self.lemma_kind(
                    state,
                    expression.kind,
                    !(required is Application),
                    scope,
                    depth,
                );
            },
            None => {},
        }
        lemma_ready(
            state,
            self.expression_laid(state, id, required, scope, depth).state,
            scope,
        );
    }

    proof fn lemma_plain(self, state: Printed, id: ExpressionId, scope: usize, depth: nat)
        requires
            ready(state, scope),
        ensures
            ({
                let laid = self.plain_laid(state, id, scope, depth);
                later(state, laid.state) && sound(laid.state, laid.doc) && ready(
                    laid.state,
                    scope,
                )
            }),
        decreases depth, 2nat, self, 0nat,
    {
        self.lemma_expression(state, id, ExpressionPrecedence::Abstraction, scope, depth);
    }

    #[verifier::rlimit(60)]
    proof fn lemma_kind(
        self,
        state: Printed,
        kind: ExpressionKind,
        allow_block: bool,
        scope: usize,
        depth: nat,
    )
        requires
            ready(state, scope),
        ensures
            ({
                let laid = self.kind_laid(state, kind, allow_block, scope, depth);
                later(state, laid.state) && sound(laid.state, laid.doc)
            }),
        decreases depth, 0nat, self, 0nat,
    {
        if depth > 0 {
            let inner = (depth - 1) as nat;
            match kind {
                ExpressionKind::Array { elements } => {
                    let listed = self.expressions_listed(
                        state,
                        elements@,
                        elements@.len(),
                        scope,
                        inner,
                    );
                    self.lemma_expressions(state, elements@, elements@.len(), scope, inner);
                    lemma_joined(listed.state, listed.docs, Doc::Text(", "@));
                    reveal_with_fuel(is_answered, 4);
                },
                ExpressionKind::Record { fields } => {
                    let listed = self.fields_listed(
                        state,
                        fields@,
                        fields@.len(),
                        scope,
                        inner,
                    );
                    self.lemma_fields(state, fields@, fields@.len(), scope, inner);
                    lemma_joined(listed.state, listed.docs, Doc::Text(", "@));
                    reveal_with_fuel(is_answered, 4);
                },
                ExpressionKind::RecordAccess { record, labels } => {
                    let laid = self.expression_laid(
                        state,
                        record,
                        ExpressionPrecedence::Atom,
                        scope,
                        inner,
                    );
                    self.lemma_expression(state, record, ExpressionPrecedence::Atom, scope, inner);
                    lemma_accessed(laid.state, laid.doc, labels@);
                },
                ExpressionKind::RecordUpdate { record, updates } => {
                    let laid = self.expression_laid(
                        state,
                        record,
                        ExpressionPrecedence::Atom,
                        scope,
                        inner,
                    );
                    let updated = self.updates_laid(laid.state, updates, scope, inner);
                    self.lemma_expression(state, record, ExpressionPrecedence::Atom, scope, inner);
                    self.lemma_updates(laid.state, updates, scope, inner);
                    lemma_sound(laid.state, updated.state, laid.doc);
                    lemma_later(state, laid.state, updated.state);
                    reveal_with_fuel(is_answered, 4);
                },
                ExpressionKind::TermApplication { function, argument } => {
                    self.lemma_application(state, function, argument, allow_block, scope, inner);
                },
                ExpressionKind::EvidenceApplication { function, evidence, .. } => {
                    let applied = self.expression_laid(
                        state,
                        function,
                        ExpressionPrecedence::Application,
                        scope,
                        inner,
                    );
                    self.lemma_expression(
                        state,
                        function,
                        ExpressionPrecedence::Application,
                        scope,
                        inner,
                    );
                    self.lemma_evidence_quiet(
                        applied.state,
                        Evidence::Variable(evidence),
                        self.evidence_depth(),
                    );
                    reveal_with_fuel(is_answered, 3);
                },
                ExpressionKind::EvidenceAbstraction { binder, expression } => {
                    let named = self.binder_named(state, binder);
                    self.lemma_plain(named.state, expression, scope, inner);
                    reveal_with_fuel(is_answered, 6);
                },
                ExpressionKind::Lambda { binders, expression } => {
                    let listed = self.patterns_laid(state, binders@, scope);
                    let body = self.plain_laid(listed.state, expression, scope, inner);
                    self.lemma_patterns_laid(state, binders@, scope);
                    self.lemma_plain(listed.state, expression, scope, inner);
                    lemma_all_sound(listed.state, body.state, listed.docs);
                    lemma_joined(body.state, listed.docs, Doc::Text(" "@));
                    lemma_later(state, listed.state, body.state);
                    reveal_with_fuel(is_answered, 7);
                },
                ExpressionKind::IfThenElse { condition, then, else_ } => {
                    let first = self.plain_laid(state, condition, scope, inner);
                    let second = self.plain_laid(first.state, then, scope, inner);
                    let third = self.plain_laid(second.state, else_, scope, inner);
                    self.lemma_plain(state, condition, scope, inner);
                    self.lemma_plain(first.state, then, scope, inner);
                    self.lemma_plain(second.state, else_, scope, inner);
                    lemma_later(first.state, second.state, third.state);
                    lemma_later(state, first.state, third.state);
                    lemma_sound(first.state, third.state, first.doc);
                    lemma_sound(second.state, third.state, second.doc);
                    reveal_with_fuel(is_answered, 10);
                },
                ExpressionKind::Case { scrutinees, alternatives } => {
                    let first = self.expressions_listed(
                        state,
                        scrutinees@,
                        scrutinees@.len(),
                        scope,
                        inner,
                    );
                    let second = self.cases_listed(
                        first.state,
                        alternatives@,
                        alternatives@.len(),
                        scope,
                        inner,
                    );
                    self.lemma_expressions(state, scrutinees@, scrutinees@.len(), scope, inner);
                    self.lemma_cases(first.state, alternatives@, alternatives@.len(), scope, inner);
                    lemma_later(state, first.state, second.state);
                    lemma_all_sound(first.state, second.state, first.docs);
                    lemma_joined(second.state, first.docs, Doc::Text(", "@));
                    lemma_joined(second.state, second.docs, Doc::Hardline);
                    reveal_with_fuel(is_answered, 7);
                },
                ExpressionKind::Let { bindings, expression } => {
                    let bound = self.bindings_laid(state, bindings, scope, inner);
                    let body = self.plain_laid(bound.state, expression, scope, inner);
                    self.lemma_bindings(state, bindings, scope, inner);
                    self.lemma_plain(bound.state, expression, scope, inner);
                    lemma_later(state, bound.state, body.state);
                    lemma_sound(bound.state, body.state, bound.doc);
                    reveal_with_fuel(is_answered, 8);
                },
                _ => {},
            }
        }
    }

    proof fn lemma_application(
        self,
        state: Printed,
        function: ExpressionId,
        argument: ExpressionId,
        allow_block: bool,
        scope: usize,
        depth: nat,
    )
        requires
            ready(state, scope),
        ensures
            ({
                let laid = self.kind_laid(
                    state,
                    ExpressionKind::TermApplication { function, argument },
                    allow_block,
                    scope,
                    depth + 1,
                );
                later(state, laid.state) && sound(laid.state, laid.doc)
            }),
        decreases depth, 2nat, self, 0nat,
    {
        let block = allow_block && self.is_block(argument);
        let required = if block {
            ExpressionPrecedence::Abstraction
        } else {
            ExpressionPrecedence::RecordUpdate
        };
        let applied = self.expression_laid(
            state,
            function,
            ExpressionPrecedence::Application,
            scope,
            depth,
        );
        let last = self.expression_laid(applied.state, argument, required, scope, depth);
        self.lemma_expression(state, function, ExpressionPrecedence::Application, scope, depth);
        self.lemma_expression(applied.state, argument, required, scope, depth);
        lemma_later(state, applied.state, last.state);
        lemma_sound(applied.state, last.state, applied.doc);
        reveal_with_fuel(is_answered, 6);
    }

    proof fn lemma_expressions(
        self,
        state: Printed,
        ids: Seq<ExpressionId>,
        count: nat,
        scope: usize,
        depth: nat,
    )
        requires
            ready(state, scope),
        ensures
            ({
                let listed = self.expressions_listed(state, ids, count, scope, depth);
                later(state, listed.state) && all_sound(listed.state, listed.docs) && ready(
                    listed.state,
                    scope,
                )
            }),
        decreases depth, 3nat, self, count,
    {
        if count > 0 && count <= ids.len() {
            let before = self.expressions_listed(state, ids, (count - 1) as nat, scope, depth);
            let laid = self.plain_laid(before.state, ids[count - 1], scope, depth);
            self.lemma_expressions(state, ids, (count - 1) as nat, scope, depth);
            self.lemma_plain(before.state, ids[count - 1], scope, depth);
            lemma_push(state, before.state, laid.state, before.docs, laid.doc);
        }
    }

    proof fn lemma_fields(
        self,
        state: Printed,
        fields: Seq<RecordExpressionField>,
        count: nat,
        scope: usize,
        depth: nat,
    )
        requires
            ready(state, scope),
        ensures
            ({
                let listed = self.fields_listed(state, fields, count, scope, depth);
                later(state, listed.state) && all_sound(listed.state, listed.docs) && ready(
                    listed.state,
                    scope,
                )
            }),
        decreases depth, 3nat, self, count,
    {
        if count > 0 && count <= fields.len() {
            let before = self.fields_listed(state, fields, (count - 1) as nat, scope, depth);
            self.lemma_fields(state, fields, (count - 1) as nat, scope, depth);
            let (label, expression) = match fields[count - 1] {
                RecordExpressionField::Field { label, expression } => (label, expression),
                RecordExpressionField::Pun { label, expression, .. } => (label, expression),
            };
            let laid = self.plain_laid(before.state, expression, scope, depth);
            let doc = Doc::Text(label@ + ": "@).append(laid.doc);
            self.lemma_plain(before.state, expression, scope, depth);
            reveal_with_fuel(is_answered, 2);
            lemma_push(state, before.state, laid.state, before.docs, doc);
            lemma_push(state, before.state, before.state, before.docs, Doc::Text(label@));
        }
    }

    proof fn lemma_updates(
        self,
        state: Printed,
        updates: Vec<RecordExpressionUpdate>,
        scope: usize,
        depth: nat,
    )
        requires
            ready(state, scope),
        ensures
            ({
                let laid = self.updates_laid(state, updates, scope, depth);
                later(state, laid.state) && sound(laid.state, laid.doc) && ready(
                    laid.state,
                    scope,
                )
            }),
        decreases depth, 4nat, updates, updates@.len() + 1,
    {
        if updates@.len() > 0 {
            let listed = self.updates_listed(state, updates, updates@.len(), scope, depth);
            self.lemma_updates_listed(state, updates, updates@.len(), scope, depth);
            lemma_joined(listed.state, listed.docs, Doc::Text(", "@));
            reveal_with_fuel(is_answered, 4);
        }
    }

    proof fn lemma_updates_listed(
        self,
        state: Printed,
        updates: Vec<RecordExpressionUpdate>,
        count: nat,
        scope: usize,
        depth: nat,
    )
        requires
            ready(state, scope),
        ensures
            ({
                let listed = self.updates_listed(state, updates, count, scope, depth);
                later(state, listed.state) && all_sound(listed.state, listed.docs) && ready(
                    listed.state,
                    scope,
                )
            }),
        decreases depth, 4nat, updates, count,
    {
        if count > 0 && count <= updates@.len() {
            let before = self.updates_listed(state, updates, (count - 1) as nat, scope, depth);
            self.lemma_updates_listed(state, updates, (count - 1) as nat, scope, depth);
            reveal_with_fuel(is_answered, 2);
            match updates@[count - 1] {
                RecordExpressionUpdate::Error => {
                    lemma_push(
                        state,
                        before.state,
                        before.state,
                        before.docs,
                        Doc::Text("<error>"@),
                    );
                },
                RecordExpressionUpdate::Leaf { label, expression } => {
                    let laid = self.plain_laid(before.state, expression, scope, depth);
                    let doc = Doc::Text(label@ + " = "@).append(laid.doc);
                    self.lemma_plain(before.state, expression, scope, depth);
                    lemma_push(state, before.state, laid.state, before.docs, doc);
                },
                RecordExpressionUpdate::Branch { label, updates: nested } => {
                    let laid = self.updates_laid(before.state, nested, scope, depth);
                    let doc = Doc::Text(label@ + " "@).append(laid.doc);
                    self.lemma_updates(before.state, nested, scope, depth);
                    lemma_push(state, before.state, laid.state, before.docs, doc);
                },
            }
        }
    }

    proof fn lemma_bindings(
        self,
        state: Printed,
        bindings: LetBindings,
        scope: usize,
        depth: nat,
    )
        requires
            ready(state, scope),
        ensures
            ({
                let laid = self.bindings_laid(state, bindings, scope, depth);
                later(state, laid.state) && sound(laid.state, laid.doc) && ready(
                    laid.state,
                    scope,
                )
            }),
        decreases depth, 6nat, bindings, 0nat,
    {
        let chunks = bindings.chunks;
        let listed = self.chunks_listed(state, chunks, chunks@.len(), scope, depth);
        self.lemma_chunks(state, chunks, chunks@.len(), scope, depth);
        lemma_joined(listed.state, listed.docs, Doc::Hardline);
    }

    #[verifier::rlimit(30)]
    proof fn lemma_chunks(
        self,
        state: Printed,
        chunks: Vec<LetBindingChunk>,
        count: nat,
        scope: usize,
        depth: nat,
    )
        requires
            ready(state, scope),
        ensures
            ({
                let listed = self.chunks_listed(state, chunks, count, scope, depth);
                later(state, listed.state) && all_sound(listed.state, listed.docs) && ready(
                    listed.state,
                    scope,
                )
            }),
        decreases depth, 6nat, chunks, count,
    {
        if count > 0 && count <= chunks@.len() {
            let before = self.chunks_listed(state, chunks, (count - 1) as nat, scope, depth);
            self.lemma_chunks(state, chunks, (count - 1) as nat, scope, depth);
            match chunks@[count - 1] {
                LetBindingChunk::Pattern { binder, where_expression, .. } => {
                    let pattern = self.pattern_laid(before.state, binder, scope);
                    let body = self.where_laid(pattern.state, where_expression, scope, depth);
                    let doc = pattern.doc.then_text(" ="@).append(body.doc.behind()).group();
                    self.lemma_pattern_laid(before.state, binder, scope);
                    self.lemma_where(pattern.state, where_expression, scope, depth);
                    lemma_sound(pattern.state, body.state, pattern.doc);
                    lemma_later(before.state, pattern.state, body.state);
                    reveal_with_fuel(is_answered, 6);
                    lemma_push(state, before.state, body.state, before.docs, doc);
                },
                LetBindingChunk::PatternError { where_expression, .. } => match where_expression {
                    Some(where_expression) => {
                        let body = self.where_laid(before.state, where_expression, scope, depth);
                        let doc = Doc::Text("<error> ="@).append(body.doc.behind()).group();
                        self.lemma_where(before.state, where_expression, scope, depth);
                        reveal_with_fuel(is_answered, 6);
                        lemma_push(state, before.state, body.state, before.docs, doc);
                    },
                    None => {
                        lemma_push(
                            state,
                            before.state,
                            before.state,
                            before.docs,
                            Doc::Text("<error-binding>"@),
                        );
                    },
                },
                LetBindingChunk::Names { declarations, .. } => {
                    let listed = self.locals_listed(
                        before.state,
                        declarations@,
                        declarations@.len(),
                        scope,
                        depth,
                    );
                    self.lemma_locals(
                        before.state,
                        declarations@,
                        declarations@.len(),
                        scope,
                        depth,
                    );
                    lemma_later(state, before.state, listed.state);
                    lemma_all_sound(before.state, listed.state, before.docs);
                },
            }
        }
    }

    proof fn lemma_locals(
        self,
        state: Printed,
        ids: Seq<LocalDeclarationId>,
        count: nat,
        scope: usize,
        depth: nat,
    )
        requires
            ready(state, scope),
        ensures
            ({
                let listed = self.locals_listed(state, ids, count, scope, depth);
                later(state, listed.state) && all_sound(listed.state, listed.docs) && ready(
                    listed.state,
                    scope,
                )
            }),
        decreases depth, 5nat, self, count,
    {
        if count > 0 && count <= ids.len() {
            let before = self.locals_listed(state, ids, (count - 1) as nat, scope, depth);
            let laid = self.local_laid(before.state, ids[count - 1], scope, depth);
            self.lemma_locals(state, ids, (count - 1) as nat, scope, depth);
            self.lemma_local(before.state, ids[count - 1], scope, depth);
            lemma_push(state, before.state, laid.state, before.docs, laid.doc);
        }
    }

    #[verifier::rlimit(30)]
    proof fn lemma_local(
        self,
        state: Printed,
        id: LocalDeclarationId,
        scope: usize,
        depth: nat,
    )
        requires
            ready(state, scope),
        ensures
            ({
                let laid = self.local_laid(state, id, scope, depth);
                later(state, laid.state) && sound(laid.state, laid.doc) && ready(
                    laid.state,
                    scope,
                )
            }),
        decreases depth, 4nat, self, 0nat,
    {
        match self.own.checked.tree@.local_at(id) {
            Some(declaration) if depth > 0 => {
                let name = self.local_text(declaration.source);
                let abstractions = declaration.value.abstractions@;
                let equations = declaration.value.equations@;
                let fork = TypeRequest::Fork { scope };
                let forked = state.asked(fork);
                let own = state.requests.len() as usize;
                let render = TypeRequest::Render { scope: own, type_id: declaration.type_id };
                let signed = forked.asked(render);
                let rigids = self.rigids_named(signed, own, abstractions, abstractions.len());
                let assigned = self.rigids_assigned(
                    rigids.state,
                    own,
                    rigids.names,
                    rigids.names.len(),
                );
                let begun = self.evidence_begun(assigned, abstractions, abstractions.len());
                let listed = self.equations_listed(
                    begun,
                    name,
                    false,
                    abstractions,
                    equations,
                    equations.len(),
                    own,
                    (depth - 1) as nat,
                );
                lemma_ask(state, fork);
                lemma_ask(forked, render);
                lemma_ready(forked, signed, own);
                self.lemma_rigids_named(signed, own, abstractions, abstractions.len());
                self.lemma_rigids_assigned(
                    rigids.state,
                    own,
                    rigids.names,
                    rigids.names.len(),
                );
                self.lemma_abstractions_quiet(assigned, abstractions, abstractions.len());
                self.lemma_equations(
                    begun,
                    name,
                    false,
                    abstractions,
                    equations,
                    equations.len(),
                    own,
                    (depth - 1) as nat,
                );
                lemma_later(state, forked, signed);
                lemma_later(signed, rigids.state, assigned);
                lemma_later(state, signed, assigned);
                lemma_later(signed, assigned, listed.state);
                lemma_later(state, assigned, listed.state);
                lemma_sound(signed, listed.state, answered(forked));
                lemma_joined(listed.state, listed.docs, Doc::Hardline);
                lemma_ready(state, listed.state, scope);
                reveal_with_fuel(is_answered, 6);
            },
            _ => {},
        }
    }

    /// The names that have been asked for are the answers to requests for names.
    spec fn names_ready(self, state: Printed, names: Seq<RigidName>) -> bool {
        state.requests.len() <= usize::MAX ==> forall|i: int|
            0 <= i < names.len() ==> (#[trigger] names[i]).display < state.requests.len()
                && state.requests[names[i].display as int] is DisplayName
    }

    proof fn lemma_names_later(self, before: Printed, after: Printed, names: Seq<RigidName>)
        requires
            self.names_ready(before, names),
            later(before, after),
        ensures
            self.names_ready(after, names),
    {
        if after.requests.len() <= usize::MAX {
            assert forall|i: int| 0 <= i < names.len() implies (#[trigger] names[i]).display
                < after.requests.len()
                && after.requests[names[i].display as int] is DisplayName by {
                assert(after.requests[names[i].display as int]
                    == before.requests[names[i].display as int]);
            }
        }
    }

    proof fn lemma_rigids_named(
        self,
        state: Printed,
        scope: usize,
        abstractions: Seq<DeclarationAbstraction>,
        count: nat,
    )
        requires
            ready(state, scope),
        ensures
            ({
                let rigids = self.rigids_named(state, scope, abstractions, count);
                later(state, rigids.state) && ready(rigids.state, scope) && self.names_ready(
                    rigids.state,
                    rigids.names,
                )
            }),
        decreases count,
    {
        if count > 0 && count <= abstractions.len() {
            let before = self.rigids_named(state, scope, abstractions, (count - 1) as nat);
            self.lemma_rigids_named(state, scope, abstractions, (count - 1) as nat);
            match abstractions[count - 1] {
                DeclarationAbstraction::Type { binder, rigid } if binder.raw
                    < self.types@.binders.len() => {
                    let name = self.types@.binders[binder.raw as int].name;
                    let request = TypeRequest::DisplayName { scope, name };
                    let after = before.state.asked(request);
                    lemma_ask(before.state, request);
                    lemma_ready(before.state, after, scope);
                    lemma_later(state, before.state, after);
                    self.lemma_names_later(before.state, after, before.names);
                },
                _ => {},
            }
        }
    }

    proof fn lemma_rigids_assigned(
        self,
        state: Printed,
        scope: usize,
        names: Seq<RigidName>,
        count: nat,
    )
        requires
            ready(state, scope),
            self.names_ready(state, names),
        ensures
            ({
                let after = self.rigids_assigned(state, scope, names, count);
                later(state, after) && ready(after, scope)
            }),
        decreases count,
    {
        if count > 0 && count <= names.len() {
            let before = self.rigids_assigned(state, scope, names, (count - 1) as nat);
            let name = names[count - 1];
            self.lemma_rigids_assigned(state, scope, names, (count - 1) as nat);
            self.lemma_names_later(state, before, names);
            match self.type_of(name.rigid) {
                Some(Type::Rigid(..)) => {
                    let request = TypeRequest::Assign {
                        scope,
                        rigid: name.rigid,
                        display: name.display,
                    };
                    lemma_ask(before, request);
                    lemma_ready(before, before.asked(request), scope);
                    lemma_later(state, before, before.asked(request));
                },
                _ => {},
            }
        }
    }

    proof fn lemma_equations(
        self,
        state: Printed,
        name: Seq<char>,
        indented: bool,
        abstractions: Seq<DeclarationAbstraction>,
        equations: Seq<Equation>,
        count: nat,
        scope: usize,
        depth: nat,
    )
        requires
            ready(state, scope),
        ensures
            ({
                let listed = self.equations_listed(
                    state,
                    name,
                    indented,
                    abstractions,
                    equations,
                    count,
                    scope,
                    depth,
                );
                later(state, listed.state) && all_sound(listed.state, listed.docs) && ready(
                    listed.state,
                    scope,
                )
            }),
        decreases depth, 9nat, self, count,
    {
        if count > 0 && count <= equations.len() {
            let before = self.equations_listed(
                state,
                name,
                indented,
                abstractions,
                equations,
                (count - 1) as nat,
                scope,
                depth,
            );
            let equation = equations[count - 1];
            let laid = self.equation_laid(
                before.state,
                name,
                indented,
                abstractions,
                equation,
                scope,
                depth,
            );
            self.lemma_equations(
                state,
                name,
                indented,
                abstractions,
                equations,
                (count - 1) as nat,
                scope,
                depth,
            );
            self.lemma_equation_laid(
                before.state,
                name,
                indented,
                abstractions,
                equation,
                scope,
                depth,
            );
            lemma_push(state, before.state, laid.state, before.docs, laid.doc);
        }
    }

    #[verifier::rlimit(40)]
    proof fn lemma_equation_laid(
        self,
        state: Printed,
        name: Seq<char>,
        indented: bool,
        abstractions: Seq<DeclarationAbstraction>,
        equation: Equation,
        scope: usize,
        depth: nat,
    )
        requires
            ready(state, scope),
        ensures
            ({
                let laid = self.equation_laid(
                    state,
                    name,
                    indented,
                    abstractions,
                    equation,
                    scope,
                    depth,
                );
                later(state, laid.state) && sound(laid.state, laid.doc) && ready(
                    laid.state,
                    scope,
                )
            }),
        decreases depth, 8nat, self, 0nat,
    {
        let guarded = equation.guarded_expression;
        let unguarded = is_unguarded(guarded);
        let alone = guarded.alternatives@[0].where_expression;
        let body = if unguarded {
            self.plain_laid(state, alone.expression, scope, depth)
        } else {
            self.guarded_laid(state, guarded, scope, depth)
        };
        if unguarded {
            self.lemma_plain(state, alone.expression, scope, depth);
        } else {
            self.lemma_guarded(state, guarded, scope, depth);
        }
        let evidence = self.evidence_listed(body.state, abstractions, abstractions.len());
        self.lemma_abstractions_quiet(body.state, abstractions, abstractions.len());
        let patterns = self.patterns_laid(evidence.state, equation.binders@, scope);
        self.lemma_patterns_laid(evidence.state, equation.binders@, scope);
        lemma_later(state, body.state, patterns.state);
        lemma_sound(body.state, patterns.state, body.doc);
        lemma_all_sound(evidence.state, patterns.state, evidence.docs);
        let heads = evidence.docs + lambda_docs(patterns.docs);
        assert(all_sound(patterns.state, heads)) by {
            reveal_with_fuel(is_answered, 3);
            if patterns.state.requests.len() <= usize::MAX {
                assert forall|i: int| 0 <= i < heads.len() implies is_answered(
                    #[trigger] heads[i],
                    patterns.state.requests,
                ) by {
                    if i >= evidence.docs.len() {
                        let index = i - evidence.docs.len();
                        assert(is_answered(patterns.docs[index], patterns.state.requests));
                    } else {
                        assert(heads[i] == evidence.docs[i]);
                    }
                }
            }
        }
        let forced = unguarded && self.breaks_body(alone.expression);
        let lambda = unguarded && self.is_function(alone.expression);
        let document = equation_doc(name, heads, body.doc, forced, lambda);
        lemma_equation(patterns.state, name, heads, body.doc, forced, lambda);
        if unguarded && alone.bindings.chunks@.len() > 0 {
            let bindings = self.bindings_laid(patterns.state, alone.bindings, scope, depth);
            self.lemma_bindings(patterns.state, alone.bindings, scope, depth);
            lemma_sound(patterns.state, bindings.state, document);
            lemma_later(state, patterns.state, bindings.state);
            assert(sound(bindings.state, document.append(where_doc(bindings.doc).below()))) by {
                reveal_with_fuel(is_answered, 6);
            }
        }
        reveal_with_fuel(is_answered, 3);
    }

    proof fn lemma_where(
        self,
        state: Printed,
        where_expression: WhereExpression,
        scope: usize,
        depth: nat,
    )
        requires
            ready(state, scope),
        ensures
            ({
                let laid = self.where_laid(state, where_expression, scope, depth);
                later(state, laid.state) && sound(laid.state, laid.doc) && ready(
                    laid.state,
                    scope,
                )
            }),
        decreases depth, 6nat, where_expression, 1nat,
    {
        let body = self.plain_laid(state, where_expression.expression, scope, depth);
        self.lemma_plain(state, where_expression.expression, scope, depth);
        if where_expression.bindings.chunks@.len() > 0 {
            let bindings = self.bindings_laid(
                body.state,
                where_expression.bindings,
                scope,
                depth,
            );
            self.lemma_bindings(body.state, where_expression.bindings, scope, depth);
            lemma_later(state, body.state, bindings.state);
            lemma_sound(body.state, bindings.state, body.doc);
            reveal_with_fuel(is_answered, 6);
        }
    }

    proof fn lemma_guarded(
        self,
        state: Printed,
        guarded: GuardedExpression,
        scope: usize,
        depth: nat,
    )
        requires
            ready(state, scope),
        ensures
            ({
                let laid = self.guarded_laid(state, guarded, scope, depth);
                later(state, laid.state) && sound(laid.state, laid.doc) && ready(
                    laid.state,
                    scope,
                )
            }),
        decreases depth, 7nat, self, guarded.alternatives@.len() + 1,
    {
        let alternatives = guarded.alternatives@;
        if is_unguarded(guarded) {
            self.lemma_where(state, alternatives[0].where_expression, scope, depth);
        } else {
            let listed = self.alternatives_listed(
                state,
                alternatives,
                alternatives.len(),
                scope,
                depth,
            );
            self.lemma_alternatives(state, alternatives, alternatives.len(), scope, depth);
            lemma_joined(listed.state, listed.docs, Doc::Hardline);
        }
    }

    #[verifier::rlimit(30)]
    proof fn lemma_alternatives(
        self,
        state: Printed,
        alternatives: Seq<GuardedAlternative>,
        count: nat,
        scope: usize,
        depth: nat,
    )
        requires
            ready(state, scope),
        ensures
            ({
                let listed = self.alternatives_listed(state, alternatives, count, scope, depth);
                later(state, listed.state) && all_sound(listed.state, listed.docs) && ready(
                    listed.state,
                    scope,
                )
            }),
        decreases depth, 7nat, self, count,
    {
        if count > 0 && count <= alternatives.len() {
            let before = self.alternatives_listed(
                state,
                alternatives,
                (count - 1) as nat,
                scope,
                depth,
            );
            let alternative = alternatives[count - 1];
            let sources = alternative.pattern_guards@;
            let guards = self.guards_listed(
                before.state,
                sources,
                sources.len(),
                scope,
                depth,
            );
            let body = self.where_laid(
                guards.state,
                alternative.where_expression,
                scope,
                depth,
            );
            self.lemma_alternatives(state, alternatives, (count - 1) as nat, scope, depth);
            self.lemma_guards(before.state, sources, sources.len(), scope, depth);
            self.lemma_where(guards.state, alternative.where_expression, scope, depth);
            lemma_later(before.state, guards.state, body.state);
            lemma_all_sound(guards.state, body.state, guards.docs);
            lemma_joined(body.state, guards.docs, Doc::Text(", "@));
            let head = if guards.docs.len() == 0 {
                Doc::Text("| ->"@)
            } else {
                Doc::Text("| "@).append(joined(guards.docs, Doc::Text(", "@))).then_text(" ->"@)
            };
            let forced = self.breaks_body(alternative.where_expression.expression);
            let doc = with_result(head, body.doc, forced);
            assert(sound(body.state, doc)) by {
                reveal_with_fuel(is_answered, 7);
            }
            lemma_push(state, before.state, body.state, before.docs, doc);
        }
    }

    proof fn lemma_guards(
        self,
        state: Printed,
        guards: Seq<PatternGuard>,
        count: nat,
        scope: usize,
        depth: nat,
    )
        requires
            ready(state, scope),
        ensures
            ({
                let listed = self.guards_listed(state, guards, count, scope, depth);
                later(state, listed.state) && all_sound(listed.state, listed.docs) && ready(
                    listed.state,
                    scope,
                )
            }),
        decreases depth, 3nat, self, count,
    {
        if count > 0 && count <= guards.len() {
            let before = self.guards_listed(state, guards, (count - 1) as nat, scope, depth);
            self.lemma_guards(state, guards, (count - 1) as nat, scope, depth);
            match guards[count - 1] {
                PatternGuard::Boolean { expression } => {
                    let laid = self.plain_laid(before.state, expression, scope, depth);
                    self.lemma_plain(before.state, expression, scope, depth);
                    lemma_push(state, before.state, laid.state, before.docs, laid.doc);
                },
                PatternGuard::Pattern { binder, expression } => {
                    let pattern = self.pattern_laid(before.state, binder, scope);
                    let laid = self.plain_laid(pattern.state, expression, scope, depth);
                    let doc = pattern.doc.then_text(" <- "@).append(laid.doc);
                    self.lemma_pattern_laid(before.state, binder, scope);
                    self.lemma_plain(pattern.state, expression, scope, depth);
                    lemma_later(before.state, pattern.state, laid.state);
                    lemma_sound(pattern.state, laid.state, pattern.doc);
                    reveal_with_fuel(is_answered, 4);
                    lemma_push(state, before.state, laid.state, before.docs, doc);
                },
            }
        }
    }

    #[verifier::rlimit(30)]
    proof fn lemma_cases(
        self,
        state: Printed,
        alternatives: Seq<CaseAlternative>,
        count: nat,
        scope: usize,
        depth: nat,
    )
        requires
            ready(state, scope),
        ensures
            ({
                let listed = self.cases_listed(state, alternatives, count, scope, depth);
                later(state, listed.state) && all_sound(listed.state, listed.docs) && ready(
                    listed.state,
                    scope,
                )
            }),
        decreases depth, 8nat, self, count,
    {
        if count > 0 && count <= alternatives.len() {
            let before = self.cases_listed(state, alternatives, (count - 1) as nat, scope, depth);
            let alternative = alternatives[count - 1];
            let guarded = alternative.guarded_expression;
            let patterns = self.patterns_laid(before.state, alternative.binders@, scope);
            let head = or_error(patterns.docs, Doc::Text(", "@)).group();
            self.lemma_cases(state, alternatives, (count - 1) as nat, scope, depth);
            self.lemma_patterns_laid(before.state, alternative.binders@, scope);
            if is_unguarded(guarded) {
                let alone = guarded.alternatives@[0].where_expression;
                let body = self.where_laid(patterns.state, alone, scope, depth);
                let doc = with_result(
                    head.then_text(" ->"@),
                    body.doc,
                    self.breaks_body(alone.expression),
                );
                self.lemma_where(patterns.state, alone, scope, depth);
                lemma_later(before.state, patterns.state, body.state);
                lemma_all_sound(patterns.state, body.state, patterns.docs);
                lemma_joined(body.state, patterns.docs, Doc::Text(", "@));
                assert(sound(body.state, doc)) by {
                    reveal_with_fuel(is_answered, 7);
                }
                lemma_push(state, before.state, body.state, before.docs, doc);
            } else {
                let body = self.guarded_laid(patterns.state, guarded, scope, depth);
                let doc = head.append(body.doc.below());
                self.lemma_guarded(patterns.state, guarded, scope, depth);
                lemma_later(before.state, patterns.state, body.state);
                lemma_all_sound(patterns.state, body.state, patterns.docs);
                lemma_joined(body.state, patterns.docs, Doc::Text(", "@));
                assert(sound(body.state, doc)) by {
                    reveal_with_fuel(is_answered, 7);
                }
                lemma_push(state, before.state, body.state, before.docs, doc);
            }
        }
    }
}

// Declarations

/// The names of parameters are the answers to requests for names.
spec fn parameters_ready(state: Printed, names: Seq<ParameterName>) -> bool {
    state.requests.len() <= usize::MAX ==> in_order(state.requests) && forall|i: int|
        0 <= i < names.len() ==> (#[trigger] names[i]).display < state.requests.len()
            && state.requests[names[i].display as int] is DisplayName
}

proof fn lemma_parameters_later(before: Printed, after: Printed, names: Seq<ParameterName>)
    requires
        parameters_ready(before, names),
        later(before, after),
        ok(after),
    ensures
        parameters_ready(after, names),
{
    if after.requests.len() <= usize::MAX {
        assert forall|i: int| 0 <= i < names.len() implies (#[trigger] names[i]).display
            < after.requests.len() && after.requests[names[i].display as int] is DisplayName by {
            assert(after.requests[names[i].display as int]
                == before.requests[names[i].display as int]);
        }
    }
}

proof fn lemma_with_parameters(
    state: Printed,
    head: Doc,
    names: Seq<ParameterName>,
    declared: bool,
)
    requires
        sound(state, head),
        parameters_ready(state, names),
    ensures
        sound(state, with_parameters(head, names, declared)),
    decreases names.len(),
{
    if names.len() > 0 {
        let rest = names.drop_last();
        assert(parameters_ready(state, rest)) by {
            assert forall|i: int| 0 <= i < rest.len() implies rest[i] == names[i] by {}
        }
        lemma_with_parameters(state, head, rest, declared);
        assert(names.last() == names[names.len() - 1]);
        reveal_with_fuel(is_answered, 3);
    }
}

impl<'a> Printer<'a> {
    proof fn lemma_parameters_named(
        self,
        state: Printed,
        scope: usize,
        binders: Seq<ForallBinderId>,
        count: nat,
    )
        requires
            ready(state, scope),
        ensures
            ({
                let parameters = self.parameters_named(state, scope, binders, count);
                later(state, parameters.state) && ready(parameters.state, scope)
                    && parameters_ready(parameters.state, parameters.names)
            }),
        decreases count,
    {
        if count > 0 && count <= binders.len() {
            let before = self.parameters_named(state, scope, binders, (count - 1) as nat);
            let id = binders[count - 1];
            self.lemma_parameters_named(state, scope, binders, (count - 1) as nat);
            if id.raw < self.types@.binders.len() {
                let name = self.types@.binders[id.raw as int].name;
                let request = TypeRequest::DisplayName { scope, name };
                let after = before.state.asked(request);
                lemma_ask(before.state, request);
                lemma_ready(before.state, after, scope);
                lemma_later(state, before.state, after);
                lemma_parameters_later(before.state, after, before.names);
            }
        }
    }

    proof fn lemma_signature(
        self,
        state: Printed,
        scope: usize,
        arguments: Seq<TypeId>,
        result: Doc,
    )
        requires
            ready(state, scope),
            sound(state, result),
        ensures
            ({
                let laid = self.signature_laid(state, scope, arguments, result);
                later(state, laid.state) && ready(laid.state, scope) && sound(
                    laid.state,
                    laid.doc,
                )
            }),
        decreases arguments.len(),
    {
        if arguments.len() > 0 {
            let argument = arguments.last();
            let request = TypeRequest::Render { scope, type_id: argument };
            let after = state.asked(request);
            let shown = if is_enclosed(self.type_of(argument)) {
                answered(state).parenthesized()
            } else {
                answered(state)
            };
            let doc = shown.then_text(" ->"@).append(result.behind()).group();
            lemma_ask(state, request);
            lemma_ready(state, after, scope);
            lemma_sound(state, after, result);
            assert(sound(after, doc)) by {
                reveal_with_fuel(is_answered, 7);
            }
            self.lemma_signature(after, scope, arguments.drop_last(), doc);
            lemma_later(
                state,
                after,
                self.signature_laid(state, scope, arguments, result).state,
            );
        }
    }

    proof fn lemma_constructors(
        self,
        state: Printed,
        declarations: Seq<TermDeclarationId>,
        items: Seq<TermItemId>,
        result: Doc,
        scope: usize,
        count: nat,
    )
        requires
            ready(state, scope),
            sound(state, result),
        ensures
            ({
                let listed = self.constructors_listed(
                    state,
                    declarations,
                    items,
                    result,
                    scope,
                    count,
                );
                later(state, listed.state) && ready(listed.state, scope) && all_sound(
                    listed.state,
                    listed.docs,
                )
            }),
        decreases count,
    {
        if count > 0 && count <= declarations.len() && count <= items.len() {
            let before = self.constructors_listed(
                state,
                declarations,
                items,
                result,
                scope,
                (count - 1) as nat,
            );
            self.lemma_constructors(
                state,
                declarations,
                items,
                result,
                scope,
                (count - 1) as nat,
            );
            match (
                self.term_text(self.file, items[count - 1]),
                self.own.checked.tree@.term_at(declarations[count - 1]),
            ) {
                (Some(name), Some(declaration)) => match declaration.kind {
                    TermDeclarationKind::Constructor(constructor) => {
                        let arguments = constructor.arguments@;
                        let laid = self.signature_laid(before.state, scope, arguments, result);
                        lemma_sound(state, before.state, result);
                        self.lemma_signature(before.state, scope, arguments, result);
                        assert(sound(laid.state, constructor_doc(name, laid.doc))) by {
                            reveal_with_fuel(is_answered, 6);
                        }
                        lemma_push(
                            state,
                            before.state,
                            laid.state,
                            before.docs,
                            constructor_doc(name, laid.doc),
                        );
                    },
                    _ => {},
                },
                _ => {},
            }
        }
    }

    proof fn lemma_data(
        self,
        state: Printed,
        item: TypeItemId,
        keyword: Seq<char>,
        name: Seq<char>,
        data: DataDeclaration,
        scope: usize,
    )
        requires
            ready(state, scope),
        ensures
            ({
                let laid = self.data_laid(state, item, keyword, name, data, scope);
                later(state, laid.state) && sound(laid.state, laid.doc)
            }),
    {
        let binders = data.parameters@;
        let parameters = self.parameters_named(state, scope, binders, binders.len());
        let items = self.constructor_items(item);
        let count = if items.len() < data.constructors@.len() {
            items.len()
        } else {
            data.constructors@.len()
        };
        let plain = Doc::Text(self.local_type_text(name));
        let result = with_parameters(plain, parameters.names, false);
        let constructors = self.constructors_listed(
            parameters.state,
            data.constructors@,
            items,
            result,
            scope,
            count,
        );
        let start = Doc::Text(keyword + " "@ + name);
        let head = with_parameters(start, parameters.names, true);
        self.lemma_parameters_named(state, scope, binders, binders.len());
        lemma_with_parameters(parameters.state, plain, parameters.names, false);
        lemma_with_parameters(parameters.state, start, parameters.names, true);
        self.lemma_constructors(
            parameters.state,
            data.constructors@,
            items,
            result,
            scope,
            count,
        );
        lemma_later(state, parameters.state, constructors.state);
        lemma_sound(parameters.state, constructors.state, head);
        lemma_joined(constructors.state, seq![head] + constructors.docs, Doc::Hardline);
    }

    proof fn lemma_superclasses(
        self,
        state: Printed,
        superclasses: Seq<ClassSuperclass>,
        used: Set<Seq<char>>,
        count: nat,
    )
        requires
            ok(state),
        ensures
            ({
                let listed = self.superclasses_listed(state, superclasses, used, count).0;
                later(state, listed.state) && all_sound(listed.state, listed.docs)
            }),
        decreases count,
    {
        if count > 0 && count <= superclasses.len() {
            let (before, taken) = self.superclasses_listed(
                state,
                superclasses,
                used,
                (count - 1) as nat,
            );
            let constraint = superclasses[count - 1].constraint;
            let request = TypeRequest::RenderAlone { signature: false, type_id: constraint };
            let name = display_name(taken, self.evidence_base(constraint));
            let doc = Doc::Text("  superclass "@ + name + " :: "@).append(answered(before.state));
            self.lemma_superclasses(state, superclasses, used, (count - 1) as nat);
            lemma_ask(before.state, request);
            reveal_with_fuel(is_answered, 2);
            lemma_push(
                state,
                before.state,
                before.state.asked(request),
                before.docs,
                doc,
            );
        }
    }

    proof fn lemma_members(self, state: Printed, members: Seq<ClassMember>, count: nat)
        requires
            ok(state),
        ensures
            ({
                let listed = self.members_listed(state, members, count);
                later(state, listed.state) && all_sound(listed.state, listed.docs)
            }),
        decreases count,
    {
        if count > 0 && count <= members.len() {
            let before = self.members_listed(state, members, (count - 1) as nat);
            let member = members[count - 1];
            self.lemma_members(state, members, (count - 1) as nat);
            match self.term_text(self.file, member.source) {
                Some(name) => {
                    let request = TypeRequest::RenderAlone {
                        signature: false,
                        type_id: member.field_type,
                    };
                    let doc = Doc::Text("  "@ + name + " :: "@).append(answered(before.state));
                    lemma_ask(before.state, request);
                    reveal_with_fuel(is_answered, 2);
                    lemma_push(
                        state,
                        before.state,
                        before.state.asked(request),
                        before.docs,
                        doc,
                    );
                },
                None => {},
            }
        }
    }

    proof fn lemma_class(
        self,
        state: Printed,
        item: TypeItemId,
        name: Seq<char>,
        class: ClassDeclaration,
        scope: usize,
    )
        requires
            ready(state, scope),
        ensures
            ({
                let laid = self.class_laid(state, item, name, class, scope);
                later(state, laid.state) && sound(laid.state, laid.doc)
            }),
    {
        let first = class.kind_binders@;
        let second = class.type_parameters@;
        let kinds = self.parameters_named(state, scope, first, first.len());
        let parameters = self.parameters_named(kinds.state, scope, second, second.len());
        let start = Doc::Text("interface "@ + name);
        let applied = with_parameters(start, parameters.names, false);
        let head = applied.then_text(" where"@);
        let used = members_reserved(*self.own, members_of(*self.own, item));
        let superclasses = self.superclasses_listed(
            parameters.state,
            class.superclasses@,
            used,
            class.superclasses@.len(),
        ).0;
        let members = self.members_listed(
            superclasses.state,
            class.members@,
            class.members@.len(),
        );
        self.lemma_parameters_named(state, scope, first, first.len());
        self.lemma_parameters_named(kinds.state, scope, second, second.len());
        lemma_with_parameters(parameters.state, start, parameters.names, false);
        assert(sound(parameters.state, head)) by {
            reveal_with_fuel(is_answered, 3);
        }
        self.lemma_superclasses(
            parameters.state,
            class.superclasses@,
            used,
            class.superclasses@.len(),
        );
        self.lemma_members(superclasses.state, class.members@, class.members@.len());
        lemma_later(state, kinds.state, parameters.state);
        lemma_later(state, parameters.state, superclasses.state);
        lemma_later(state, superclasses.state, members.state);
        lemma_later(parameters.state, superclasses.state, members.state);
        lemma_sound(parameters.state, members.state, head);
        lemma_all_sound(superclasses.state, members.state, superclasses.docs);
        let documents = seq![head] + superclasses.docs + members.docs;
        assert(all_sound(members.state, documents)) by {
            if members.state.requests.len() <= usize::MAX {
                assert forall|i: int| 0 <= i < documents.len() implies is_answered(
                    #[trigger] documents[i],
                    members.state.requests,
                ) by {
                    let inner = i - 1 - superclasses.docs.len();
                    if i > 0 && inner < 0 {
                        assert(documents[i] == superclasses.docs[i - 1]);
                    } else if i > 0 {
                        assert(documents[i] == members.docs[inner]);
                    }
                }
            }
        }
        lemma_joined(members.state, documents, Doc::Hardline);
    }

    proof fn lemma_value(
        self,
        state: Printed,
        name: Seq<char>,
        type_id: TypeId,
        value: ValueDeclaration,
    )
        requires
            ok(state),
        ensures
            ({
                let (after, doc) = self.value_laid(state, name, type_id, value);
                later(state, after) && ok(after) && (doc matches Some(doc) ==> sound(after, doc))
            }),
    {
        let abstractions = value.abstractions@;
        let own = state.requests.len() as usize;
        let begin = TypeRequest::Begin { signature: true };
        let begun = state.asked(begin);
        let render = TypeRequest::Render { scope: own, type_id };
        let signed = begun.asked(render);
        let rigids = self.rigids_named(signed, own, abstractions, abstractions.len());
        let fresh = rigids.state.without_evidence();
        let named = self.evidence_begun(fresh, abstractions, abstractions.len());
        let scope = named.requests.len() as usize;
        let inner = TypeRequest::Begin { signature: false };
        let opened = named.asked(inner);
        let assigned = self.rigids_assigned(opened, scope, rigids.names, rigids.names.len());
        let equations = value.equations@;
        let depth = self.tree_depth();
        let listed = self.equations_listed(
            assigned,
            name,
            false,
            abstractions,
            equations,
            equations.len(),
            scope,
            depth,
        );
        lemma_ask(state, begin);
        lemma_ask(begun, render);
        lemma_ready(begun, signed, own);
        self.lemma_rigids_named(signed, own, abstractions, abstractions.len());
        self.lemma_abstractions_quiet(fresh, abstractions, abstractions.len());
        lemma_ask(named, inner);
        self.lemma_names_later(named, opened, rigids.names);
        self.lemma_rigids_assigned(opened, scope, rigids.names, rigids.names.len());
        self.lemma_equations(
            assigned,
            name,
            false,
            abstractions,
            equations,
            equations.len(),
            scope,
            depth,
        );
        lemma_later(state, begun, signed);
        lemma_later(signed, rigids.state, opened);
        lemma_later(signed, opened, assigned);
        lemma_later(signed, assigned, listed.state);
        lemma_later(state, signed, listed.state);
        lemma_sound(signed, listed.state, answered(begun));
        lemma_joined(listed.state, listed.docs, Doc::Hardline);
        reveal_with_fuel(is_answered, 6);
    }

    // Instances

    proof fn lemma_givens_quiet(
        self,
        state: Printed,
        evidences: Seq<InstanceEvidence>,
        count: nat,
    )
        ensures
            self.givens_begun(state, evidences, count).requests == state.requests,
        decreases count,
    {
        if count > 0 && count <= evidences.len() {
            self.lemma_givens_quiet(state, evidences, (count - 1) as nat);
        }
    }

    proof fn lemma_evidences(
        self,
        state: Printed,
        evidences: Seq<InstanceEvidence>,
        scope: usize,
        count: nat,
    )
        requires
            ready(state, scope),
        ensures
            ({
                let listed = self.evidences_listed(state, evidences, scope, count);
                later(state, listed.state) && ready(listed.state, scope) && all_sound(
                    listed.state,
                    listed.docs,
                )
            }),
        decreases count,
    {
        if count > 0 && count <= evidences.len() {
            let before = self.evidences_listed(state, evidences, scope, (count - 1) as nat);
            let evidence = evidences[count - 1];
            let named = self.evidence_named(before.state, evidence.evidence);
            let request = TypeRequest::Render { scope, type_id: evidence.constraint };
            let after = named.state.asked(request);
            let doc = Doc::Text("{ "@ + named.text + " :: "@).append(
                answered(named.state),
            ).then_text(" } =>"@);
            self.lemma_evidences(state, evidences, scope, (count - 1) as nat);
            self.lemma_evidence_quiet(before.state, evidence.evidence, self.evidence_depth());
            lemma_ask(named.state, request);
            lemma_ready(named.state, after, scope);
            assert(sound(after, doc)) by {
                reveal_with_fuel(is_answered, 4);
            }
            lemma_push(state, before.state, after, before.docs, doc);
        }
    }

    proof fn lemma_quantifier(self, state: Printed, names: Seq<ParameterName>)
        requires
            parameters_ready(state, names),
        ensures
            all_sound(state, quantifier_docs(names)),
    {
        let docs = name_docs(names);
        assert(all_sound(state, docs));
        lemma_joined(state, docs, Doc::Text(" "@));
        reveal_with_fuel(is_answered, 4);
    }

    proof fn lemma_dictionary(
        self,
        state: Printed,
        name: Seq<char>,
        type_id: TypeId,
        instance: InstanceDeclaration,
    )
        requires
            ok(state),
        ensures
            ({
                let (laid, rigids) = self.dictionary_laid(state, name, type_id, instance);
                later(state, laid.state) && sound(laid.state, laid.doc) && self.names_ready(
                    laid.state,
                    rigids,
                )
            }),
    {
        let scope = state.requests.len() as usize;
        let binders = self.quantified(type_id);
        let begin = TypeRequest::Begin { signature: false };
        let begun = state.asked(begin);
        let parameters = self.parameters_named(begun, scope, binders, binders.len());
        let sources = instance.evidences@;
        let evidences = self.evidences_listed(parameters.state, sources, scope, sources.len());
        let head = self.unconstrained(self.unquantified(type_id));
        let render = TypeRequest::Render { scope, type_id: head };
        let after = evidences.state.asked(render);
        lemma_ask(state, begin);
        self.lemma_parameters_named(begun, scope, binders, binders.len());
        self.lemma_evidences(parameters.state, sources, scope, sources.len());
        lemma_ask(evidences.state, render);
        lemma_later(state, begun, parameters.state);
        lemma_later(parameters.state, evidences.state, after);
        lemma_later(state, parameters.state, after);
        lemma_parameters_later(parameters.state, after, parameters.names);
        lemma_push(
            parameters.state,
            evidences.state,
            after,
            evidences.docs,
            answered(evidences.state),
        );
        self.lemma_quantifier(after, parameters.names);
        let first = quantifier_docs(parameters.names);
        let second = evidences.docs.push(answered(evidences.state));
        let lines = first + second;
        assert(all_sound(after, lines)) by {
            if after.requests.len() <= usize::MAX {
                assert forall|i: int| 0 <= i < lines.len() implies is_answered(
                    #[trigger] lines[i],
                    after.requests,
                ) by {
                    if i < first.len() {
                        assert(lines[i] == first[i]);
                    } else {
                        assert(lines[i] == second[i - first.len()]);
                    }
                }
            }
        }
        lemma_joined(after, lines, Doc::Line);
        reveal_with_fuel(is_answered, 6);
    }

    proof fn lemma_supers(
        self,
        state: Printed,
        superclasses: Seq<InstanceSuperclass>,
        names: Seq<Seq<char>>,
        count: nat,
    )
        requires
            ok(state),
        ensures
            ({
                let listed = self.supers_listed(state, superclasses, names, count);
                listed.state.requests == state.requests && all_sound(listed.state, listed.docs)
            }),
        decreases count,
    {
        if count > 0 && count <= superclasses.len() && count <= names.len() {
            let before = self.supers_listed(state, superclasses, names, (count - 1) as nat);
            self.lemma_supers(state, superclasses, names, (count - 1) as nat);
            self.lemma_evidence_quiet(
                before.state,
                Evidence::Variable(superclasses[count - 1].evidence),
                self.evidence_depth(),
            );
        }
    }

    proof fn lemma_variables(
        self,
        state: Printed,
        scope: usize,
        file: FileId,
        abstractions: Seq<DeclarationAbstraction>,
        count: nat,
    )
        requires
            ready(state, scope),
        ensures
            ({
                let after = self.variables_allocated(state, scope, file, abstractions, count);
                later(state, after) && ready(after, scope)
            }),
        decreases count,
    {
        if count > 0 && count <= abstractions.len() {
            let before = self.variables_allocated(
                state,
                scope,
                file,
                abstractions,
                (count - 1) as nat,
            );
            self.lemma_variables(state, scope, file, abstractions, (count - 1) as nat);
            match (abstractions[count - 1], self.module_of(file)) {
                (DeclarationAbstraction::Type { binder, .. }, Some(module)) if binder.raw
                    < self.types@.binders.len() => {
                    let name = self.types@.binders[binder.raw as int].name;
                    match last_text(module.checked.names@, name) {
                        Some(text) => {
                            let request = TypeRequest::Allocate { scope, name, text };
                            lemma_ask(before, request);
                            lemma_ready(before, before.asked(request), scope);
                            lemma_later(state, before, before.asked(request));
                        },
                        None => {},
                    }
                },
                _ => {},
            }
        }
    }

    proof fn lemma_member_signed(
        self,
        state: Printed,
        member: InstanceMember,
        name: Seq<char>,
        rigids: Seq<RigidName>,
    )
        requires
            ok(state),
            self.names_ready(state, rigids),
        ensures
            ({
                let (laid, names) = self.member_signed(state, member, name, rigids);
                later(state, laid.state) && sound(laid.state, laid.doc) && self.names_ready(
                    laid.state,
                    rigids + names,
                )
            }),
    {
        let scope = state.requests.len() as usize;
        let begin = TypeRequest::Begin { signature: false };
        let begun = state.asked(begin);
        let abstractions = member.abstractions@;
        let file = member.resolution.0;
        let assigned = self.rigids_assigned(begun, scope, rigids, rigids.len());
        let allocated = self.variables_allocated(
            assigned,
            scope,
            file,
            abstractions,
            abstractions.len(),
        );
        let render = TypeRequest::Render { scope, type_id: member.implementation_type };
        let signed = allocated.asked(render);
        let named = self.rigids_named(signed, scope, abstractions, abstractions.len());
        lemma_ask(state, begin);
        self.lemma_names_later(state, begun, rigids);
        self.lemma_rigids_assigned(begun, scope, rigids, rigids.len());
        self.lemma_variables(assigned, scope, file, abstractions, abstractions.len());
        lemma_ask(allocated, render);
        lemma_ready(allocated, signed, scope);
        self.lemma_rigids_named(signed, scope, abstractions, abstractions.len());
        lemma_later(state, begun, assigned);
        lemma_later(state, assigned, allocated);
        lemma_later(state, allocated, signed);
        lemma_later(state, signed, named.state);
        lemma_sound(signed, named.state, answered(allocated));
        self.lemma_names_later(state, named.state, rigids);
        let names = rigids + named.names;
        assert(self.names_ready(named.state, names)) by {
            if named.state.requests.len() <= usize::MAX {
                assert forall|i: int| 0 <= i < names.len() implies (#[trigger] names[i]).display
                    < named.state.requests.len()
                    && named.state.requests[names[i].display as int] is DisplayName by {
                    if i < rigids.len() {
                        assert(names[i] == rigids[i]);
                    } else {
                        assert(names[i] == named.names[i - rigids.len()]);
                    }
                }
            }
        }
        reveal_with_fuel(is_answered, 2);
    }

    proof fn lemma_member(
        self,
        state: Printed,
        evidences: Seq<InstanceEvidence>,
        member: InstanceMember,
        name: Seq<char>,
        rigids: Seq<RigidName>,
    )
        requires
            ok(state),
            self.names_ready(state, rigids),
        ensures
            ({
                let (after, doc) = self.member_laid(state, evidences, member, name, rigids);
                later(state, after) && ok(after) && (doc matches Some(doc) ==> sound(after, doc))
            }),
    {
        let abstractions = member.abstractions@;
        let fresh = state.without_evidence();
        let given = self.givens_begun(fresh, evidences, evidences.len());
        let named = self.evidence_begun(given, abstractions, abstractions.len());
        let (signed, own) = self.member_signed(named, member, name, rigids);
        let scope = signed.state.requests.len() as usize;
        let begin = TypeRequest::Begin { signature: false };
        let begun = signed.state.asked(begin);
        let names = rigids + own;
        let assigned = self.rigids_assigned(begun, scope, names, names.len());
        let equations = member.equations@;
        let depth = self.tree_depth();
        let listed = self.equations_listed(
            assigned,
            name,
            true,
            abstractions,
            equations,
            equations.len(),
            scope,
            depth,
        );
        self.lemma_givens_quiet(fresh, evidences, evidences.len());
        self.lemma_abstractions_quiet(given, abstractions, abstractions.len());
        self.lemma_member_signed(named, member, name, rigids);
        lemma_ask(signed.state, begin);
        self.lemma_names_later(signed.state, begun, names);
        self.lemma_rigids_assigned(begun, scope, names, names.len());
        self.lemma_equations(
            assigned,
            name,
            true,
            abstractions,
            equations,
            equations.len(),
            scope,
            depth,
        );
        lemma_later(signed.state, begun, assigned);
        lemma_later(signed.state, assigned, listed.state);
        lemma_later(state, signed.state, listed.state);
        lemma_sound(signed.state, listed.state, signed.doc);
        lemma_joined(listed.state, listed.docs, Doc::Hardline);
        reveal_with_fuel(is_answered, 5);
    }

    proof fn lemma_instance_members(
        self,
        state: Printed,
        evidences: Seq<InstanceEvidence>,
        members: Seq<InstanceMember>,
        rigids: Seq<RigidName>,
        count: nat,
    )
        requires
            ok(state),
            self.names_ready(state, rigids),
        ensures
            ({
                let listed = self.instance_members_listed(
                    state,
                    evidences,
                    members,
                    rigids,
                    count,
                );
                later(state, listed.state) && all_sound(listed.state, listed.docs)
            }),
        decreases count,
    {
        if count > 0 && count <= members.len() {
            let before = self.instance_members_listed(
                state,
                evidences,
                members,
                rigids,
                (count - 1) as nat,
            );
            let member = members[count - 1];
            self.lemma_instance_members(state, evidences, members, rigids, (count - 1) as nat);
            match self.term_text(member.resolution.0, member.resolution.1) {
                Some(name) => {
                    let (after, doc) = self.member_laid(
                        before.state,
                        evidences,
                        member,
                        name,
                        rigids,
                    );
                    self.lemma_names_later(state, before.state, rigids);
                    self.lemma_member(before.state, evidences, member, name, rigids);
                    lemma_later(state, before.state, after);
                    lemma_all_sound(before.state, after, before.docs);
                },
                None => {},
            }
        }
    }

    proof fn lemma_instance(
        self,
        state: Printed,
        name: Seq<char>,
        type_id: TypeId,
        instance: InstanceDeclaration,
    )
        requires
            ok(state),
        ensures
            ({
                let laid = self.instance_laid(state, name, type_id, instance);
                later(state, laid.state) && sound(laid.state, laid.doc)
            }),
    {
        let evidences = instance.evidences@;
        let fresh = state.without_evidence();
        let named = self.givens_begun(fresh, evidences, evidences.len());
        let (signed, rigids) = self.dictionary_laid(named, name, type_id, instance);
        self.lemma_givens_quiet(fresh, evidences, evidences.len());
        self.lemma_dictionary(named, name, type_id, instance);
        match instance.implementation {
            InstanceImplementation::Delegate { evidence, .. } => {
                let shown = self.evidence_named(signed.state, Evidence::Variable(evidence));
                self.lemma_evidence_quiet(
                    signed.state,
                    Evidence::Variable(evidence),
                    self.evidence_depth(),
                );
                assert(sound(shown.state, signed.doc.then_text(" = "@ + shown.text))) by {
                    reveal_with_fuel(is_answered, 2);
                }
            },
            InstanceImplementation::Members(members) => {
                let superclasses = instance.superclasses@;
                let fields = self.instance_fields(
                    superclasses,
                    self.class_names(instance.class),
                    superclasses.len(),
                ).0;
                let supers = self.supers_listed(
                    signed.state,
                    superclasses,
                    fields,
                    superclasses.len(),
                );
                let listed = self.instance_members_listed(
                    supers.state,
                    evidences,
                    members@,
                    rigids,
                    members@.len(),
                );
                self.lemma_supers(signed.state, superclasses, fields, superclasses.len());
                self.lemma_instance_members(
                    supers.state,
                    evidences,
                    members@,
                    rigids,
                    members@.len(),
                );
                lemma_later(state, signed.state, listed.state);
                lemma_sound(signed.state, listed.state, signed.doc);
                lemma_all_sound(supers.state, listed.state, supers.docs);
                let documents = supers.docs + listed.docs;
                assert(all_sound(listed.state, documents)) by {
                    if listed.state.requests.len() <= usize::MAX {
                        assert forall|i: int| 0 <= i < documents.len() implies is_answered(
                            #[trigger] documents[i],
                            listed.state.requests,
                        ) by {
                            if i < supers.docs.len() {
                                assert(documents[i] == supers.docs[i]);
                            } else {
                                assert(documents[i] == listed.docs[i - supers.docs.len()]);
                            }
                        }
                    }
                }
                lemma_joined(listed.state, documents, Doc::Hardline);
                assert(sound(listed.state, with_fields(signed.doc, documents))) by {
                    reveal_with_fuel(is_answered, 8);
                }
            },
        }
    }

    // Modules

    proof fn lemma_type(self, state: Printed, item: TypeItemId)
        requires
            ok(state),
        ensures
            ({
                let (after, doc) = self.type_laid(state, item);
                later(state, after) && ok(after) && (doc matches Some(doc) ==> sound(after, doc))
            }),
    {
        let tree = self.own.checked.tree@;
        let declaration = match entry(tree.types, item.raw) {
            Some(id) => tree.type_at(id),
            None => None,
        };
        match (self.type_text(self.file, item), declaration) {
            (Some(name), Some(declaration)) => {
                let scope = state.requests.len() as usize;
                let begin = TypeRequest::Begin { signature: false };
                let begun = state.asked(begin);
                let keyword = keyword_of(declaration.declaration);
                let sign = TypeRequest::KindSignature { scope, item, kind: declaration.kind };
                let signed = begun.asked(sign);
                lemma_ask(state, begin);
                lemma_ask(begun, sign);
                lemma_ready(begun, signed, scope);
                lemma_later(state, begun, signed);
                let laid = match declaration.declaration {
                    TypeDeclarationKind::Class(class) => {
                        self.lemma_class(signed, item, name, class, scope);
                        self.class_laid(signed, item, name, class, scope)
                    },
                    TypeDeclarationKind::Data(data) => {
                        self.lemma_data(signed, item, keyword, name, data, scope);
                        self.data_laid(signed, item, keyword, name, data, scope)
                    },
                    TypeDeclarationKind::Newtype(data) => {
                        self.lemma_data(signed, item, keyword, name, data, scope);
                        self.data_laid(signed, item, keyword, name, data, scope)
                    },
                };
                lemma_later(state, signed, laid.state);
                lemma_sound(signed, laid.state, answered(begun));
                reveal_with_fuel(is_answered, 6);
            },
            _ => {},
        }
    }

    proof fn lemma_types(self, state: Printed, count: nat)
        requires
            ok(state),
        ensures
            ({
                let listed = self.types_listed(state, count);
                later(state, listed.state) && all_sound(listed.state, listed.docs)
            }),
        decreases count,
    {
        if count > 0 {
            let before = self.types_listed(state, (count - 1) as nat);
            let item = TypeItemId { raw: (count - 1) as u32 };
            let (after, doc) = self.type_laid(before.state, item);
            self.lemma_types(state, (count - 1) as nat);
            self.lemma_type(before.state, item);
            lemma_later(state, before.state, after);
            lemma_all_sound(before.state, after, before.docs);
        }
    }

    proof fn lemma_term(self, state: Printed, item: TermItemId)
        requires
            ok(state),
        ensures
            ({
                let (after, doc) = self.term_laid(state, item);
                later(state, after) && ok(after) && (doc matches Some(doc) ==> sound(after, doc))
            }),
    {
        match (self.term_text(self.file, item), self.term_declared(item)) {
            (Some(name), Some(declaration)) => match declaration.kind {
                TermDeclarationKind::Value(value) => {
                    self.lemma_value(state, name, declaration.type_id, value);
                },
                TermDeclarationKind::Foreign => {
                    lemma_ask(
                        state,
                        TypeRequest::RenderAlone {
                            signature: true,
                            type_id: declaration.type_id,
                        },
                    );
                    reveal_with_fuel(is_answered, 2);
                },
                _ => {},
            },
            _ => {},
        }
    }

    proof fn lemma_terms(self, begun: Declarations, terms: Seq<OrderedTermItemId>)
        requires
            all_sound(begun.state, begun.docs),
        ensures
            all_sound(
                self.terms_listed(begun, terms).state,
                self.terms_listed(begun, terms).docs,
            ),
        decreases terms.len(),
    {
        if terms.len() > 0 {
            let before = self.terms_listed(begun, terms.drop_last());
            self.lemma_terms(begun, terms.drop_last());
            match terms.last() {
                OrderedTermItemId::Term(item) => {
                    self.lemma_term(before.state, item);
                    lemma_all_sound(
                        before.state,
                        self.term_laid(before.state, item).0,
                        before.docs,
                    );
                },
                OrderedTermItemId::Instance(item) => {
                    self.lemma_shown(before, InstanceSourceItemId::Instance(item));
                },
                OrderedTermItemId::Derive(item) => {
                    self.lemma_shown(before, InstanceSourceItemId::Derive(item));
                },
            }
        }
    }

    proof fn lemma_shown(self, before: Declarations, item: InstanceSourceItemId)
        requires
            all_sound(before.state, before.docs),
        ensures
            all_sound(
                self.instance_shown(before, item).state,
                self.instance_shown(before, item).docs,
            ),
    {
        match source_declaration(*self.own, item) {
            Some(declaration) => match declaration.kind {
                TermDeclarationKind::Instance(instance) => {
                    let name = match source_text(*self.own, item) {
                        Some(name) => name,
                        None => display_name(
                            before.used,
                            self.dictionary_base(declaration.type_id, instance.class),
                        ),
                    };
                    let laid = self.instance_laid(
                        before.state,
                        name,
                        declaration.type_id,
                        instance,
                    );
                    self.lemma_instance(before.state, name, declaration.type_id, instance);
                    lemma_all_sound(before.state, laid.state, before.docs);
                },
                _ => {},
            },
            None => {},
        }
    }

    /// What is asked of the printer of types can be answered one by one: a request
    /// refers to scopes and names of earlier ones only. And every text that the
    /// layout of a module leaves open is the answer to a request.
    pub proof fn lemma_requests_in_order(self)
        requires
            self.module_laid(Printed::empty()).state.requests.len() <= usize::MAX,
        ensures
            ({
                let laid = self.module_laid(Printed::empty());
                in_order(laid.state.requests) && is_answered(laid.doc, laid.state.requests)
            }),
    {
        let count = self.own.indexed@.items.types.len();
        let types = self.types_listed(Printed::empty(), count);
        let begun = Declarations {
            state: types.state,
            docs: types.docs,
            used: module_names(*self.own),
        };
        let terms = self.own.indexed@.items.ordered_terms;
        let listed = self.terms_listed(begun, terms);
        let gap = Doc::Hardline.append(Doc::Hardline);
        self.lemma_types(Printed::empty(), count);
        self.lemma_terms(begun, terms);
        assert(is_answered(gap, listed.state.requests)) by {
            reveal_with_fuel(is_answered, 2);
        }
        lemma_joined(listed.state, listed.docs, gap);
    }
}

} // verus!
