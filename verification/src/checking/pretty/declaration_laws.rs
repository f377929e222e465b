//! What declarations are printed as, whatever the width of a line.

use super::super::tree::{
    entry, ClassMember, DeclarationAbstraction, Equation, TypeDeclaration, TypeDeclarationId,
    TypeDeclarationKind, ValueDeclaration,
};
use super::super::types::{Type, TypeId};
use super::declarations::{constructor_doc, is_enclosed, with_parameters, ParameterName};
use super::evidence::Printed;
use super::expressions::{abstracted, equation_doc, lambda_docs, with_body, with_result};
use super::layout::Doc;
use super::module::keyword_of;
use super::printer::{Printer, TypeRequest};
use super::written::{
    all_written, enclosed, group_written, lemma_joined_written, separated, spaced, written,
};
use crate::indexing::items::{TermItemId, TypeItemId};
use vstd::prelude::*;

verus! {

broadcast use group_written;

// Equations

proof fn lemma_abstracted(documents: Seq<Doc>, answers: Seq<Seq<char>>)
    requires
        documents.len() > 0,
    ensures
        written(abstracted(documents), answers) == separated(
            all_written(documents, answers),
            seq![' '],
        ),
    decreases documents.len(),
{
    let texts = all_written(documents, answers);
    if documents.len() > 1 {
        lemma_abstracted(documents.drop_last(), answers);
        super::written::lemma_separated(texts, seq![' ']);
        assert(texts.drop_last() =~= all_written(documents.drop_last(), answers));
        assert(written(abstracted(documents), answers) =~= separated(texts, seq![' ']));
    }
}

/// An equation is its name, an equals sign, what it abstracts over and its body, whether
/// the body begins on a line of its own or not.
pub proof fn lemma_equation_written(
    name: Seq<char>,
    abstractions: Seq<Doc>,
    body: Doc,
    forced: bool,
    lambda: bool,
    answers: Seq<Seq<char>>,
)
    ensures
        written(equation_doc(name, abstractions, body, forced, lambda), answers) == name + " ="@
            + (if abstractions.len() == 0 {
            Seq::empty()
        } else {
            spaced(separated(all_written(abstractions, answers), seq![' ']))
        }) + spaced(written(body, answers)),
{
    reveal_strlit(" = ");
    reveal_strlit(" =");
    assert(" = "@ =~= " ="@ + seq![' ']);
    let whole = written(equation_doc(name, abstractions, body, forced, lambda), answers);
    if abstractions.len() > 0 {
        lemma_abstracted(abstractions, answers);
        let listed = separated(all_written(abstractions, answers), seq![' ']);
        assert(whole =~= name + " ="@ + spaced(listed) + spaced(written(body, answers)));
    } else {
        assert(whole =~= name + " ="@ + Seq::empty() + spaced(written(body, answers)));
    }
}

/// A body stands behind its head and a space, whether it begins on a line of its own or
/// not.
pub proof fn lemma_body_written(head: Doc, body: Doc, forced: bool, answers: Seq<Seq<char>>)
    ensures
        written(with_body(head, body, forced), answers) == written(head, answers) + spaced(
            written(body, answers),
        ),
        written(with_result(head, body, forced), answers) == written(head, answers) + spaced(
            written(body, answers),
        ),
{
    reveal_strlit(" ");
    assert(" "@ =~= seq![' ']);
    assert(written(with_result(head, body, forced), answers) =~= written(head, answers) + spaced(
        written(body, answers),
    ));
}

/// The patterns of an equation are functions, in order.
pub proof fn lemma_pattern_functions(patterns: Seq<Doc>, index: int, answers: Seq<Seq<char>>)
    requires
        0 <= index < patterns.len(),
    ensures
        lambda_docs(patterns).len() == patterns.len(),
        written(lambda_docs(patterns)[index], answers) == seq!['\\'] + written(
            patterns[index],
            answers,
        ) + " ->"@,
{
    reveal_strlit("\\");
    assert("\\"@ =~= seq!['\\']);
    assert(written(lambda_docs(patterns)[index], answers) =~= seq!['\\'] + written(
        patterns[index],
        answers,
    ) + " ->"@);
}

// Types

/// The texts of parameters, each behind a space; a visible one is marked where it is
/// declared.
pub open spec fn parameter_texts(
    names: Seq<ParameterName>,
    declared: bool,
    answers: Seq<Seq<char>>,
) -> Seq<char>
    decreases names.len(),
{
    if names.len() == 0 {
        Seq::empty()
    } else {
        let name = names[0];
        let text = if name.display < answers.len() {
            answers[name.display as int]
        } else {
            Seq::empty()
        };
        let mark = if declared && name.visible {
            seq![' ', '@']
        } else {
            seq![' ']
        };
        mark + text + parameter_texts(names.skip(1), declared, answers)
    }
}

proof fn lemma_parameter_push(
    names: Seq<ParameterName>,
    declared: bool,
    answers: Seq<Seq<char>>,
)
    requires
        names.len() > 0,
    ensures
        parameter_texts(names, declared, answers) == parameter_texts(
            names.drop_last(),
            declared,
            answers,
        ) + parameter_texts(seq![names.last()], declared, answers),
    decreases names.len(),
{
    let last = seq![names.last()];
    if names.len() == 1 {
        assert(names =~= last);
        assert(names.drop_last() =~= Seq::empty());
        assert(parameter_texts(names, declared, answers) =~= parameter_texts(
            names.drop_last(),
            declared,
            answers,
        ) + parameter_texts(last, declared, answers));
    } else {
        lemma_parameter_push(names.skip(1), declared, answers);
        assert(names.skip(1).drop_last() =~= names.drop_last().skip(1));
        assert(names.skip(1).last() == names.last());
        assert(names.drop_last()[0] == names[0]);
        assert(parameter_texts(names, declared, answers) =~= parameter_texts(
            names.drop_last(),
            declared,
            answers,
        ) + parameter_texts(last, declared, answers));
    }
}

/// The parameters of a type stand behind its name, in order.
pub proof fn lemma_parameters_written(
    head: Doc,
    names: Seq<ParameterName>,
    declared: bool,
    answers: Seq<Seq<char>>,
)
    ensures
        written(with_parameters(head, names, declared), answers) == written(head, answers)
            + parameter_texts(names, declared, answers),
    decreases names.len(),
{
    if names.len() == 0 {
        assert(written(head, answers) + Seq::empty() =~= written(head, answers));
    } else {
        reveal_strlit(" @");
        reveal_strlit(" ");
        assert(" @"@ =~= seq![' ', '@']);
        assert(" "@ =~= seq![' ']);
        lemma_parameters_written(head, names.drop_last(), declared, answers);
        lemma_parameter_push(names, declared, answers);
        assert(seq![names.last()].skip(1) =~= Seq::empty());
        reveal_with_fuel(parameter_texts, 2);
        assert(written(with_parameters(head, names, declared), answers) =~= written(head, answers)
            + parameter_texts(names, declared, answers));
    }
}

/// A constructor is shown behind a bar, with its name and its type.
pub proof fn lemma_constructor_declared(
    name: Seq<char>,
    signature: Doc,
    answers: Seq<Seq<char>>,
)
    ensures
        written(constructor_doc(name, signature), answers) == "  | "@ + name + " ::"@ + spaced(
            written(signature, answers),
        ),
{
    assert(written(constructor_doc(name, signature), answers) =~= "  | "@ + name + " ::"@ + spaced(
        written(signature, answers),
    ));
}

/// What kind of type is declared is told by its keyword.
pub proof fn lemma_keywords(declaration: TypeDeclarationKind)
    ensures
        keyword_of(declaration) == (match declaration {
            TypeDeclarationKind::Data(_) => seq!['d', 'a', 't', 'a'],
            TypeDeclarationKind::Newtype(_) => seq!['n', 'e', 'w', 't', 'y', 'p', 'e'],
            TypeDeclarationKind::Class(_) => seq!['i', 'n', 't', 'e', 'r', 'f', 'a', 'c', 'e'],
        }),
{
    reveal_strlit("data");
    reveal_strlit("newtype");
    reveal_strlit("interface");
    assert("data"@ =~= seq!['d', 'a', 't', 'a']);
    assert("newtype"@ =~= seq!['n', 'e', 'w', 't', 'y', 'p', 'e']);
    assert("interface"@ =~= seq!['i', 'n', 't', 'e', 'r', 'f', 'a', 'c', 'e']);
}

/// A text or nothing.
pub open spec fn answer_at(answers: Seq<Seq<char>>, index: int) -> Seq<char> {
    if 0 <= index < answers.len() {
        answers[index]
    } else {
        Seq::empty()
    }
}

impl<'a> Printer<'a> {
    /// The types of a constructor's arguments stand in front of its result, in order,
    /// each behind the one before it and an arrow. One that would swallow the arrow is in
    /// parentheses. The types are asked for from the last to the first.
    pub proof fn lemma_signature_written(
        self,
        state: Printed,
        scope: usize,
        arguments: Seq<TypeId>,
        result: Doc,
        answers: Seq<Seq<char>>,
    )
        ensures
            ({
                let laid = self.signature_laid(state, scope, arguments, result);
                written(laid.doc, answers) == self.arrows(
                    state.requests.len() as int,
                    arguments,
                    written(result, answers),
                    answers,
                )
            }),
        decreases arguments.len(),
    {
        if arguments.len() > 0 {
            let argument = arguments.last();
            let answer = Doc::Answer(state.requests.len());
            let shown = if is_enclosed(self.type_of(argument)) {
                answer.parenthesized()
            } else {
                answer
            };
            let next = shown.then_text(" ->"@).append(result.behind()).group();
            self.lemma_signature_written(
                state.asked(TypeRequest::Render { scope, type_id: argument }),
                scope,
                arguments.drop_last(),
                next,
                answers,
            );
            let text = answer_at(answers, state.requests.len() as int);
            let own = if self.swallows_arrow(argument) {
                enclosed(text)
            } else {
                text
            };
            assert(self.swallows_arrow(argument) == is_enclosed(self.type_of(argument)));
            assert(written(next, answers) =~= own + " ->"@ + spaced(written(result, answers)));
        }
    }

    /// The type ends in something that an arrow behind it would belong to.
    pub open spec fn swallows_arrow(self, id: TypeId) -> bool {
        self.types@.has_type(id) && match self.types@.type_at(id) {
            Type::Forall(..) => true,
            Type::Constrained(..) => true,
            Type::Function(..) => true,
            Type::Kinded(..) => true,
            _ => false,
        }
    }

    /// Types and a result with arrows in between. The last of the types is answered
    /// first.
    pub open spec fn arrows(
        self,
        first: int,
        arguments: Seq<TypeId>,
        result: Seq<char>,
        answers: Seq<Seq<char>>,
    ) -> Seq<char>
        decreases arguments.len(),
    {
        if arguments.len() == 0 {
            result
        } else {
            let text = answer_at(answers, first);
            let own = if self.swallows_arrow(arguments.last()) {
                enclosed(text)
            } else {
                text
            };
            self.arrows(
                first + 1,
                arguments.drop_last(),
                own + " ->"@ + spaced(result),
                answers,
            )
        }
    }

    /// A member of a class that has a name is shown with its name and its type.
    pub proof fn lemma_member_written(
        self,
        state: Printed,
        members: Seq<ClassMember>,
        count: nat,
        name: Seq<char>,
        answers: Seq<Seq<char>>,
    )
        requires
            0 < count <= members.len(),
            self.bears(self.file, members[count - 1].source, name),
        ensures
            ({
                let before = self.members_listed(state, members, (count - 1) as nat);
                let listed = self.members_listed(state, members, count);
                &&& listed.docs.len() == before.docs.len() + 1
                &&& listed.docs.drop_last() == before.docs
                &&& written(listed.docs.last(), answers) == "  "@ + name + " :: "@ + answer_at(
                    answers,
                    before.state.requests.len() as int,
                )
                &&& listed.state == before.state.asked(
                    TypeRequest::RenderAlone {
                        signature: false,
                        type_id: members[count - 1].field_type,
                    },
                )
            }),
    {
        let before = self.members_listed(state, members, (count - 1) as nat);
        let listed = self.members_listed(state, members, count);
        assert(listed.docs.drop_last() =~= before.docs);
        assert(written(listed.docs.last(), answers) =~= "  "@ + name + " :: "@ + answer_at(
            answers,
            before.state.requests.len() as int,
        ));
    }

    /// A foreign value that has a name is shown with its name and its type.
    pub proof fn lemma_foreign_written(
        self,
        state: Printed,
        item: TermItemId,
        name: Seq<char>,
        answers: Seq<Seq<char>>,
    )
        requires
            self.bears(self.file, item, name),
            self.term_declared(item) is Some,
            self.term_declared(item)->0.kind is Foreign,
        ensures
            ({
                let (after, doc) = self.term_laid(state, item);
                &&& doc is Some
                &&& written(doc->0, answers) == "foreign import "@ + name + " :: "@ + answer_at(
                    answers,
                    state.requests.len() as int,
                )
                &&& after == state.asked(
                    TypeRequest::RenderAlone {
                        signature: true,
                        type_id: self.term_declared(item)->0.type_id,
                    },
                )
            }),
    {
        let (after, doc) = self.term_laid(state, item);
        assert(written(doc->0, answers) =~= "foreign import "@ + name + " :: "@ + answer_at(
            answers,
            state.requests.len() as int,
        ));
    }
}

// Values and modules

impl<'a> Printer<'a> {
    /// A value is shown with its name and its type, and its equations behind, in order.
    pub proof fn lemma_value_written(
        self,
        state: Printed,
        name: Seq<char>,
        type_id: TypeId,
        value: ValueDeclaration,
        answers: Seq<Seq<char>>,
    ) -> (equations: Seq<Doc>)
        requires
            self.value_laid(state, name, type_id, value).1 is Some,
        ensures
            written(self.value_laid(state, name, type_id, value).1->0, answers) == name + " :: "@
                + answer_at(answers, (state.requests.len() + 1) as int) + seq![' '] + separated(
                all_written(equations, answers),
                seq![' '],
            ),
            equations.len() == value.equations@.len(),
    {
        let abstractions = value.abstractions@;
        let own = state.requests.len() as usize;
        let begun = state.asked(TypeRequest::Begin { signature: true });
        let rigids = self.rigids_named(
            begun.asked(TypeRequest::Render { scope: own, type_id }),
            own,
            abstractions,
            abstractions.len(),
        );
        let named = self.evidence_begun(
            rigids.state.without_evidence(),
            abstractions,
            abstractions.len(),
        );
        let scope = named.requests.len() as usize;
        let assigned = self.rigids_assigned(
            named.asked(TypeRequest::Begin { signature: false }),
            scope,
            rigids.names,
            rigids.names.len(),
        );
        let listed = self.equations_listed(
            assigned,
            name,
            false,
            abstractions,
            value.equations@,
            value.equations@.len(),
            scope,
            self.tree_depth(),
        );
        self.lemma_equation_count(
            assigned,
            name,
            false,
            abstractions,
            value.equations@,
            value.equations@.len(),
            scope,
            self.tree_depth(),
        );
        lemma_joined_written(listed.docs, Doc::Hardline, answers);
        let doc = self.value_laid(state, name, type_id, value).1->0;
        assert(begun.requests.len() == state.requests.len() + 1);
        assert(written(doc, answers) =~= name + " :: "@ + answer_at(
            answers,
            (state.requests.len() + 1) as int,
        ) + seq![' '] + separated(all_written(listed.docs, answers), seq![' ']));
        listed.docs
    }

    /// There is a text for each equation.
    proof fn lemma_equation_count(
        self,
        state: Printed,
        name: Seq<char>,
        indented: bool,
        abstractions: Seq<DeclarationAbstraction>,
        equations: Seq<Equation>,
        count: nat,
        scope: usize,
        depth: nat,
    )
        requires
            count <= equations.len(),
        ensures
            self.equations_listed(
                state,
                name,
                indented,
                abstractions,
                equations,
                count,
                scope,
                depth,
            ).docs.len() == count,
        decreases count,
    {
        if count > 0 {
            self.lemma_equation_count(
                state,
                name,
                indented,
                abstractions,
                equations,
                (count - 1) as nat,
                scope,
                depth,
            );
        }
    }

    /// Every type of a module that can be shown is shown, in the order of the items.
    pub proof fn lemma_types_shown(self, state: Printed, count: nat, index: nat)
        requires
            index < count,
            self.type_laid(
                self.types_listed(state, index).state,
                TypeItemId { raw: index as u32 },
            ).1 is Some,
        ensures
            self.types_listed(state, count).docs.contains(
                self.type_laid(
                    self.types_listed(state, index).state,
                    TypeItemId { raw: index as u32 },
                ).1->0,
            ),
            self.types_listed(state, index).docs.is_prefix_of(
                self.types_listed(state, count).docs,
            ),
        decreases count,
    {
        let item = TypeItemId { raw: index as u32 };
        let before = self.types_listed(state, index);
        let doc = self.type_laid(before.state, item).1->0;
        let docs = self.types_listed(state, count).docs;
        if index == count - 1 {
            assert(docs.last() == doc);
        } else {
            self.lemma_types_shown(state, (count - 1) as nat, index);
            let shorter = self.types_listed(state, (count - 1) as nat).docs;
            let i = choose|i: int| 0 <= i < shorter.len() && shorter[i] == doc;
            assert(docs[i] == doc);
        }
    }

    /// A type that has a name and a declaration is shown, with its keyword and its kind.
    pub proof fn lemma_type_written(
        self,
        state: Printed,
        item: TypeItemId,
        id: TypeDeclarationId,
        declaration: TypeDeclaration,
        name: Seq<char>,
        answers: Seq<Seq<char>>,
    )
        requires
            item.raw < self.own.indexed@.items.types.len(),
            self.own.indexed@.items.types[item.raw as int].name == Some(name),
            entry(self.own.checked.tree@.types, item.raw) == Some(id),
            self.own.checked.tree@.type_at(id) == Some(declaration),
        ensures
            ({
                let shown = self.type_laid(state, item).1;
                let head = keyword_of(declaration.declaration) + seq![' '] + answer_at(
                    answers,
                    (state.requests.len() + 1) as int,
                ) + seq![' '];
                &&& shown is Some
                &&& head.is_prefix_of(written(shown->0, answers))
            }),
    {
        reveal_strlit(" ");
        assert(" "@ =~= seq![' ']);
        let doc = self.type_laid(state, item).1->0;
        let text = written(doc, answers);
        let head = keyword_of(declaration.declaration) + seq![' '] + answer_at(
            answers,
            (state.requests.len() + 1) as int,
        ) + seq![' '];
        assert(text.take(head.len() as int) =~= head);
        assert forall|i: int| 0 <= i < head.len() implies head[i] == text[i] by {
            assert(text.take(head.len() as int)[i] == head[i]);
        }
    }
}

} // verus!
