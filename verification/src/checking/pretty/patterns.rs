//! The layout of patterns.

use super::super::tree::{limited, limit, BinderId, BinderKind, BinderSource, RecordBinderField};
use super::evidence::{Printed, Printing};
use super::layout::{join, joined, models, text, Doc, Layout, Separator};
use super::printer::{
    character_literal, character_text, section_name, section_text, Printer, TypeRequest,
};
use crate::text::{signed, signed_text};
use vstd::prelude::*;

verus! {

/// A document with the state behind it.
pub struct Laid {
    pub state: Printed,
    pub doc: Doc,
}

/// Documents with the state behind them.
pub struct Listed {
    pub state: Printed,
    pub docs: Seq<Doc>,
}

/// A document that is a text.
pub open spec fn laid_text(state: Printed, text: Seq<char>) -> Laid {
    Laid { state, doc: Doc::Text(text) }
}

/// The document of a text that the printer of types gives.
pub open spec fn answered(state: Printed) -> Doc {
    Doc::Answer(state.requests.len())
}

impl<'a> Printer<'a> {
    /// The name of a variable pattern.
    pub open spec fn variable_text(self, source: BinderSource) -> Seq<char> {
        match source {
            BinderSource::Binder(source) => self.source_binder_text(source),
            BinderSource::Section(source) => section_text(source),
            BinderSource::Generated { name, .. } => self.interned_text(name),
            _ => "<error>"@,
        }
    }

    fn variable_name(&self, source: BinderSource) -> (name: String)
        ensures
            name@ == self.variable_text(source),
    {
        match source {
            BinderSource::Binder(source) => self.source_binder_name(source),
            BinderSource::Section(source) => section_name(source),
            BinderSource::Generated { name, .. } => self.interned_name(name),
            _ => "<error>".to_owned(),
        }
    }

    /// A pattern. `depth` bounds how deep patterns are looked into.
    pub open spec fn pattern(self, state: Printed, id: BinderId, scope: usize, depth: nat) -> Laid
        decreases depth, 0nat, 0nat,
    {
        match self.own.checked.tree@.binder_at(id) {
            Some(binder) if depth > 0 => {
                let inner = (depth - 1) as nat;
                match binder.kind {
                    BinderKind::Error => laid_text(state, "<error>"@),
                    BinderKind::Typed { binder, annotation } => {
                        let laid = self.pattern(state, binder, scope, inner);
                        Laid {
                            state: laid.state.asked(
                                TypeRequest::Render { scope, type_id: annotation },
                            ),
                            doc: Doc::Text("("@).append(laid.doc).then_text(" :: "@).append(
                                answered(laid.state),
                            ).then_text(")"@),
                        }
                    },
                    BinderKind::Integer { value } => laid_text(
                        state,
                        if value < 0 {
                            "("@ + signed(value as int) + ")"@
                        } else {
                            signed(value as int)
                        },
                    ),
                    BinderKind::Number { negative, value } => laid_text(
                        state,
                        if negative {
                            "(-"@ + value@ + ")"@
                        } else {
                            value@
                        },
                    ),
                    BinderKind::Variable => laid_text(state, self.variable_text(binder.source)),
                    BinderKind::Named { name, binder } => {
                        let laid = self.pattern(state, binder, scope, inner);
                        Laid { doc: Doc::Text(name@ + "@"@).append(laid.doc), ..laid }
                    },
                    BinderKind::Wildcard => laid_text(state, "_"@),
                    BinderKind::String { value } => laid_text(state, value.normal@),
                    BinderKind::Char { value } => laid_text(state, character_text(value)),
                    BinderKind::Boolean { value } => laid_text(
                        state,
                        if value {
                            "true"@
                        } else {
                            "false"@
                        },
                    ),
                    BinderKind::Array { elements } => {
                        let listed = self.patterns(
                            state,
                            elements@,
                            elements@.len(),
                            scope,
                            inner,
                        );
                        Laid {
                            state: listed.state,
                            doc: Doc::Text("["@).append(
                                joined(listed.docs, Doc::Text(", "@)),
                            ).then_text("]"@),
                        }
                    },
                    BinderKind::Record { fields } => {
                        let listed = self.pattern_fields(
                            state,
                            fields@,
                            fields@.len(),
                            scope,
                            inner,
                        );
                        Laid {
                            state: listed.state,
                            doc: Doc::Text("{ "@).append(
                                joined(listed.docs, Doc::Text(", "@)),
                            ).then_text(" }"@),
                        }
                    },
                    BinderKind::Constructor { resolution, arguments } => {
                        let name = match self.term_text(resolution.0, resolution.1) {
                            Some(name) => name,
                            None => "?"@,
                        };
                        let listed = self.patterns(
                            state,
                            arguments@,
                            arguments@.len(),
                            scope,
                            inner,
                        );
                        Laid {
                            state: listed.state,
                            doc: if arguments@.len() == 0 {
                                Doc::Text(name)
                            } else {
                                Doc::Text(name).then_text(" "@).append(
                                    joined(listed.docs, Doc::Text(" "@)),
                                ).parenthesized()
                            },
                        }
                    },
                }
            },
            _ => laid_text(state, "<error>"@),
        }
    }

    /// The first patterns of a list.
    pub open spec fn patterns(
        self,
        state: Printed,
        ids: Seq<BinderId>,
        count: nat,
        scope: usize,
        depth: nat,
    ) -> Listed
        decreases depth, 1nat, count,
    {
        if count == 0 || count > ids.len() {
            Listed { state, docs: Seq::empty() }
        } else {
            let before = self.patterns(state, ids, (count - 1) as nat, scope, depth);
            let laid = self.pattern(before.state, ids[count - 1], scope, depth);
            Listed { state: laid.state, docs: before.docs.push(laid.doc) }
        }
    }

    /// The first fields of a record pattern.
    pub open spec fn pattern_fields(
        self,
        state: Printed,
        fields: Seq<RecordBinderField>,
        count: nat,
        scope: usize,
        depth: nat,
    ) -> Listed
        decreases depth, 1nat, count,
    {
        if count == 0 || count > fields.len() {
            Listed { state, docs: Seq::empty() }
        } else {
            let before = self.pattern_fields(state, fields, (count - 1) as nat, scope, depth);
            match fields[count - 1] {
                RecordBinderField::Field { label, binder } => {
                    let laid = self.pattern(before.state, binder, scope, depth);
                    Listed {
                        state: laid.state,
                        docs: before.docs.push(Doc::Text(label@ + ": "@).append(laid.doc)),
                    }
                },
                RecordBinderField::Pun { label } => Listed {
                    docs: before.docs.push(Doc::Text(label@)),
                    ..before
                },
            }
        }
    }

    /// How deep patterns are looked into: as deep as they can be without a circle.
    pub open spec fn pattern_depth(self) -> nat {
        limit(self.own.checked.tree@.binders.len(), 0)
    }

    /// A whole pattern.
    pub open spec fn pattern_laid(self, state: Printed, id: BinderId, scope: usize) -> Laid {
        self.pattern(state, id, scope, self.pattern_depth())
    }

    /// Whole patterns.
    pub open spec fn patterns_laid(self, state: Printed, ids: Seq<BinderId>, scope: usize) -> Listed {
        self.patterns(state, ids, ids.len(), scope, self.pattern_depth())
    }

    fn layout_pattern(&self, printing: &mut Printing, id: BinderId, scope: usize, depth: usize) -> (layout:
        Layout)
        ensures
            (Laid { state: final(printing)@, doc: layout@ }) == self.pattern(
                old(printing)@,
                id,
                scope,
                depth as nat,
            ),
        decreases depth, 0nat, 0nat,
    {
        if depth == 0 {
            return text("<error>");
        }
        let Some(binder) = self.own.checked.tree.find_binder(id) else {
            return text("<error>");
        };
        let inner: usize = depth - 1;
        match &binder.kind {
            BinderKind::Error => text("<error>"),
            BinderKind::Typed { binder, annotation } => {
                let layout = self.layout_pattern(printing, *binder, scope, inner);
                let answer: usize = printing.ask(
                    TypeRequest::Render { scope, type_id: *annotation },
                );
                text("(").append(layout).then_text(" :: ").append(
                    Layout::Answer(answer),
                ).then_text(")")
            },
            BinderKind::Integer { value } => {
                let number = signed_text(*value);
                if *value < 0 {
                    let mut output = "(".to_owned();
                    output.append(number.as_str());
                    output.append(")");
                    Layout::Text(output)
                } else {
                    Layout::Text(number)
                }
            },
            BinderKind::Number { negative, value } => {
                if *negative {
                    let mut output = "(-".to_owned();
                    output.append(value.as_str());
                    output.append(")");
                    Layout::Text(output)
                } else {
                    Layout::Text(value.clone())
                }
            },
            BinderKind::Variable => Layout::Text(self.variable_name(binder.source)),
            BinderKind::Named { name, binder } => {
                let layout = self.layout_pattern(printing, *binder, scope, inner);
                let mut head = name.clone();
                head.append("@");
                Layout::Text(head).append(layout)
            },
            BinderKind::Wildcard => text("_"),
            BinderKind::String { value } => Layout::Text(value.normal.clone()),
            BinderKind::Char { value } => Layout::Text(character_literal(*value)),
            BinderKind::Boolean { value } => if *value {
                text("true")
            } else {
                text("false")
            },
            BinderKind::Array { elements } => {
                let layouts = self.layout_patterns(printing, elements, scope, inner);
                text("[").append(join(layouts, Separator::Comma)).then_text("]")
            },
            BinderKind::Record { fields } => {
                let layouts = self.layout_pattern_fields(printing, fields, scope, inner);
                text("{ ").append(join(layouts, Separator::Comma)).then_text(" }")
            },
            BinderKind::Constructor { resolution, arguments } => {
                let name = match self.term_name(resolution.0, resolution.1) {
                    Some(name) => name,
                    None => "?".to_owned(),
                };
                let layouts = self.layout_patterns(printing, arguments, scope, inner);
                if arguments.len() == 0 {
                    return Layout::Text(name);
                }
                Layout::Text(name).then_text(" ").append(
                    join(layouts, Separator::Space),
                ).parenthesized()
            },
        }
    }

    fn layout_patterns(
        &self,
        printing: &mut Printing,
        ids: &Vec<BinderId>,
        scope: usize,
        depth: usize,
    ) -> (layouts: Vec<Layout>)
        ensures
            (Listed { state: final(printing)@, docs: models(layouts@) }) == self.patterns(
                old(printing)@,
                ids@,
                ids@.len(),
                scope,
                depth as nat,
            ),
        decreases depth, 1nat, ids@.len(),
    {
        let mut layouts: Vec<Layout> = Vec::new();
        let mut index: usize = 0;
        assert(models(layouts@) =~= Seq::empty());
        while index < ids.len()
            invariant
                index <= ids.len(),
                (Listed { state: printing@, docs: models(layouts@) }) == self.patterns(
                    old(printing)@,
                    ids@,
                    index as nat,
                    scope,
                    depth as nat,
                ),
            decreases ids.len() - index,
        {
            let ghost before = models(layouts@);
            let layout = self.layout_pattern(printing, ids[index], scope, depth);
            layouts.push(layout);
            assert(models(layouts@) =~= before.push(layout@));
            index += 1;
        }
        layouts
    }

    fn layout_pattern_fields(
        &self,
        printing: &mut Printing,
        fields: &Vec<RecordBinderField>,
        scope: usize,
        depth: usize,
    ) -> (layouts: Vec<Layout>)
        ensures
            (Listed { state: final(printing)@, docs: models(layouts@) }) == self.pattern_fields(
                old(printing)@,
                fields@,
                fields@.len(),
                scope,
                depth as nat,
            ),
        decreases depth, 1nat, fields@.len(),
    {
        let mut layouts: Vec<Layout> = Vec::new();
        let mut index: usize = 0;
        assert(models(layouts@) =~= Seq::empty());
        while index < fields.len()
            invariant
                index <= fields.len(),
                (Listed { state: printing@, docs: models(layouts@) }) == self.pattern_fields(
                    old(printing)@,
                    fields@,
                    index as nat,
                    scope,
                    depth as nat,
                ),
            decreases fields.len() - index,
        {
            let ghost before = models(layouts@);
            let layout = match &fields[index] {
                RecordBinderField::Field { label, binder } => {
                    let layout = self.layout_pattern(printing, *binder, scope, depth);
                    let mut head = label.clone();
                    head.append(": ");
                    Layout::Text(head).append(layout)
                },
                RecordBinderField::Pun { label } => Layout::Text(label.clone()),
            };
            layouts.push(layout);
            assert(models(layouts@) =~= before.push(layout@));
            index += 1;
        }
        layouts
    }

    /// A whole pattern.
    pub fn binder(&self, printing: &mut Printing, id: BinderId, scope: usize) -> (layout: Layout)
        ensures
            (Laid { state: final(printing)@, doc: layout@ }) == self.pattern_laid(
                old(printing)@,
                id,
                scope,
            ),
    {
        let depth: usize = limited(self.own.checked.tree.binder_count(), 0);
        self.layout_pattern(printing, id, scope, depth)
    }

    /// Whole patterns.
    pub fn binders(&self, printing: &mut Printing, ids: &Vec<BinderId>, scope: usize) -> (layouts: Vec<
        Layout,
    >)
        ensures
            (Listed { state: final(printing)@, docs: models(layouts@) }) == self.patterns_laid(
                old(printing)@,
                ids@,
                scope,
            ),
    {
        let depth: usize = limited(self.own.checked.tree.binder_count(), 0);
        self.layout_patterns(printing, ids, scope, depth)
    }
}

} // verus!
