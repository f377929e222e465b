use compiler_frontend::checking::evidence::{
    Evidence, EvidenceBinderId, EvidenceId, EvidenceState, EvidenceVarId, InstanceCandidateOrigin,
    ReflectableEvidence, ReflectableOrdering, SuperclassId, SynthesizedEvidence,
};
use compiler_frontend::checking::lowering::{
    SourceId, StringKind, StringLiteral, TermVariableResolution,
};
use compiler_frontend::checking::pretty::evidence::{InstanceNames, Printing};
use compiler_frontend::checking::pretty::layout::{join, text, Layout, Separator};
use compiler_frontend::checking::pretty::module::{
    Pretty, PrettyConfig, PrettyQueries, Rendering,
};
use compiler_frontend::checking::pretty::names::PrettyNames;
use compiler_frontend::checking::pretty::printer::{
    character_literal, section_name, uncapitalize, LoweredNames, ModuleData, Printer, PunName,
    SourceBinderName, TypeRequest,
};
use compiler_frontend::checking::state::CheckedModule;
use compiler_frontend::checking::tree::{
    Binder, BinderId, BinderKind, BinderSource, CaseAlternative, ClassDeclaration, ClassMember,
    ClassSuperclass, DataConstructor, DataDeclaration, DeclarationAbstraction, Equation,
    EquationSourceId, Expression, ExpressionId, ExpressionKind, GuardedAlternative,
    GuardedExpression, InstanceDeclaration, InstanceEvidence, InstanceImplementation,
    InstanceMember, InstanceSuperclass, LetBindingChunk, LetBindings, LocalDeclaration,
    PatternGuard, RecordBinderField, RecordExpressionField, RecordExpressionUpdate,
    TermDeclaration, TermDeclarationKind, TypeDeclaration, TypeDeclarationKind, ValueDeclaration,
    VariableResolution, WhereExpression,
};
use compiler_frontend::checking::types::{
    Depth, FileId, ForallBinder, ForallBinderId, Name, Type, TypeId, Types,
};
use compiler_frontend::collections::IdMap;
use compiler_frontend::indexing::items::{DeriveItemId, InstanceItemId, TermItemId, TypeItemId};
use compiler_frontend::indexing::module::index_module;
use compiler_frontend::indexing::source::{
    AstId, Declaration, DeclarationKind, InstanceSyntax, ModuleSyntax, NamedSyntax,
};

const FILE: FileId = FileId { raw: 1 };

fn ast(raw: u32) -> AstId {
    AstId { raw }
}

fn source(raw: u32) -> SourceId {
    SourceId { raw }
}

fn term(raw: u32) -> TermItemId {
    TermItemId { raw }
}

fn ty(raw: u32) -> TypeItemId {
    TypeItemId { raw }
}

fn named(raw: u32, name: &str) -> NamedSyntax {
    NamedSyntax { id: ast(raw), name: Some(name.to_string()) }
}

fn label(text: &str) -> String {
    text.to_string()
}

struct World {
    module: ModuleData,
    queries: PrettyQueries,
}

fn world(declarations: Vec<DeclarationKind>) -> World {
    let declarations = declarations
        .into_iter()
        .enumerate()
        .map(|(number, kind)| Declaration { id: ast(number as u32), kind })
        .collect();
    let indexed = index_module(&ModuleSyntax {
        name: Some("Main".to_string()),
        exports: None,
        imports: vec![],
        declarations,
    });
    let mut lowered = IdMap::empty();
    lowered.put(
        FILE.raw as u64,
        LoweredNames { binders: IdMap::empty(), lets: IdMap::empty(), puns: vec![] },
    );
    let mut module_names = IdMap::empty();
    module_names.put(FILE.raw as u64, "Main".to_string());
    World {
        module: ModuleData { indexed, checked: CheckedModule::new() },
        queries: PrettyQueries {
            modules: IdMap::empty(),
            types: Types::new(),
            lowered,
            module_names,
        },
    }
}

fn equation(name: &str, raw: u32) -> DeclarationKind {
    DeclarationKind::ValueEquation { id: ast(raw), name: Some(name.to_string()) }
}

impl World {
    fn expression(&mut self, kind: ExpressionKind) -> ExpressionId {
        let type_id = TypeId { raw: 0 };
        self.module.checked.tree.allocate_expression(Expression { type_id, kind })
    }

    fn integer(&mut self, value: i32) -> ExpressionId {
        self.expression(ExpressionKind::Integer { value })
    }

    fn reference(&mut self, item: u32) -> ExpressionId {
        let resolution = VariableResolution::Source(TermVariableResolution::Reference(
            FILE,
            TermItemId { raw: item },
        ));
        self.expression(ExpressionKind::Variable { resolution })
    }

    fn apply(&mut self, function: ExpressionId, argument: ExpressionId) -> ExpressionId {
        self.expression(ExpressionKind::TermApplication { function, argument })
    }

    fn binder(&mut self, kind: BinderKind) -> BinderId {
        let type_id = TypeId { raw: 0 };
        self.module.checked.tree.allocate_binder(Binder {
            source: BinderSource::Operator(source(9)),
            type_id,
            kind,
        })
    }

    fn variable(&mut self, number: u32, name: &str) -> BinderId {
        let lowered = &mut self.queries.lowered;
        let mut names = LoweredNames { binders: IdMap::empty(), lets: IdMap::empty(), puns: vec![] };
        for other in 0..10 {
            let known = lowered.find(1).and_then(|names| names.binders.find(other));
            if let Some(SourceBinderName::Variable(known)) = known {
                names.binders.put(other, SourceBinderName::Variable(known.clone()));
            }
        }
        names.binders.put(number as u64, SourceBinderName::Variable(name.to_string()));
        lowered.put(1, names);
        self.module.checked.tree.allocate_binder(Binder {
            source: BinderSource::Binder(source(number)),
            type_id: TypeId { raw: 0 },
            kind: BinderKind::Variable,
        })
    }

    fn local(&mut self, number: u32) -> ExpressionId {
        let resolution =
            VariableResolution::Source(TermVariableResolution::Binder(source(number)));
        self.expression(ExpressionKind::Variable { resolution })
    }

    fn value(&mut self, item: u32, binders: Vec<BinderId>, body: GuardedExpression) {
        self.declare(item, vec![], binders, body);
    }

    fn declare(
        &mut self,
        item: u32,
        abstractions: Vec<DeclarationAbstraction>,
        binders: Vec<BinderId>,
        body: GuardedExpression,
    ) {
        let equations = vec![Equation::item(EquationSourceId::Value(ast(0)), binders, body)];
        let value = ValueDeclaration { abstractions, equations };
        self.module.checked.tree.insert_term(
            TermItemId { raw: item },
            TermDeclaration {
                type_id: TypeId { raw: 7 },
                kind: TermDeclarationKind::Value(value),
            },
        );
    }

    fn rendering(&self, config: PrettyConfig) -> Rendering {
        Pretty::with_config(&self.queries, &self.module, config).render(FILE).unwrap()
    }

    fn render_wide(&self, width: usize) -> String {
        let rendering = self.rendering(PrettyConfig::new().width(width));
        rendering.finish(&answers(&rendering))
    }

    fn render(&self) -> String {
        self.render_wide(100)
    }

    fn render_body(&mut self, body: ExpressionId) -> String {
        self.value(0, vec![], plain(body));
        let output = self.render();
        let body = output.strip_prefix("f :: T7\nf =").unwrap();
        body.strip_prefix(' ').unwrap_or(body).to_string()
    }
}

fn plain(body: ExpressionId) -> GuardedExpression {
    GuardedExpression::unconditional(WhereExpression::new(body))
}

fn answers(rendering: &Rendering) -> Vec<String> {
    rendering
        .requests
        .iter()
        .map(|request| match request {
            TypeRequest::Render { type_id, .. } => format!("T{}", type_id.raw),
            TypeRequest::RenderAlone { signature, type_id } => {
                format!("{}{}", if *signature { "S" } else { "T" }, type_id.raw)
            }
            TypeRequest::KindSignature { item, kind, .. } => {
                format!("Type{} :: K{}", item.raw, kind.raw)
            }
            TypeRequest::DisplayName { name, .. } => format!("a{}", name.unique),
            _ => String::new(),
        })
        .collect()
}

#[test]
fn configurations() {
    let config = PrettyConfig::new();
    assert_eq!(config.width, 100);
    assert!(!config.fully_qualified_names);
    assert_eq!(config, PrettyConfig::default());
    assert_eq!(config.width(7).width, 7);
    assert!(config.width(7).fully_qualified_names().fully_qualified_names);
    let types = config.width(7).fully_qualified_names().type_config(true);
    assert_eq!((types.width, types.fully_qualified_names), (7, true));
    assert!(!types.rigid_kinds && !types.forall_kinds);
    assert!(config.type_config(false).forall_kinds && !config.type_config(false).rigid_kinds);
}

#[test]
fn files_without_source_are_not_rendered() {
    let world = world(vec![]);
    let pretty = Pretty::new(&world.queries, &world.module);
    assert!(pretty.render(FileId { raw: 2 }).is_none());
    assert_eq!(pretty.config, PrettyConfig::new());
    assert_eq!(world.render(), "");
}

#[test]
fn values_with_parameters() {
    let mut world = world(vec![equation("f", 0), equation("g", 1)]);
    let x = world.variable(0, "x");
    let y = world.variable(1, "y");
    let body = world.local(0);
    world.value(0, vec![x, y], plain(body));
    let body = world.reference(0);
    world.value(1, vec![], plain(body));
    assert_eq!(world.render(), "f :: T7\nf = \\x -> \\y -> x\n\ng :: T7\ng = f");
}

#[test]
fn literals() {
    let mut world = world(vec![equation("f", 0)]);
    let body = world.integer(-3);
    assert_eq!(world.render_body(body), "-3");
    let body = world.expression(ExpressionKind::Char { value: '\n' });
    assert_eq!(world.render_body(body), "'\\n'");
    let body = world.expression(ExpressionKind::Boolean { value: true });
    assert_eq!(world.render_body(body), "true");
    let body = world.expression(ExpressionKind::Number { value: label("1.5") });
    assert_eq!(world.render_body(body), "1.5");
    let string = |raw: Option<&str>| StringLiteral {
        normal: label("\"a\""),
        raw: raw.map(str::to_string),
    };
    let kind = ExpressionKind::String { kind: StringKind::RawString, value: string(Some("a")) };
    let body = world.expression(kind);
    assert_eq!(world.render_body(body), "\"\"\"a\"\"\"");
    let kind = ExpressionKind::String { kind: StringKind::RawString, value: string(None) };
    let body = world.expression(kind);
    assert_eq!(world.render_body(body), "\"a\"");
    let body = world.expression(ExpressionKind::Error);
    assert_eq!(world.render_body(body), "<error>");
}

#[test]
fn applications_and_records() {
    let mut world = world(vec![equation("f", 0)]);
    let one = world.integer(1);
    let two = world.integer(2);
    let f = world.reference(0);
    let inner = world.apply(f, one);
    let outer = world.apply(f, inner);
    assert_eq!(world.render_body(outer), "f (f 1)");
    let outer = world.apply(inner, two);
    assert_eq!(world.render_body(outer), "f 1 2");
    let array = world.expression(ExpressionKind::Array { elements: vec![one, inner] });
    assert_eq!(world.render_body(array), "[1, f 1]");
    let empty = world.expression(ExpressionKind::Record { fields: vec![] });
    assert_eq!(world.render_body(empty), "{ }");
    let resolution = VariableResolution::Source(TermVariableResolution::Reference(FILE, term(0)));
    let pun = world.expression(ExpressionKind::RecordPun { source: source(0), resolution });
    let fields = vec![
        RecordExpressionField::Field { label: label("a"), expression: one },
        RecordExpressionField::Pun { source: source(0), label: label("f"), expression: pun },
        RecordExpressionField::Pun { source: source(0), label: label("g"), expression: two },
    ];
    let record = world.expression(ExpressionKind::Record { fields });
    assert_eq!(world.render_body(record), "{ a: 1, f, g: 2 }");
    let labels = vec![label("x"), label("y")];
    let access = world.expression(ExpressionKind::RecordAccess { record: inner, labels });
    assert_eq!(world.render_body(access), "(f 1).x.y");
    let updates = vec![
        RecordExpressionUpdate::Leaf { label: label("x"), expression: two },
        RecordExpressionUpdate::Branch {
            label: label("y"),
            updates: vec![RecordExpressionUpdate::Error],
        },
    ];
    let update = world.expression(ExpressionKind::RecordUpdate { record: f, updates });
    assert_eq!(world.render_body(update), "f { x = 2, y { <error> } }");
    let applied = world.apply(f, update);
    assert_eq!(world.render_body(applied), "f f { x = 2, y { <error> } }");
}

#[test]
fn functions_as_last_arguments() {
    let mut world = world(vec![equation("f", 0)]);
    let x = world.variable(0, "x");
    let body = world.local(0);
    let f = world.reference(0);
    let one = world.integer(1);
    let lambda = world.expression(ExpressionKind::Lambda { binders: vec![x], expression: body });
    assert_eq!(world.render_body(lambda), "\\x -> x");
    let last = world.apply(f, lambda);
    assert_eq!(world.render_body(last), "f \\x -> x");
    let more = world.apply(last, one);
    assert_eq!(world.render_body(more), "f (\\x -> x) 1");
}

#[test]
fn conditions() {
    let mut world = world(vec![equation("f", 0)]);
    let one = world.integer(1);
    let two = world.integer(2);
    let condition = world.expression(ExpressionKind::Boolean { value: false });
    let kind = ExpressionKind::IfThenElse { condition, then: one, else_: two };
    let body = world.expression(kind);
    assert_eq!(world.render_body(body), "\n  if false then 1 else 2");
    assert_eq!(
        world.render_wide(10),
        "f :: T7\nf =\n  if false then\n    1\n  else\n    2"
    );
}

#[test]
fn cases_and_patterns() {
    let mut world = world(vec![
        equation("f", 0),
        DeclarationKind::DataEquation {
            id: ast(1),
            name: Some(label("T")),
            constructors: vec![named(2, "C")],
        },
    ]);
    let one = world.integer(1);
    let two = world.integer(2);
    let f = world.reference(0);
    let x = world.variable(0, "x");
    let wildcard = world.binder(BinderKind::Wildcard);
    let negative = world.binder(BinderKind::Integer { value: -1 });
    let arguments = vec![x, negative];
    let constructor =
        world.binder(BinderKind::Constructor { resolution: (FILE, term(1)), arguments });
    let record = world.binder(BinderKind::Record {
        fields: vec![
            RecordBinderField::Field { label: label("a"), binder: x },
            RecordBinderField::Pun { label: label("b") },
        ],
    });
    let guard = PatternGuard::Pattern { binder: x, expression: two };
    let condition = PatternGuard::Boolean { expression: f };
    let guarded = GuardedExpression {
        alternatives: vec![
            GuardedAlternative {
                pattern_guards: vec![guard, condition],
                where_expression: WhereExpression::new(one),
            },
            GuardedAlternative {
                pattern_guards: vec![condition],
                where_expression: WhereExpression::new(two),
            },
        ],
    };
    let kind = ExpressionKind::Case {
        scrutinees: vec![f, one],
        alternatives: vec![
            CaseAlternative { binders: vec![constructor, record], guarded_expression: plain(one) },
            CaseAlternative { binders: vec![wildcard, wildcard], guarded_expression: guarded },
        ],
    };
    let body = world.expression(kind);
    world.value(0, vec![], plain(body));
    assert_eq!(
        world.render(),
        "f :: T7\nf =\n  case f, 1 of\n    (C x (-1)), { a: x, b } -> 1\n    _, _\n      | x <- 2, f -> 1\n      | f -> 2"
    );
}

#[test]
fn bindings() {
    let mut world = world(vec![equation("f", 0)]);
    let one = world.integer(1);
    let two = world.integer(2);
    let x = world.variable(0, "x");
    let local = world.module.checked.tree.insert_let(LocalDeclaration::nullary(
        source(5),
        TypeId { raw: 3 },
        source(6),
        plain(two),
    ));
    let resolution = VariableResolution::Source(TermVariableResolution::Let(source(5)));
    let body = world.expression(ExpressionKind::Variable { resolution });
    let bindings = || LetBindings {
        chunks: vec![
            LetBindingChunk::Names { declarations: vec![local], groups: vec![] },
            LetBindingChunk::Pattern {
                source: source(7),
                binder: x,
                where_expression: WhereExpression::new(one),
            },
        ],
    };
    let kind = ExpressionKind::Let { bindings: bindings(), expression: body };
    let bound = world.expression(kind);
    assert_eq!(
        world.render_body(bound),
        "\n  let\n    <let#5> :: T3\n    <let#5> = 2\n    x = 1\n  in\n    <let#5>"
    );
    let where_expression = WhereExpression { bindings: bindings(), expression: body };
    world.value(0, vec![], GuardedExpression::unconditional(where_expression));
    assert_eq!(
        world.render(),
        "f :: T7\nf = <let#5>\n  where\n  <let#5> :: T3\n  <let#5> = 2\n  x = 1"
    );
}

#[test]
fn circular_trees_end() {
    let mut world = world(vec![equation("f", 0)]);
    let kind = ExpressionKind::Array { elements: vec![ExpressionId { raw: 0 }] };
    let circle = world.expression(kind);
    assert_eq!(world.render_body(circle), "[[<error>]]");
    let missing = ExpressionId { raw: 99 };
    assert_eq!(world.render_body(missing), "<error>");
}

fn rigid(world: &mut World, unique: u32) -> (ForallBinderId, TypeId) {
    let name = Name { file: FILE, unique, scope: None };
    let kind = TypeId { raw: 0 };
    let types = &mut world.queries.types;
    let binder =
        types.intern_forall_binder(ForallBinder { visible: true, name, kind, scope: None });
    let rigid = types.intern_rigid(name, Depth { level: 1 }, kind);
    (binder, rigid)
}

// data Maybe a = Nothing | Just a
// class Show a where show :: a
// instance Show (Maybe a)
// f = show
fn classes() -> World {
    let mut world = world(vec![
        DeclarationKind::DataEquation {
            id: ast(0),
            name: Some(label("Maybe")),
            constructors: vec![named(20, "Nothing"), named(21, "Just")],
        },
        DeclarationKind::ClassDeclaration {
            id: ast(1),
            name: Some(label("Show")),
            members: vec![named(30, "show")],
        },
        DeclarationKind::InstanceChain {
            id: ast(2),
            instances: vec![
                InstanceSyntax { id: ast(40), name: None, members: vec![] },
                InstanceSyntax { id: ast(41), name: None, members: vec![] },
            ],
        },
        DeclarationKind::Derive { id: ast(42), name: Some(label("derived")) },
        equation("f", 3),
        DeclarationKind::ForeignImportValue { id: ast(4), name: Some(label("g")) },
    ]);
    let (binder, variable) = rigid(&mut world, 1);
    let types = &mut world.queries.types;
    let maybe = types.intern_type(Type::Constructor(FILE, ty(0)));
    let show = types.intern_type(Type::Constructor(FILE, ty(1)));
    let applied = types.intern_application(maybe, variable);
    let arrow = types.intern_function(variable, variable);
    let constraint = types.intern_application(show, variable);
    let head = types.intern_application(show, applied);
    let constrained = types.intern_constrained(constraint, head);
    let signature = types.intern_forall(binder, constrained);
    let tree = &mut world.module.checked.tree;
    let constructor = |arguments| TermDeclaration {
        type_id: applied,
        kind: TermDeclarationKind::Constructor(DataConstructor { arguments }),
    };
    let nothing = tree.insert_term(term(0), constructor(vec![]));
    let just = tree.insert_term(term(1), constructor(vec![variable, arrow]));
    tree.insert_type_declaration(
        ty(0),
        TypeDeclaration {
            kind: TypeId { raw: 5 },
            roles: vec![],
            declaration: TypeDeclarationKind::Data(DataDeclaration {
                parameters: vec![binder],
                constructors: vec![nothing, just],
            }),
        },
    );
    let superclass =
        SuperclassId { file_id: FILE, type_id: ty(1), source_id: source(50) };
    tree.insert_type_declaration(
        ty(1),
        TypeDeclaration {
            kind: TypeId { raw: 6 },
            roles: vec![],
            declaration: TypeDeclarationKind::Class(ClassDeclaration {
                kind_binders: vec![],
                type_parameters: vec![binder],
                superclasses: vec![ClassSuperclass { id: superclass, constraint }],
                members: vec![ClassMember { source: term(2), field_type: arrow }],
            }),
        },
    );
    let evidence = &mut world.module.checked.evidence;
    let given = evidence.fresh_binder(constraint);
    let wanted = evidence.fresh_variable();
    evidence.proofs.push(Evidence::Given(given));
    evidence.variables[wanted.raw as usize] = EvidenceState::Solved(EvidenceId { raw: 0 });
    let member_binder = evidence.fresh_binder(constraint);
    let body = world.integer(1);
    let instance = |implementation| InstanceDeclaration {
        class: (FILE, ty(1)),
        rigid_parameters: vec![variable],
        evidences: vec![InstanceEvidence { constraint, evidence: Evidence::Given(given) }],
        superclasses: vec![InstanceSuperclass { id: superclass, constraint, evidence: wanted }],
        implementation,
    };
    let members = InstanceImplementation::Members(vec![InstanceMember {
        resolution: (FILE, term(2)),
        implementation_type: arrow,
        abstractions: vec![DeclarationAbstraction::Evidence { constraint, binder: member_binder }],
        equations: vec![Equation::item(
            EquationSourceId::Instance(ast(0)),
            vec![],
            plain(body),
        )],
    }]);
    let tree = &mut world.module.checked.tree;
    let declaration = |implementation| TermDeclaration {
        type_id: signature,
        kind: TermDeclarationKind::Instance(instance(implementation)),
    };
    tree.insert_instance(InstanceItemId { raw: 0 }, declaration(members));
    tree.insert_instance(
        InstanceItemId { raw: 1 },
        declaration(InstanceImplementation::Delegate { constraint, evidence: wanted }),
    );
    tree.insert_derive(
        DeriveItemId { raw: 0 },
        declaration(InstanceImplementation::Delegate { constraint, evidence: wanted }),
    );
    let resolution = VariableResolution::Source(TermVariableResolution::Reference(FILE, term(2)));
    let function = world.expression(ExpressionKind::Variable { resolution });
    let kind = ExpressionKind::EvidenceApplication { function, evidence: wanted, constraint };
    let body = world.expression(kind);
    world.declare(
        3,
        vec![
            DeclarationAbstraction::Type { binder, rigid: variable },
            DeclarationAbstraction::Evidence { constraint, binder: given },
        ],
        vec![],
        plain(body),
    );
    world.module.checked.tree.insert_term(
        term(4),
        TermDeclaration { type_id: TypeId { raw: 9 }, kind: TermDeclarationKind::Foreign },
    );
    world
}

#[test]
fn whole_modules() {
    let world = classes();
    let expected = [
        "data Type0 :: K5",
        "data Maybe @a1",
        "  | Nothing :: Maybe a1",
        "  | Just :: T0 -> (T4) -> Maybe a1",
        "",
        "interface Type1 :: K6",
        "interface Show a1 where",
        "  superclass showDict :: T5",
        "  show :: T4",
        "",
        "dictionary showMaybe :: forall a1. { showDict :: T5 } => T6 where",
        "  superclass showDict = showDict",
        "  show :: T4",
        "  show = \\{showDict1} -> 1",
        "",
        "dictionary showMaybe1 :: forall a1. { showDict :: T5 } => T6 = showDict",
        "",
        "dictionary derived :: forall a1. { showDict :: T5 } => T6 = showDict",
        "",
        "f :: T7",
        "f = \\{showDict} -> show {showDict}",
        "",
        "foreign import g :: S9",
    ];
    assert_eq!(world.render(), expected.join("\n"));
}

#[test]
fn narrow_modules() {
    let world = classes();
    let output = world.render_wide(20);
    assert!(output.contains("  | Just ::\n    T0 ->\n      (T4) ->\n        Maybe a1\n"));
    assert!(output.contains(
        "dictionary showMaybe ::\n  forall a1.\n  { showDict :: T5 } =>\n  T6\n  where\n"
    ));
}

#[test]
fn qualified_types() {
    let world = classes();
    let rendering = world.rendering(PrettyConfig::new().fully_qualified_names());
    let output = rendering.finish(&answers(&rendering));
    assert!(output.contains("data Maybe @a1\n  | Nothing :: Main.Maybe a1\n"));
}

#[test]
fn type_variables_keep_their_names() {
    let world = classes();
    let rendering = world.rendering(PrettyConfig::new());
    let assigned = rendering
        .requests
        .iter()
        .filter(|request| matches!(request, TypeRequest::Assign { .. }))
        .count();
    // Twice for the member of an instance, and once for the value.
    assert_eq!(assigned, 3);
    for request in &rendering.requests {
        if let TypeRequest::Assign { scope, display, .. } = request {
            assert!(matches!(rendering.requests[*scope], TypeRequest::Begin { .. }));
            assert!(matches!(rendering.requests[*display], TypeRequest::DisplayName { .. }));
        }
    }
}

#[test]
fn requests_refer_to_earlier_ones() {
    let world = classes();
    let rendering = world.rendering(PrettyConfig::new());
    let requests = &rendering.requests;
    assert!(matches!(requests[0], TypeRequest::Begin { signature: false }));
    for (index, request) in requests.iter().enumerate() {
        let (scope, display) = match request {
            TypeRequest::Begin { .. } | TypeRequest::RenderAlone { .. } => (None, None),
            TypeRequest::Fork { scope } => (Some(*scope), None),
            TypeRequest::Render { scope, .. } => (Some(*scope), None),
            TypeRequest::KindSignature { scope, .. } => (Some(*scope), None),
            TypeRequest::DisplayName { scope, .. } => (Some(*scope), None),
            TypeRequest::Allocate { scope, .. } => (Some(*scope), None),
            TypeRequest::Assign { scope, display, .. } => (Some(*scope), Some(*display)),
        };
        if let Some(scope) = scope {
            assert!(scope < index);
            assert!(matches!(
                requests[scope],
                TypeRequest::Begin { .. } | TypeRequest::Fork { .. }
            ));
        }
        if let Some(display) = display {
            assert!(display < index);
        }
    }
}

#[test]
fn missing_answers_are_empty() {
    let world = classes();
    let rendering = world.rendering(PrettyConfig::new());
    let output = rendering.finish(&vec![]);
    assert!(output.ends_with("foreign import g :: "));
}

#[test]
fn names_of_instances_do_not_depend_on_the_order() {
    let world = classes();
    let pretty = Pretty::new(&world.queries, &world.module);
    let first = InstanceCandidateOrigin::Instance(FILE, ast(40));
    let second = InstanceCandidateOrigin::Instance(FILE, ast(41));
    let third = InstanceCandidateOrigin::Derive(FILE, ast(42));
    let unknown = InstanceCandidateOrigin::Derive(FILE, ast(43));
    let name = |origin| pretty.render_instance_name(FILE, origin).unwrap();
    assert_eq!(name(first), "showMaybe");
    assert_eq!(name(second), "showMaybe1");
    assert_eq!(name(third), "derived");
    assert_eq!(name(unknown), "<instance>");
    let mut names = InstanceNames::new();
    for origin in [second, third, first, second] {
        let cached = pretty.render_instance_name_with_cache(FILE, origin, &mut names);
        assert_eq!(cached.unwrap(), name(origin));
    }
    let elsewhere = FileId { raw: 2 };
    assert_eq!(pretty.render_instance_name(elsewhere, first), None);
    // What is known needs no source.
    let cached = pretty.render_instance_name_with_cache(elsewhere, first, &mut names);
    assert_eq!(cached.as_deref(), Some("showMaybe"));
    let other = InstanceCandidateOrigin::Instance(elsewhere, ast(40));
    assert_eq!(name(other), "<instance>");
}

#[test]
fn evidence() {
    let mut world = classes();
    let superclass = SuperclassId { file_id: FILE, type_id: ty(1), source_id: source(50) };
    let missing = SuperclassId { file_id: FILE, type_id: ty(0), source_id: source(50) };
    let table = &mut world.module.checked.evidence;
    table.proofs.push(Evidence::Superclass { parent: EvidenceId { raw: 0 }, superclass });
    let origin = InstanceCandidateOrigin::Instance(FILE, ast(40));
    table.proofs.push(Evidence::Instance { origin, subgoals: vec![EvidenceVarId { raw: 0 }] });
    table.variables.push(EvidenceState::Solved(EvidenceId { raw: 1 }));
    table.variables.push(EvidenceState::Solved(EvidenceId { raw: 2 }));
    table.variables.push(EvidenceState::Unsolved);
    table.variables.push(EvidenceState::Error);
    let printer = Printer {
        file: FILE,
        own: &world.module,
        others: &world.queries.modules,
        types: &world.queries.types,
        lowered: world.queries.lowered.find(1).unwrap(),
        qualifier: None,
    };
    let mut printing = Printing::new();
    let mut name = |evidence| printer.evidence_name(&mut printing, &evidence);
    let variable = |raw| Evidence::Variable(EvidenceVarId { raw });
    assert_eq!(name(Evidence::Given(EvidenceBinderId { raw: 0 })), "showDict");
    assert_eq!(name(variable(0)), "showDict");
    assert_eq!(name(variable(1)), "showDict.showDict");
    assert_eq!(name(variable(2)), "showMaybe {showDict}");
    assert_eq!(
        name(Evidence::Superclass { parent: EvidenceId { raw: 2 }, superclass }),
        "(showMaybe {showDict}).showDict"
    );
    assert_eq!(
        name(Evidence::Superclass { parent: EvidenceId { raw: 0 }, superclass: missing }),
        "showDict.<superclass>"
    );
    assert_eq!(name(Evidence::Given(EvidenceBinderId { raw: 1 })), "showDict1");
    assert_eq!(name(Evidence::Given(EvidenceBinderId { raw: 7 })), "evidenceDict");
    let synthesized = |evidence| Evidence::Synthesized(evidence);
    let reflected = |evidence| synthesized(SynthesizedEvidence::Reflectable(evidence));
    assert_eq!(name(synthesized(SynthesizedEvidence::IsSymbol(label("a\"b")))), "isSymbol(\"a\\\"b\")");
    assert_eq!(name(reflected(ReflectableEvidence::Integer(-2))), "reflectable(-2)");
    assert_eq!(name(reflected(ReflectableEvidence::Boolean(true))), "reflectable(true)");
    assert_eq!(
        name(reflected(ReflectableEvidence::Relation(ReflectableOrdering::Less))),
        "reflectable(LT)"
    );
}

#[test]
fn names_that_are_in_use() {
    let mut names = PrettyNames::new();
    let mut next = |text: &str| names.allocate_display_name(text.to_string());
    assert_eq!(next("a"), "a");
    assert_eq!(next("a2"), "a2");
    assert_eq!(next("a"), "a1");
    assert_eq!(next("a"), "a3");
    assert_eq!(next("a1"), "a11");
    assert_eq!(next("b"), "b");
}

#[test]
fn characters() {
    assert_eq!(character_literal('a'), "'a'");
    assert_eq!(character_literal('\''), "'\\''");
    assert_eq!(character_literal('\\'), "'\\\\'");
    assert_eq!(character_literal('\0'), "'\\0'");
    assert_eq!(character_literal('\u{1b}'), "'\\x1b'");
    assert_eq!(character_literal('\u{85}'), "'\\x85'");
    assert_eq!(character_literal('表'), "'表'");
}

#[test]
fn lower_case_names() {
    assert_eq!(uncapitalize("Show").as_deref(), Some("show"));
    assert_eq!(uncapitalize("ÄB").as_deref(), Some("äB"));
    assert_eq!(uncapitalize("x").as_deref(), Some("x"));
    assert_eq!(uncapitalize(""), None);
    assert_eq!(section_name(source(12)), "v12");
}

#[test]
fn names_of_the_source() {
    let mut world = world(vec![]);
    let mut names = LoweredNames {
        binders: IdMap::empty(),
        lets: IdMap::empty(),
        puns: vec![
            PunName { id: source(1), name: None },
            PunName { id: source(1), name: Some(label("p")) },
        ],
    };
    names.lets.put(3, label("go"));
    names.binders.put(4, SourceBinderName::Named(label("whole")));
    names.binders.put(5, SourceBinderName::Other);
    world.queries.lowered.put(1, names);
    let printer = Printer {
        file: FILE,
        own: &world.module,
        others: &world.queries.modules,
        types: &world.queries.types,
        lowered: world.queries.lowered.find(1).unwrap(),
        qualifier: None,
    };
    assert_eq!(printer.local_declaration_name(source(3)), "go");
    assert_eq!(printer.local_declaration_name(source(4)), "<let#4>");
    assert_eq!(printer.source_binder_name(source(4)), "whole");
    assert_eq!(printer.source_binder_name(source(5)), "<binder#5>");
    assert_eq!(printer.record_pun_name(source(1)), "p");
    assert_eq!(printer.record_pun_name(source(2)), "<pun#2>");
    assert_eq!(printer.display_local_type_name("T"), "T");
}

#[test]
fn joined_layouts() {
    let render = |layout: Layout, width| {
        let config = PrettyConfig::new().width(width);
        Rendering { layout, requests: vec![], config }.finish(&vec!["filled".to_string()])
    };
    let words = || vec![text("one"), text("two"), Layout::Answer(0)];
    assert_eq!(render(join(words(), Separator::Comma), 80), "one, two, filled");
    assert_eq!(render(join(words(), Separator::Space), 80), "one two filled");
    assert_eq!(render(join(words(), Separator::Hardline), 80), "one\ntwo\nfilled");
    assert_eq!(render(join(words(), Separator::Gap), 80), "one\n\ntwo\n\nfilled");
    assert_eq!(render(join(words(), Separator::Line).group(), 80), "one two filled");
    assert_eq!(render(join(words(), Separator::Line).group(), 5), "one\ntwo\nfilled");
    assert_eq!(render(join(vec![], Separator::Comma), 80), "");
    let soft = text("one").append(Layout::Softline).append(text("two"));
    assert_eq!(render(soft, 80), "one two");
    assert_eq!(render(text("a").parenthesized(), 80), "(a)");
    assert_eq!(render(text("a").below(), 80), "\n  a");
}
