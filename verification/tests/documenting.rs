use compiler_frontend::documenting::annotation::{
    documentation_line_content, extract_annotation, module_documentation, term_documentation,
    type_documentation, Annotations,
};
use compiler_frontend::documenting::module::document_module;
use compiler_frontend::documenting::syntax::{SyntaxElement, SyntaxKind, SyntaxNode, SyntaxTree};
use compiler_frontend::indexing::items::IndexedTermItemKind;
use compiler_frontend::indexing::module::index_module;
use compiler_frontend::indexing::source::{
    AstId, Declaration, DeclarationKind, InstanceSyntax, ModuleSyntax, NamedSyntax,
};
use compiler_frontend::indexing::stabilized::{StabilizedModule, SyntaxNodePtr};

fn id(raw: u32) -> AstId {
    AstId { raw }
}

fn name(text: &str) -> Option<String> {
    Some(text.to_string())
}

fn node(kind: SyntaxKind, parent: Option<u32>, children: Vec<SyntaxElement>) -> SyntaxNode {
    SyntaxNode { kind, parent, children }
}

fn token(kind: SyntaxKind, text: &str) -> SyntaxElement {
    SyntaxElement::Token { kind, text: text.to_string() }
}

fn annotation(parent: u32, text: &str) -> SyntaxNode {
    node(SyntaxKind::Annotation, Some(parent), vec![token(SyntaxKind::Other, text)])
}

fn pointers(nodes: &[u32]) -> StabilizedModule {
    StabilizedModule { pointers: nodes.iter().map(|&node| SyntaxNodePtr { node }).collect() }
}

fn module(declarations: Vec<Declaration>) -> ModuleSyntax {
    ModuleSyntax { name: name("Main"), exports: None, imports: vec![], declarations }
}

#[test]
fn multiline_annotation_extraction_preserves_line_semantics() {
    let text = "  -- | First line.  \n    -- |  Indented second line.\n    -- Ordinary comment.\n    -- | Third line.\n";

    let documentation = extract_annotation(text);

    assert_eq!(
        documentation.as_deref(),
        Some("First line.\n Indented second line.\nThird line.")
    );
}

// module Main where
//
// value :: Int
// -- | Equation documentation.
// value = 1
#[test]
fn value_equation_documentation_used_when_signature_has_no_documentation() {
    let tree = SyntaxTree {
        nodes: vec![
            node(SyntaxKind::Other, None, vec![SyntaxElement::Node(1), SyntaxElement::Node(2)]),
            node(SyntaxKind::Other, Some(0), vec![token(SyntaxKind::Other, "value :: Int")]),
            node(
                SyntaxKind::Other,
                Some(0),
                vec![SyntaxElement::Node(3), token(SyntaxKind::Other, "value = 1")],
            ),
            annotation(2, "\n-- | Equation documentation.\n"),
        ],
        header_annotation: None,
    };
    let stabilized = pointers(&[1, 2]);
    let indexed = index_module(&module(vec![
        Declaration {
            id: id(0),
            kind: DeclarationKind::ValueSignature { id: id(0), name: name("value") },
        },
        Declaration {
            id: id(1),
            kind: DeclarationKind::ValueEquation { id: id(1), name: name("value") },
        },
    ]));
    let annotations = Annotations::new(&tree);

    let item_id = indexed.names.terms.lookup("value").unwrap();
    let item = indexed.items.term(item_id);
    assert!(matches!(item.kind, IndexedTermItemKind::Value { .. }));

    let documentation = term_documentation(&stabilized, &annotations, item);
    assert_eq!(documentation, "Equation documentation.");
}

// module Main where
//
// data Maybe a
//   -- | `Nothing` is `null`.
//   = Nothing
//   -- | `Just x` is the non-null value `x`.
//   | Just a
fn maybe() -> (SyntaxTree, StabilizedModule, ModuleSyntax) {
    let tree = SyntaxTree {
        nodes: vec![
            node(SyntaxKind::Other, None, vec![SyntaxElement::Node(1)]),
            node(
                SyntaxKind::Other,
                Some(0),
                vec![
                    token(SyntaxKind::Other, "data Maybe a"),
                    SyntaxElement::Node(2),
                    token(SyntaxKind::Equal, "="),
                    SyntaxElement::Node(3),
                    SyntaxElement::Node(4),
                    token(SyntaxKind::Pipe, "|"),
                    SyntaxElement::Node(5),
                ],
            ),
            annotation(1, "\n  -- | `Nothing` is `null`.\n  "),
            node(SyntaxKind::Other, Some(1), vec![token(SyntaxKind::Other, "Nothing")]),
            annotation(1, "\n  -- | `Just x` is the non-null value `x`.\n  "),
            node(SyntaxKind::Other, Some(1), vec![token(SyntaxKind::Other, "Just a")]),
        ],
        header_annotation: None,
    };
    let stabilized = pointers(&[1, 3, 5]);
    let syntax = module(vec![Declaration {
        id: id(0),
        kind: DeclarationKind::DataEquation {
            id: id(0),
            name: name("Maybe"),
            constructors: vec![
                NamedSyntax { id: id(1), name: name("Nothing") },
                NamedSyntax { id: id(2), name: name("Just") },
            ],
        },
    }]);
    (tree, stabilized, syntax)
}

#[test]
fn data_constructor_documentation_before_separators() {
    let (tree, stabilized, syntax) = maybe();
    let indexed = index_module(&syntax);
    let annotations = Annotations::new(&tree);

    let documentation = indexed.items.iter_terms().into_iter().filter_map(|(_, item)| {
        if !matches!(item.kind, IndexedTermItemKind::Constructor { .. }) {
            return None;
        }

        let name = item.name.as_deref()?;
        let documentation = term_documentation(&stabilized, &annotations, item);

        Some((name.to_string(), documentation))
    });

    let documentation: Vec<_> = documentation.collect();

    assert_eq!(
        documentation,
        vec![
            ("Nothing".to_string(), "`Nothing` is `null`.".to_string()),
            ("Just".to_string(), "`Just x` is the non-null value `x`.".to_string()),
        ]
    );
}

#[test]
fn constructors_need_a_separator() {
    let (mut tree, stabilized, syntax) = maybe();
    tree.nodes[1].children[2] = token(SyntaxKind::Other, "of");
    let documented = document_module(&tree, &stabilized, &index_module(&syntax));
    assert_eq!(documented.terms.find(0).map(String::as_str), Some(""));
    assert_eq!(
        documented.terms.find(1).map(String::as_str),
        Some("`Just x` is the non-null value `x`.")
    );
    assert_eq!(documented.types.find(0).map(String::as_str), Some(""));
    assert!(documented.types.find(1).is_none());
}

#[test]
fn lines_of_documentation() {
    assert_eq!(documentation_line_content("-- | text "), Some("text"));
    assert_eq!(documentation_line_content("\t--|text"), Some("text"));
    assert_eq!(documentation_line_content("--   |   text"), Some("  text"));
    assert_eq!(documentation_line_content("--\t| text"), None);
    assert_eq!(documentation_line_content("\u{2003}-- | text\u{2003}"), Some("text"));
    assert_eq!(documentation_line_content("- | text"), None);
    assert_eq!(documentation_line_content("--"), None);
    assert_eq!(documentation_line_content("-- |"), Some(""));
    assert_eq!(documentation_line_content(""), None);
}

#[test]
fn white_space_around_documentation() {
    let mut blanks = 0;
    for number in 0..=0x10ffff {
        let Some(character) = char::from_u32(number) else {
            continue;
        };
        if documentation_line_content(&format!("{character}-- | text")).is_some() {
            blanks += 1;
            let padded = format!("-- | text{character}");
            assert_eq!(documentation_line_content(&padded), Some("text"));
        }
    }
    assert_eq!(blanks, 25);
    assert_eq!(documentation_line_content("\u{200b}-- | text"), None);
    assert_eq!(documentation_line_content("\u{a0}-- | text\u{3000}"), Some("text"));
}

#[test]
fn annotations_without_documentation() {
    assert_eq!(extract_annotation(""), None);
    assert_eq!(extract_annotation("-- comment\n-- another\n"), None);
    assert_eq!(extract_annotation("-- |\n-- |\n").as_deref(), Some("\n"));
    assert_eq!(extract_annotation("-- | a\r\n-- | b\r\n").as_deref(), Some("a\nb"));
}

#[test]
fn signatures_come_before_equations() {
    // -- | Of the module.
    // module Main where
    // -- | Of the signature.
    // f :: Int
    // -- | Of the equation.
    // f = 1
    // instance ...
    let tree = SyntaxTree {
        nodes: vec![
            node(
                SyntaxKind::Other,
                None,
                vec![
                    SyntaxElement::Node(1),
                    SyntaxElement::Node(2),
                    SyntaxElement::Node(4),
                    SyntaxElement::Node(6),
                ],
            ),
            annotation(0, "-- | Of the module.\n"),
            node(SyntaxKind::Other, Some(0), vec![SyntaxElement::Node(3)]),
            annotation(2, "-- | Of the signature.\n"),
            node(SyntaxKind::Other, Some(0), vec![SyntaxElement::Node(5)]),
            annotation(4, "-- | Of the equation.\n"),
            node(SyntaxKind::Other, Some(0), vec![SyntaxElement::Node(7)]),
            annotation(6, "-- | Of the instance.\n"),
        ],
        header_annotation: Some(1),
    };
    let stabilized = pointers(&[2, 4, 6, 6]);
    let indexed = index_module(&module(vec![
        Declaration {
            id: id(0),
            kind: DeclarationKind::ValueSignature { id: id(0), name: name("f") },
        },
        Declaration {
            id: id(1),
            kind: DeclarationKind::ValueEquation { id: id(1), name: name("f") },
        },
        Declaration {
            id: id(2),
            kind: DeclarationKind::InstanceChain {
                id: id(2),
                instances: vec![InstanceSyntax { id: id(2), name: None, members: vec![] }],
            },
        },
        Declaration { id: id(3), kind: DeclarationKind::Derive { id: id(3), name: None } },
        Declaration {
            id: id(4),
            kind: DeclarationKind::ForeignImportData { id: id(9), name: name("D") },
        },
    ]));
    assert_eq!(module_documentation(&tree), "Of the module.");
    let documented = document_module(&tree, &stabilized, &indexed);
    assert_eq!(documented.documentation, "Of the module.");
    assert_eq!(documented.terms.find(0).map(String::as_str), Some("Of the signature."));
    assert_eq!(documented.instances.find(0).map(String::as_str), Some("Of the instance."));
    assert_eq!(documented.derives.find(0).map(String::as_str), Some("Of the instance."));
    assert_eq!(documented.types.find(0).map(String::as_str), Some(""));
    let annotations = Annotations::new(&tree);
    let (_, item) = indexed.items.iter_types()[0];
    assert_eq!(type_documentation(&stabilized, &annotations, item), "");
}
