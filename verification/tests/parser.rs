use enso_parser::token::{Token, Variant, Spacing};
use enso_parser::item::{Item, Line};
use enso_parser::operator::{
    OperatorProperties, Precedence as PrecedenceLevel, Associativity, SectionTermination,
    analyze_non_syntactic_operator, is_syntactic_binary_operator, TokenOperatorProperties,
};
use enso_parser::tree::{Tree, SyntaxError, BlockLine, ArgumentDefinition};
use enso_parser::resolver::Precedence;
use enso_parser::statement::{find_top_level_operator, parse_module};

fn tok(variant: Variant, offset: &str, code: &str) -> Token {
    Token::new(variant, offset.to_string(), code.to_string())
}

fn ident(offset: &str, name: &str) -> Item {
    Item::Token(tok(Variant::Ident { is_type: false }, offset, name))
}

fn tident(offset: &str, name: &str) -> Item {
    Item::Token(tok(Variant::Ident { is_type: true }, offset, name))
}

fn number(offset: &str, code: &str) -> Item {
    Item::Token(tok(Variant::Number, offset, code))
}

fn text(offset: &str, code: &str) -> Item {
    Item::Token(tok(Variant::TextLiteral, offset, code))
}

fn op(offset: &str, code: &str) -> Item {
    Item::Token(tok(Variant::Operator, offset, code))
}

fn assign(offset: &str) -> Item {
    Item::Token(tok(Variant::AssignmentOperator, offset, "="))
}

fn type_op(offset: &str) -> Item {
    Item::Token(tok(Variant::TypeAnnotationOperator, offset, ":"))
}

fn arrow(offset: &str) -> Item {
    Item::Token(tok(Variant::ArrowOperator, offset, "->"))
}

fn group(offset: &str, body: Vec<Item>) -> Item {
    Item::Group {
        open: tok(Variant::OpenSymbol, offset, "("),
        body,
        close: Some(tok(Variant::CloseSymbol, "", ")")),
    }
}

fn line(items: Vec<Item>) -> Line {
    Line { newline: tok(Variant::Newline, "", "\n"), items }
}

/// Concatenate the source slices (offset then code) of all leaf tokens.
fn source_of(tree: &Tree, out: &mut String) {
    fn push_tok(t: &Token, out: &mut String) {
        out.push_str(&t.left_offset);
        out.push_str(&t.code);
    }
    fn opt_tree(t: &Option<Box<Tree>>, out: &mut String) {
        if let Some(b) = t {
            source_of(b, out);
        }
    }
    fn opt_tok(t: &Option<Token>, out: &mut String) {
        if let Some(b) = t {
            push_tok(b, out);
        }
    }
    fn arg(a: &ArgumentDefinition, out: &mut String) {
        opt_tok(&a.open, out);
        opt_tok(&a.open2, out);
        opt_tok(&a.suspension, out);
        source_of(&a.pattern, out);
        if let Some(ty) = &a.type_ {
            push_tok(&ty.operator, out);
            source_of(&ty.type_, out);
        }
        opt_tok(&a.close2, out);
        if let Some(d) = &a.default {
            push_tok(&d.equals, out);
            source_of(&d.expression, out);
        }
        opt_tok(&a.close, out);
    }
    fn block_lines(ls: &[BlockLine], out: &mut String) {
        for l in ls {
            push_tok(&l.newline, out);
            if let Some(e) = &l.expression {
                source_of(e, out);
            }
        }
    }
    match tree {
        Tree::Empty => {}
        Tree::Ident { token }
        | Tree::Number { token }
        | Tree::TextLiteral { token }
        | Tree::Opr { token } => push_tok(token, out),
        Tree::App { func, arg } => {
            source_of(func, out);
            source_of(arg, out);
        }
        Tree::OprApp { lhs, opr, rhs } => {
            opt_tree(lhs, out);
            push_tok(opr, out);
            opt_tree(rhs, out);
        }
        Tree::UnaryOprApp { opr, rhs } => {
            push_tok(opr, out);
            opt_tree(rhs, out);
        }
        Tree::OprSectionBoundary { ast } => source_of(ast, out),
        Tree::Group { open, body, close } => {
            push_tok(open, out);
            opt_tree(body, out);
            opt_tok(close, out);
        }
        Tree::ArgumentBlockApplication { lhs, block } => {
            opt_tree(lhs, out);
            block_lines(block, out);
        }
        Tree::FunctionDef { name, args, return_spec, equals, body } => {
            source_of(name, out);
            for a in args {
                arg(a, out);
            }
            if let Some(r) = return_spec {
                push_tok(&r.arrow, out);
                source_of(&r.type_, out);
            }
            push_tok(equals, out);
            opt_tree(body, out);
        }
        Tree::ConstructorDef { name, args, block } => {
            push_tok(name, out);
            for a in args {
                arg(a, out);
            }
            for l in block {
                push_tok(&l.newline, out);
                if let Some(a) = &l.argument {
                    arg(a, out);
                }
            }
        }
        Tree::ForeignFunctionDef { keyword, language, name, args, equals, body } => {
            push_tok(keyword, out);
            push_tok(language, out);
            push_tok(name, out);
            for a in args {
                arg(a, out);
            }
            push_tok(equals, out);
            source_of(body, out);
        }
        Tree::TypeDef { keyword, name, params, body } => {
            push_tok(keyword, out);
            push_tok(name, out);
            for a in params {
                arg(a, out);
            }
            block_lines(body, out);
        }
        Tree::BodyBlock { statements } => block_lines(statements, out),
        Tree::Invalid { ast, .. } => source_of(ast, out),
    }
}

fn ident_code(tree: &Tree) -> &str {
    match tree {
        Tree::Ident { token } => &token.code,
        other => panic!("expected identifier leaf, got {:?}", other),
    }
}

fn first_statement(tree: &Tree) -> &Tree {
    match tree {
        Tree::BodyBlock { statements } => {
            statements[0].expression.as_ref().expect("empty statement")
        }
        other => panic!("expected a body block, got {:?}", other),
    }
}

#[test]
fn precedence_into_u8() {
    assert_eq!(PrecedenceLevel::Assignment.into_u8(), 1);
    assert_eq!(PrecedenceLevel::TypeAnnotation.into_u8(), 2);
    assert_eq!(PrecedenceLevel::Arrow.into_u8(), 3);
    assert_eq!(PrecedenceLevel::Addition.into_u8(), 11);
    assert_eq!(PrecedenceLevel::Multiplication.into_u8(), 12);
    assert_eq!(PrecedenceLevel::Application.into_u8(), 16);
    assert_eq!(PrecedenceLevel::Annotation.into_u8(), 17);
    assert!(PrecedenceLevel::Annotation.into_u8() <= 0x7e);
}

#[test]
fn syntactic_operator_properties() {
    let t = tok(Variant::AssignmentOperator, " ", "=");
    let p = t.operator_properties().unwrap();
    assert_eq!(p.binary_infix_precedence(), Some(PrecedenceLevel::Assignment));
    assert_eq!(p.unary_prefix_precedence(), None);
    assert_eq!(p.associativity(), Associativity::Right);
    assert!(!p.can_form_section());
    assert_eq!(p.lhs_section_termination(), Some(SectionTermination::Unwrap));
    assert!(p.rhs_is_expression());

    let t = tok(Variant::TypeAnnotationOperator, " ", ":");
    let p = t.operator_properties().unwrap();
    assert_eq!(p.binary_infix_precedence(), Some(PrecedenceLevel::TypeAnnotation));
    assert_eq!(p.lhs_section_termination(), Some(SectionTermination::Reify));
    assert_eq!(p.associativity(), Associativity::Left);
    assert!(!p.rhs_is_expression());

    let t = tok(Variant::NegationOperator, "", "-");
    let p = t.operator_properties().unwrap();
    assert_eq!(p.unary_prefix_precedence(), Some(PrecedenceLevel::Negation));
    assert_eq!(p.binary_infix_precedence(), None);
    assert!(p.is_value_operation());
    assert!(p.can_form_section());

    let t = tok(Variant::DotOperator, "", ".");
    let p = t.operator_properties().unwrap();
    assert_eq!(p.binary_infix_precedence(), Some(PrecedenceLevel::Application));
    assert!(p.can_form_section());

    let t = tok(Variant::Newline, "", "\n");
    assert!(t.operator_properties().is_none());
    let t = tok(Variant::Ident { is_type: false }, "", "x");
    assert!(t.operator_properties().is_none());
}

#[test]
fn is_syntactic_binary_operator_classification() {
    assert!(is_syntactic_binary_operator(&Variant::AssignmentOperator));
    assert!(is_syntactic_binary_operator(&Variant::TypeAnnotationOperator));
    assert!(is_syntactic_binary_operator(&Variant::ArrowOperator));
    assert!(is_syntactic_binary_operator(&Variant::CommaOperator));
    assert!(!is_syntactic_binary_operator(&Variant::Operator));
    assert!(!is_syntactic_binary_operator(&Variant::NegationOperator));
    assert!(!is_syntactic_binary_operator(&Variant::DotOperator));
}

#[test]
fn analyze_lexemes() {
    let p = analyze_non_syntactic_operator("+");
    assert_eq!(p.binary_infix_precedence(), Some(PrecedenceLevel::Addition));
    assert!(p.is_value_operation());
    assert!(!p.is_modifier());
    assert_eq!(p.associativity(), Associativity::Left);
    assert!(p.can_form_section());

    let p = analyze_non_syntactic_operator("*");
    assert_eq!(p.binary_infix_precedence(), Some(PrecedenceLevel::Multiplication));
    let p = analyze_non_syntactic_operator("^");
    assert_eq!(p.binary_infix_precedence(), Some(PrecedenceLevel::Exponentiation));
    let p = analyze_non_syntactic_operator("==");
    assert_eq!(p.binary_infix_precedence(), Some(PrecedenceLevel::Equality));
    assert!(!p.is_modifier());
    let p = analyze_non_syntactic_operator("<=");
    assert_eq!(p.binary_infix_precedence(), Some(PrecedenceLevel::Inequality));
    assert!(!p.is_modifier());
    let p = analyze_non_syntactic_operator("&&");
    assert_eq!(p.binary_infix_precedence(), Some(PrecedenceLevel::Logical));
    let p = analyze_non_syntactic_operator("|");
    assert_eq!(p.binary_infix_precedence(), Some(PrecedenceLevel::BitwiseOr));
    let p = analyze_non_syntactic_operator("&");
    assert_eq!(p.binary_infix_precedence(), Some(PrecedenceLevel::BitwiseAnd));
    let p = analyze_non_syntactic_operator("<|");
    assert_eq!(p.binary_infix_precedence(), Some(PrecedenceLevel::Inequality));
    let p = analyze_non_syntactic_operator("?!");
    assert_eq!(p.binary_infix_precedence(), Some(PrecedenceLevel::OtherUserOperator));

    // Trailing `=` makes a modifier; a leading `.` gives dot-like precedence.
    let p = analyze_non_syntactic_operator("+=");
    assert!(p.is_modifier());
    assert_eq!(p.binary_infix_precedence(), Some(PrecedenceLevel::Assignment));
    assert_eq!(p.associativity(), Associativity::Right);
    let p = analyze_non_syntactic_operator(".&");
    assert_eq!(p.binary_infix_precedence(), Some(PrecedenceLevel::Application));
    assert!(!p.is_value_operation());
}

#[test]
fn builder_methods() {
    let p = OperatorProperties::new();
    assert!(!p.is_value_operation());
    let p = OperatorProperties::value();
    assert!(p.is_value_operation());
    let p = OperatorProperties::functional();
    assert!(!p.is_value_operation());
    let p = OperatorProperties::new()
        .with_binary_infix_precedence(PrecedenceLevel::Addition)
        .with_unary_prefix_mode(PrecedenceLevel::Negation)
        .as_value_operation()
        .as_right_associative()
        .as_modifier();
    assert_eq!(p.binary_infix_precedence(), Some(PrecedenceLevel::Addition));
    assert_eq!(p.unary_prefix_precedence(), Some(PrecedenceLevel::Negation));
    assert!(p.is_value_operation());
    assert_eq!(p.associativity(), Associativity::Right);
    assert!(p.is_modifier());
    assert!(p.can_form_section());
    assert!(p.rhs_is_expression());
    assert_eq!(p.lhs_section_termination(), None);
}

#[test]
fn spacing_of_items() {
    assert_eq!(Spacing::of_item(&ident(" ", "x")), Spacing::Spaced);
    assert_eq!(Spacing::of_item(&ident("", "x")), Spacing::Unspaced);
    assert_eq!(Spacing::of_item(&group(" ", vec![])), Spacing::Spaced);
    assert_eq!(Spacing::of_item(&Item::Block(vec![])), Spacing::Spaced);
}

#[test]
fn finder_prefers_assignment() {
    // x : = 1 -- the assignment dominates; the annotation is nested on its left.
    let items = vec![ident("", "x"), type_op(" "), assign(" "), number(" ", "1")];
    let r = find_top_level_operator(&items, 0, 4).unwrap().unwrap();
    assert_eq!(r.0, 2);
    assert_eq!(r.1.variant, Variant::AssignmentOperator);
    // Within the left side, the annotation is found.
    let r = find_top_level_operator(&items, 0, 2).unwrap().unwrap();
    assert_eq!(r.0, 1);
    assert_eq!(r.1.variant, Variant::TypeAnnotationOperator);
}

#[test]
fn finder_skips_groups_and_reports_duplicates() {
    // (x = 1) holds no top-level operator.
    let items = vec![group("", vec![ident("", "x"), assign(" "), number(" ", "1")])];
    assert!(find_top_level_operator(&items, 0, 1).unwrap().is_none());
    // Two assignments both qualify.
    let items = vec![
        ident("", "x"),
        assign(" "),
        ident(" ", "y"),
        assign(" "),
        number(" ", "1"),
    ];
    assert_eq!(
        find_top_level_operator(&items, 0, 5).unwrap_err(),
        SyntaxError::MultipleOperators
    );
}

#[test]
fn resolver_precedence_monotonicity() {
    // x * y + z: the tighter * application sits strictly deeper than +.
    let mut p = Precedence::new();
    let mut items = vec![
        ident("", "x"),
        op(" ", "*"),
        ident(" ", "y"),
        op(" ", "+"),
        ident(" ", "z"),
    ];
    let t = p.resolve(&mut items, 0).unwrap();
    match &t {
        Tree::OprApp { lhs, opr, rhs } => {
            assert_eq!(opr.code, "+");
            match lhs.as_deref() {
                Some(Tree::OprApp { opr, .. }) => assert_eq!(opr.code, "*"),
                other => panic!("expected * application on the left, got {:?}", other),
            }
            assert_eq!(ident_code(rhs.as_deref().unwrap()), "z");
        }
        other => panic!("expected + at the root, got {:?}", other),
    }
    // x + y * z: mirrored.
    let mut items = vec![
        ident("", "x"),
        op(" ", "+"),
        ident(" ", "y"),
        op(" ", "*"),
        ident(" ", "z"),
    ];
    let t = p.resolve(&mut items, 0).unwrap();
    match &t {
        Tree::OprApp { lhs, opr, rhs } => {
            assert_eq!(opr.code, "+");
            assert_eq!(ident_code(lhs.as_deref().unwrap()), "x");
            match rhs.as_deref() {
                Some(Tree::OprApp { opr, .. }) => assert_eq!(opr.code, "*"),
                other => panic!("expected * application on the right, got {:?}", other),
            }
        }
        other => panic!("expected + at the root, got {:?}", other),
    }
}

#[test]
fn resolver_application_and_unary() {
    let mut p = Precedence::new();
    let mut items = vec![ident("", "f"), ident(" ", "x")];
    let t = p.resolve(&mut items, 0).unwrap();
    match &t {
        Tree::App { func, arg } => {
            assert_eq!(ident_code(func), "f");
            assert_eq!(ident_code(arg), "x");
        }
        other => panic!("expected an application, got {:?}", other),
    }
    let mut items = vec![
        Item::Token(tok(Variant::NegationOperator, "", "-")),
        ident("", "x"),
    ];
    let t = p.resolve(&mut items, 0).unwrap();
    match &t {
        Tree::UnaryOprApp { opr, rhs } => {
            assert_eq!(opr.code, "-");
            assert_eq!(ident_code(rhs.as_deref().unwrap()), "x");
        }
        other => panic!("expected a unary application, got {:?}", other),
    }
}

#[test]
fn resolver_sections() {
    // + x: a right section; the hole is the missing left operand.
    let mut p = Precedence::new();
    let mut items = vec![op("", "+"), ident(" ", "x")];
    let t = p.resolve(&mut items, 0).unwrap();
    match &t {
        Tree::OprSectionBoundary { ast } => match ast.as_ref() {
            Tree::OprApp { lhs, opr, rhs } => {
                assert!(lhs.is_none());
                assert_eq!(opr.code, "+");
                assert_eq!(ident_code(rhs.as_deref().unwrap()), "x");
            }
            other => panic!("expected an operator application, got {:?}", other),
        },
        other => panic!("expected a section boundary, got {:?}", other),
    }
    // x +: a left section.
    let mut items = vec![ident("", "x"), op(" ", "+")];
    let t = p.resolve(&mut items, 0).unwrap();
    match &t {
        Tree::OprSectionBoundary { ast } => match ast.as_ref() {
            Tree::OprApp { lhs, rhs, .. } => {
                assert_eq!(ident_code(lhs.as_deref().unwrap()), "x");
                assert!(rhs.is_none());
            }
            other => panic!("expected an operator application, got {:?}", other),
        },
        other => panic!("expected a section boundary, got {:?}", other),
    }
    // Section formation suppressed: the boundary is marked as an error.
    let mut items = vec![op("", "+"), ident(" ", "x")];
    let t = p.resolve_non_section(&mut items, 0).unwrap();
    match &t {
        Tree::Invalid { error, ast } => {
            assert_eq!(*error, SyntaxError::ExpectedExpression);
            assert!(matches!(ast.as_ref(), Tree::OprSectionBoundary { .. }));
        }
        other => panic!("expected an error wrapper, got {:?}", other),
    }
    // A compile-time operator cannot form a section.  The type annotation's
    // LHS policy is Reify: the section node is emitted, marked as an error.
    let mut items = vec![type_op(""), tident(" ", "Int")];
    let t = p.resolve(&mut items, 0).unwrap();
    match &t {
        Tree::Invalid { error, ast } => {
            assert_eq!(*error, SyntaxError::ExpectedExpression);
            match ast.as_ref() {
                Tree::OprSectionBoundary { ast } => match ast.as_ref() {
                    Tree::OprApp { lhs, opr, .. } => {
                        assert!(lhs.is_none());
                        assert_eq!(opr.code, ":");
                    }
                    other => panic!("expected an operator application, got {:?}", other),
                },
                other => panic!("expected a reified section, got {:?}", other),
            }
        }
        other => panic!("expected an error wrapper, got {:?}", other),
    }
    // The assignment's LHS policy is Unwrap: no section node; the error is
    // attached to the inner (missing) operand.
    let mut items = vec![assign(""), number(" ", "1")];
    let t = p.resolve(&mut items, 0).unwrap();
    match &t {
        Tree::OprApp { lhs, opr, .. } => {
            assert_eq!(opr.code, "=");
            assert!(matches!(lhs.as_deref(), Some(Tree::Invalid { .. })));
        }
        other => panic!("expected an operator application, got {:?}", other),
    }
    // Adjacent sectionable operators: the inner section is closed by its
    // own boundary, so every boundary wraps exactly one hole.
    let mut items = vec![op("", "+"), op(" ", "*"), ident(" ", "x")];
    let t = p.resolve(&mut items, 0).unwrap();
    match &t {
        Tree::OprSectionBoundary { ast } => match ast.as_ref() {
            Tree::OprApp { lhs, opr, rhs } => {
                assert!(lhs.is_none());
                assert_eq!(opr.code, "+");
                match rhs.as_deref() {
                    Some(Tree::OprSectionBoundary { ast }) => match ast.as_ref() {
                        Tree::OprApp { lhs, opr, .. } => {
                            assert!(lhs.is_none());
                            assert_eq!(opr.code, "*");
                        }
                        other => panic!("expected the inner application, got {:?}", other),
                    },
                    other => panic!("expected an inner section boundary, got {:?}", other),
                }
            }
            other => panic!("expected an operator application, got {:?}", other),
        },
        other => panic!("expected a section boundary, got {:?}", other),
    }
}

#[test]
fn resolver_unclosed_group() {
    let mut p = Precedence::new();
    let mut items = vec![Item::Group {
        open: tok(Variant::OpenSymbol, "", "("),
        body: vec![ident("", "x")],
        close: None,
    }];
    let t = p.resolve(&mut items, 0).unwrap();
    match &t {
        Tree::Invalid { error, ast } => {
            assert_eq!(*error, SyntaxError::MismatchedParen);
            assert!(matches!(ast.as_ref(), Tree::Group { close: None, .. }));
        }
        other => panic!("expected an error wrapper, got {:?}", other),
    }
}

#[test]
fn function_definition() {
    // f x y = x + y
    let lines = vec![line(vec![
        ident("", "f"),
        ident(" ", "x"),
        ident(" ", "y"),
        assign(" "),
        ident(" ", "x"),
        op(" ", "+"),
        ident(" ", "y"),
    ])];
    let module = parse_module(lines);
    match first_statement(&module) {
        Tree::FunctionDef { name, args, return_spec, body, .. } => {
            assert_eq!(ident_code(name), "f");
            assert_eq!(args.len(), 2);
            assert_eq!(ident_code(&args[0].pattern), "x");
            assert_eq!(ident_code(&args[1].pattern), "y");
            assert!(return_spec.is_none());
            match body.as_deref() {
                Some(Tree::OprApp { lhs, opr, rhs }) => {
                    assert_eq!(ident_code(lhs.as_deref().unwrap()), "x");
                    assert_eq!(opr.code, "+");
                    assert_eq!(ident_code(rhs.as_deref().unwrap()), "y");
                }
                other => panic!("expected an operator application body, got {:?}", other),
            }
        }
        other => panic!("expected a function definition, got {:?}", other),
    }
}

#[test]
fn function_definition_with_typed_default_argument() {
    // foo (x : Int = 0) -> Int = x
    let lines = vec![line(vec![
        ident("", "foo"),
        group(" ", vec![
            ident("", "x"),
            type_op(" "),
            tident(" ", "Int"),
            assign(" "),
            number(" ", "0"),
        ]),
        arrow(" "),
        tident(" ", "Int"),
        assign(" "),
        ident(" ", "x"),
    ])];
    let module = parse_module(lines);
    match first_statement(&module) {
        Tree::FunctionDef { name, args, return_spec, body, .. } => {
            assert_eq!(ident_code(name), "foo");
            assert_eq!(args.len(), 1);
            let a = &args[0];
            assert_eq!(a.open.as_ref().unwrap().code, "(");
            assert_eq!(a.close.as_ref().unwrap().code, ")");
            assert_eq!(ident_code(&a.pattern), "x");
            let ty = a.type_.as_ref().unwrap();
            assert_eq!(ty.operator.code, ":");
            match &ty.type_ {
                Tree::Ident { token } => assert_eq!(token.code, "Int"),
                other => panic!("expected a type identifier, got {:?}", other),
            }
            let d = a.default.as_ref().unwrap();
            assert_eq!(d.equals.code, "=");
            assert!(matches!(&d.expression, Tree::Number { .. }));
            let r = return_spec.as_ref().unwrap();
            assert_eq!(r.arrow.code, "->");
            match &r.type_ {
                Tree::Ident { token } => assert_eq!(token.code, "Int"),
                other => panic!("expected a return type identifier, got {:?}", other),
            }
            assert_eq!(ident_code(body.as_deref().unwrap()), "x");
        }
        other => panic!("expected a function definition, got {:?}", other),
    }
}

#[test]
fn type_definition_with_constructors() {
    // type Maybe a / Just x / Nothing
    let lines = vec![line(vec![
        ident("", "type"),
        tident(" ", "Maybe"),
        ident(" ", "a"),
        Item::Block(vec![
            line(vec![tident("    ", "Just"), ident(" ", "x")]),
            line(vec![tident("    ", "Nothing")]),
        ]),
    ])];
    let module = parse_module(lines);
    match first_statement(&module) {
        Tree::TypeDef { keyword, name, params, body } => {
            assert_eq!(keyword.code, "type");
            assert_eq!(name.code, "Maybe");
            assert_eq!(params.len(), 1);
            assert_eq!(ident_code(&params[0].pattern), "a");
            assert_eq!(body.len(), 2);
            match body[0].expression.as_ref().unwrap() {
                Tree::ConstructorDef { name, args, block } => {
                    assert_eq!(name.code, "Just");
                    assert_eq!(args.len(), 1);
                    assert_eq!(ident_code(&args[0].pattern), "x");
                    assert!(block.is_empty());
                }
                other => panic!("expected a constructor definition, got {:?}", other),
            }
            match body[1].expression.as_ref().unwrap() {
                Tree::ConstructorDef { name, args, .. } => {
                    assert_eq!(name.code, "Nothing");
                    assert!(args.is_empty());
                }
                other => panic!("expected a constructor definition, got {:?}", other),
            }
        }
        other => panic!("expected a type definition, got {:?}", other),
    }
}

#[test]
fn foreign_function_definition() {
    // foreign js add a b = "a+b"
    let lines = vec![line(vec![
        ident("", "foreign"),
        ident(" ", "js"),
        ident(" ", "add"),
        ident(" ", "a"),
        ident(" ", "b"),
        assign(" "),
        text(" ", "\"a+b\""),
    ])];
    let module = parse_module(lines);
    match first_statement(&module) {
        Tree::ForeignFunctionDef { keyword, language, name, args, equals, body } => {
            assert_eq!(keyword.code, "foreign");
            assert_eq!(language.code, "js");
            assert_eq!(name.code, "add");
            assert_eq!(args.len(), 2);
            assert_eq!(ident_code(&args[0].pattern), "a");
            assert_eq!(ident_code(&args[1].pattern), "b");
            assert_eq!(equals.code, "=");
            match body.as_ref() {
                Tree::TextLiteral { token } => assert_eq!(token.code, "\"a+b\""),
                other => panic!("expected a text literal body, got {:?}", other),
            }
        }
        other => panic!("expected a foreign function definition, got {:?}", other),
    }
}

#[test]
fn foreign_missing_language() {
    // foreign 42: the language is missing; the tokens are re-stitched into a
    // plain application carrying the error.
    let lines = vec![line(vec![ident("", "foreign"), number(" ", "42")])];
    let module = parse_module(lines);
    match first_statement(&module) {
        Tree::Invalid { error, ast } => {
            assert_eq!(*error, SyntaxError::ForeignFnExpectedLanguage);
            match ast.as_ref() {
                Tree::App { func, arg } => {
                    assert_eq!(ident_code(func), "foreign");
                    assert!(matches!(arg.as_ref(), Tree::Number { .. }));
                }
                other => panic!("expected a re-stitched application, got {:?}", other),
            }
        }
        other => panic!("expected an error wrapper, got {:?}", other),
    }
    let mut src = String::new();
    source_of(&module, &mut src);
    assert_eq!(src, "\nforeign 42");
}

#[test]
fn binding_with_missing_type() {
    // x : = 1: the type annotation slot is marked invalid; the value is kept.
    let lines = vec![line(vec![
        ident("", "x"),
        type_op(" "),
        assign(" "),
        number(" ", "1"),
    ])];
    let module = parse_module(lines);
    match first_statement(&module) {
        Tree::FunctionDef { name, args, body, .. } => {
            assert_eq!(ident_code(name), "x");
            assert_eq!(args.len(), 1);
            match &args[0].pattern {
                Tree::Invalid { error, ast } => {
                    assert_eq!(*error, SyntaxError::ArgDefExpectedPattern);
                    assert!(matches!(ast.as_ref(), Tree::Empty));
                }
                other => panic!("expected a missing-pattern error, got {:?}", other),
            }
            let ty = args[0].type_.as_ref().unwrap();
            assert_eq!(ty.operator.code, ":");
            match &ty.type_ {
                Tree::Invalid { error, ast } => {
                    assert_eq!(*error, SyntaxError::ExpectedType);
                    assert!(matches!(ast.as_ref(), Tree::Empty));
                }
                other => panic!("expected a missing-type error, got {:?}", other),
            }
            match body.as_deref() {
                Some(Tree::Number { token }) => assert_eq!(token.code, "1"),
                other => panic!("expected the bound value, got {:?}", other),
            }
        }
        other => panic!("expected a function definition, got {:?}", other),
    }
}

#[test]
fn total_coverage_of_mixed_input() {
    let mk = || {
        vec![
            line(vec![
                ident("", "f"),
                ident(" ", "x"),
                assign(" "),
                ident(" ", "x"),
                op(" ", "+"),
                number(" ", "1"),
            ]),
            line(vec![]),
            line(vec![
                ident("", "main"),
                assign(" "),
                group(" ", vec![op("", "+"), number(" ", "2")]),
            ]),
        ]
    };
    let module = parse_module(mk());
    let mut src = String::new();
    source_of(&module, &mut src);
    assert_eq!(src, "\nf x = x + 1\n\nmain = (+ 2)");
}

#[test]
fn parse_is_deterministic() {
    let mk = || {
        vec![line(vec![
            ident("", "f"),
            ident(" ", "x"),
            assign(" "),
            op(" ", "+"),
            ident(" ", "x"),
        ])]
    };
    let a = parse_module(mk());
    let b = parse_module(mk());
    assert_eq!(a, b);
}

#[test]
fn modifier_operator_statement() {
    // x += 1: the modifier is not a syntactic operator, so the line is an
    // expression; the node is marked through its operator token.
    let lines = vec![line(vec![ident("", "x"), op(" ", "+="), number(" ", "1")])];
    let module = parse_module(lines);
    match first_statement(&module) {
        Tree::OprApp { opr, .. } => {
            assert_eq!(opr.code, "+=");
            let p = analyze_non_syntactic_operator(&opr.code);
            assert!(p.is_modifier());
        }
        other => panic!("expected an operator application, got {:?}", other),
    }
}

#[test]
fn empty_module() {
    let module = parse_module(vec![]);
    match &module {
        Tree::BodyBlock { statements } => assert!(statements.is_empty()),
        other => panic!("expected a body block, got {:?}", other),
    }
}

#[test]
fn argument_errors() {
    // f (x y) = 1: a slot that is exactly one group is unwrapped before
    // analysis, so the parentheses become the argument's own and the body
    // parses as a plain pattern.
    let lines = vec![line(vec![
        ident("", "f"),
        group(" ", vec![ident("", "x"), ident(" ", "y")]),
        assign(" "),
        number(" ", "1"),
    ])];
    let module = parse_module(lines);
    match first_statement(&module) {
        Tree::FunctionDef { args, .. } => {
            assert_eq!(args.len(), 1);
            let a = &args[0];
            assert_eq!(a.open.as_ref().unwrap().code, "(");
            assert_eq!(a.close.as_ref().unwrap().code, ")");
            assert!(matches!(&a.pattern, Tree::App { .. }));
            assert!(a.type_.is_none() && a.default.is_none());
        }
        other => panic!("expected a function definition, got {:?}", other),
    }
    // f (x)y = 1: the group is not the whole slot, so the analysis sees it
    // at the slot's head; without a type annotation inside, the parentheses
    // are spurious.
    let lines = vec![line(vec![
        ident("", "f"),
        group(" ", vec![ident("", "x")]),
        ident("", "y"),
        assign(" "),
        number(" ", "1"),
    ])];
    let module = parse_module(lines);
    match first_statement(&module) {
        Tree::FunctionDef { args, .. } => {
            assert_eq!(args.len(), 1);
            match &args[0].pattern {
                Tree::Invalid { error, .. } => {
                    assert_eq!(*error, SyntaxError::ArgDefSpuriousParens)
                }
                other => panic!("expected a spurious-parens error, got {:?}", other),
            }
        }
        other => panic!("expected a function definition, got {:?}", other),
    }
}

#[test]
fn foreign_missing_name() {
    // foreign js = "x": the name is missing.
    let lines = vec![line(vec![
        ident("", "foreign"),
        ident(" ", "js"),
        assign(" "),
        text(" ", "\"x\""),
    ])];
    let module = parse_module(lines);
    match first_statement(&module) {
        Tree::Invalid { error, ast } => {
            assert_eq!(*error, SyntaxError::ForeignFnExpectedName);
            match ast.as_ref() {
                Tree::OprApp { lhs, opr, rhs } => {
                    assert_eq!(opr.code, "=");
                    assert!(matches!(lhs.as_deref(), Some(Tree::App { .. })));
                    assert!(matches!(rhs.as_deref(), Some(Tree::TextLiteral { .. })));
                }
                other => panic!("expected a re-stitched assignment, got {:?}", other),
            }
        }
        other => panic!("expected an error wrapper, got {:?}", other),
    }
}

#[test]
fn foreign_non_text_body() {
    // foreign js add = 42: the body must be a text literal.
    let lines = vec![line(vec![
        ident("", "foreign"),
        ident(" ", "js"),
        ident(" ", "add"),
        assign(" "),
        number(" ", "42"),
    ])];
    let module = parse_module(lines);
    match first_statement(&module) {
        Tree::ForeignFunctionDef { body, .. } => match body.as_ref() {
            Tree::Invalid { error, ast } => {
                assert_eq!(*error, SyntaxError::ForeignFnExpectedStringBody);
                assert!(matches!(ast.as_ref(), Tree::Number { .. }));
            }
            other => panic!("expected an error-wrapped body, got {:?}", other),
        },
        other => panic!("expected a foreign function definition, got {:?}", other),
    }
}

#[test]
fn unexpected_operator_in_argument_slot() {
    // f (x -> y) = 1: an arrow cannot structure an argument slot.
    let lines = vec![line(vec![
        ident("", "f"),
        group(" ", vec![ident("", "x"), arrow(" "), ident(" ", "y")]),
        assign(" "),
        number(" ", "1"),
    ])];
    let module = parse_module(lines);
    match first_statement(&module) {
        Tree::FunctionDef { args, .. } => match &args[0].pattern {
            Tree::Invalid { error, .. } => {
                assert_eq!(*error, SyntaxError::ArgDefUnexpectedOpInParenClause)
            }
            other => panic!("expected an unexpected-operator error, got {:?}", other),
        },
        other => panic!("expected a function definition, got {:?}", other),
    }
}

#[test]
fn suspension_marker_in_argument() {
    // f ~x = 1: the suspension marker is extracted from the pattern.
    let lines = vec![line(vec![
        ident("", "f"),
        Item::Token(tok(Variant::SuspensionOperator, " ", "~")),
        ident("", "x"),
        assign(" "),
        number(" ", "1"),
    ])];
    let module = parse_module(lines);
    match first_statement(&module) {
        Tree::FunctionDef { args, .. } => {
            assert_eq!(args.len(), 1);
            let a = &args[0];
            assert_eq!(a.suspension.as_ref().unwrap().code, "~");
            assert_eq!(ident_code(&a.pattern), "x");
        }
        other => panic!("expected a function definition, got {:?}", other),
    }
}

#[test]
fn stray_token_is_an_error_leaf() {
    let mut p = Precedence::new();
    let mut items = vec![Item::Token(tok(Variant::CloseSymbol, "", ")"))];
    let t = p.resolve(&mut items, 0).unwrap();
    match &t {
        Tree::Invalid { error, ast } => {
            assert_eq!(*error, SyntaxError::UnexpectedToken);
            assert!(matches!(ast.as_ref(), Tree::Opr { .. }));
        }
        other => panic!("expected an error leaf, got {:?}", other),
    }
}

#[test]
fn type_args_group_defaults_into_one_slot() {
    // In type-style arguments, `x=1` occupies one slot rather than two.
    let mut p = Precedence::new();
    let mut buf = Vec::new();
    let mut items = vec![ident("", "x"), assign(""), number("", "1"), ident(" ", "y")];
    let args = enso_parser::function_def::parse_type_args(&mut items, 0, &mut p, &mut buf);
    assert!(items.is_empty());
    assert_eq!(args.len(), 2);
    assert_eq!(ident_code(&args[0].pattern), "x");
    let d = args[0].default.as_ref().unwrap();
    assert_eq!(d.equals.code, "=");
    assert!(matches!(&d.expression, Tree::Number { .. }));
    assert_eq!(ident_code(&args[1].pattern), "y");
}

#[test]
fn block_applies_to_preceding_operand() {
    // An indented block after an operand becomes a block application with
    // that operand as its left side.
    let mut p = Precedence::new();
    let mut items = vec![
        ident("", "f"),
        Item::Block(vec![line(vec![ident("    ", "x")])]),
    ];
    let t = p.resolve(&mut items, 0).unwrap();
    match &t {
        Tree::ArgumentBlockApplication { lhs, block } => {
            assert_eq!(ident_code(lhs.as_deref().unwrap()), "f");
            assert_eq!(block.len(), 1);
            assert_eq!(ident_code(block[0].expression.as_ref().unwrap()), "x");
        }
        other => panic!("expected a block application, got {:?}", other),
    }
}
