use bilda::ast::{AccessKind, Ast, Binding, Block, Expr, InfixOp, PrefixOp};
use bilda::lexer::{lex, Token};
use bilda::parser::{parse, ParseError};

fn lex_trimmed(input: &str) -> Vec<Token> {
    let input = input.trim();
    lex(input).unwrap()
}

fn ident(s: &str) -> Expr {
    Expr::Ident(s.to_string())
}

fn first_let(ast: &Ast) -> &bilda::ast::LetBlock {
    match &ast.0[0] {
        Block::Let(block) => block,
        _ => panic!("expected a let block"),
    }
}

#[test]
fn vars_expr() {
    let tokens = lex_trimmed(
        r#"
            vars
                Name = String
            expr
                Name
        "#,
    );

    let Ast(blocks) = parse(&tokens).unwrap();
    assert_eq!(blocks.len(), 1);

    let Block::Let(block) = &blocks[0] else {
        panic!("expected a let block");
    };
    assert_eq!(block.bindings.len(), 1);
    assert_eq!(block.bindings[0].name, "Name");
    assert_eq!(block.bindings[0].value, Expr::Ident("String".to_string()));
    assert_eq!(block.body.as_ref(), &Expr::Ident("Name".to_string()));
}

#[test]
fn lambda_and_application() {
    let tokens = lex_trimmed(
        r#"
            vars
                closure = x y => x * y
                answer = closure 6 7
            expr
                answer
        "#,
    );

    let Ast(blocks) = parse(&tokens).unwrap();
    let Block::Let(block) = &blocks[0] else {
        panic!("expected a let block");
    };

    assert_eq!(block.bindings[0].name, "closure");
    assert!(matches!(block.bindings[0].value, Expr::Lambda { .. }));
    assert_eq!(block.bindings[1].name, "answer");
    assert!(matches!(block.bindings[1].value, Expr::Apply { .. }));
}

#[test]
fn record_fields() {
    let tokens = lex_trimmed(
        r#"
            vars
                Name = + { First = String Second = String }
            expr
                Name
        "#,
    );

    let Ast(blocks) = parse(&tokens).unwrap();
    let Block::Let(block) = &blocks[0] else {
        panic!("expected a let block");
    };

    assert_eq!(block.bindings[0].name, "Name");
    let Expr::Prefix {
        op: PrefixOp::Sum,
        expr,
    } = &block.bindings[0].value
    else {
        panic!("expected sum prefix");
    };
    let Expr::Record(fields) = expr.as_ref() else {
        panic!("expected record");
    };
    assert_eq!(fields.len(), 2);
    assert_eq!(fields[0].name, "First");
    assert_eq!(fields[1].name, "Second");
}

#[test]
fn access() {
    let tokens = lex_trimmed(
        r#"
            vars
                type_access = Name::First
                value_access = Name.First
            expr
                value_access
        "#,
    );

    let Ast(blocks) = parse(&tokens).unwrap();
    let Block::Let(block) = &blocks[0] else {
        panic!("expected a let block");
    };

    assert!(matches!(
        block.bindings[0].value,
        Expr::Access {
            kind: AccessKind::Type,
            ..
        }
    ));
    assert!(matches!(
        block.bindings[1].value,
        Expr::Access {
            kind: AccessKind::Value,
            ..
        }
    ));
}

#[test]
fn precedence_of_operators() {
    let ast = parse(&lex_trimmed("vars\nx = a + b * c - d\nexpr\nx")).unwrap();
    let block = first_let(&ast);
    let expected = Expr::Infix {
        op: InfixOp::Sub,
        left: Box::new(Expr::Infix {
            op: InfixOp::Add,
            left: Box::new(ident("a")),
            right: Box::new(Expr::Infix {
                op: InfixOp::Mul,
                left: Box::new(ident("b")),
                right: Box::new(ident("c")),
            }),
        }),
        right: Box::new(ident("d")),
    };
    assert_eq!(block.bindings[0].value, expected);
}

#[test]
fn prefix_binds_tighter_than_infix_and_postfix_tighter_still() {
    let ast = parse(&lex_trimmed("vars\nx = -a.b * c\nexpr\nx")).unwrap();
    let block = first_let(&ast);
    let expected = Expr::Infix {
        op: InfixOp::Mul,
        left: Box::new(Expr::Prefix {
            op: PrefixOp::Difference,
            expr: Box::new(Expr::Access {
                target: Box::new(ident("a")),
                field: "b".to_string(),
                kind: AccessKind::Value,
            }),
        }),
        right: Box::new(ident("c")),
    };
    assert_eq!(block.bindings[0].value, expected);
}

#[test]
fn brackets_and_shorthand_fields() {
    let ast = parse(&lex_trimmed("vars\nx = (a + b) * { c d = 1 }\nexpr\nx")).unwrap();
    let block = first_let(&ast);
    let expected = Expr::Infix {
        op: InfixOp::Mul,
        left: Box::new(Expr::Infix {
            op: InfixOp::Add,
            left: Box::new(ident("a")),
            right: Box::new(ident("b")),
        }),
        right: Box::new(Expr::Record(vec![
            Binding { name: "c".to_string(), value: ident("c") },
            Binding { name: "d".to_string(), value: Expr::Number("1".to_string()) },
        ])),
    };
    assert_eq!(block.bindings[0].value, expected);
}

#[test]
fn application_is_left_associative() {
    let ast = parse(&lex_trimmed("vars\nx = f a b\nexpr\nx")).unwrap();
    let block = first_let(&ast);
    let expected = Expr::Apply {
        func: Box::new(Expr::Apply {
            func: Box::new(ident("f")),
            arg: Box::new(ident("a")),
        }),
        arg: Box::new(ident("b")),
    };
    assert_eq!(block.bindings[0].value, expected);
}

#[test]
fn two_blocks_and_trailing_newlines() {
    let ast = parse(&lex_trimmed("vars\na = 1\nexpr\na\n\nvars\nexpr\nb\n")).unwrap();
    assert_eq!(ast.0.len(), 2);
    let Block::Let(second) = &ast.0[1] else {
        panic!("expected a let block");
    };
    assert!(second.bindings.is_empty());
    assert_eq!(second.body.as_ref(), &ident("b"));
}

#[test]
fn empty_program() {
    assert_eq!(parse(&[]).unwrap(), Ast(vec![]));
}

#[test]
fn leftover_tokens_are_reported() {
    let tokens = lex_trimmed("vars\na = 1\nexpr\na )");
    assert_eq!(parse(&tokens), Err(ParseError { position: 9 }));
    let tokens = lex_trimmed("let\na = 1\nexpr\na");
    assert_eq!(parse(&tokens), Err(ParseError { position: 0 }));
}

#[test]
fn infix_precedence_both_ways() {
    let infix = |op: InfixOp, l: Expr, r: Expr| Expr::Infix {
        op,
        left: Box::new(l),
        right: Box::new(r),
    };
    let ast = parse(&lex_trimmed("vars\nx = a * b + c\nexpr\nx")).unwrap();
    assert_eq!(
        first_let(&ast).bindings[0].value,
        infix(InfixOp::Add, infix(InfixOp::Mul, ident("a"), ident("b")), ident("c"))
    );
    let ast = parse(&lex_trimmed("vars\nx = 1 - 2 - 3\nexpr\nx")).unwrap();
    assert_eq!(
        first_let(&ast).bindings[0].value,
        infix(
            InfixOp::Sub,
            infix(InfixOp::Sub, Expr::Number("1".to_string()), Expr::Number("2".to_string())),
            Expr::Number("3".to_string())
        )
    );
}
