use bilda::script::ast::{
    Assignment, Ast, Call, Expression, Lambda, LetIn, MapLiteral, Product, Sum,
};
use bilda::script::lexer::{lex, LexerError, Token};
use bilda::script::math::{math, math_target, Math, MathSign, MathTarget};
use bilda::script::parser::{parse, ParseError};
use bilda::script::render::{render, Printed};

fn tokens(source: &str) -> Vec<Token> {
    lex(source).expect("lex error")
}

fn id(s: &str) -> Token {
    Token::Identifier(s.to_string())
}

fn num(n: isize) -> MathTarget {
    MathTarget::Number(n)
}

fn reference(s: &str) -> MathTarget {
    MathTarget::Reference(s.to_string())
}

fn op(sign: MathSign, left: MathTarget, right: MathTarget) -> MathTarget {
    MathTarget::Math(Box::new(Math { sign, left, right }))
}

/// Reads the whole of `source` as arithmetic.
fn parse_math(source: &str) -> MathTarget {
    let ts = tokens(source);
    let (target, n) = math(&ts).expect("parse error");
    assert_eq!(n, ts.len());
    target
}

#[test]
fn script_let_in_tokens() {
    assert_eq!(
        tokens("let a = 1 b = 2 in a + b"),
        vec![
            Token::Let,
            id("a"),
            Token::Equal,
            Token::Number(1),
            id("b"),
            Token::Equal,
            Token::Number(2),
            Token::In,
            id("a"),
            Token::Plus,
            id("b"),
        ]
    );
}

#[test]
fn script_keywords_and_identifiers() {
    assert_eq!(
        tokens("let letter do on in rec True False Int String Integer"),
        vec![
            Token::Let,
            id("letter"),
            Token::Do,
            Token::On,
            Token::In,
            Token::Rec,
            Token::True,
            Token::False,
            Token::Int,
            Token::String,
            id("Integer"),
        ]
    );
}

#[test]
fn script_symbols() {
    assert_eq!(
        tokens("< > ( ) { } [ ] . : => = - + / * \\* \" & | ! _"),
        vec![
            Token::AngleBracketLeft,
            Token::AngleBracketRight,
            Token::RoundBracketLeft,
            Token::RoundBracketRight,
            Token::CurlyBracketLeft,
            Token::CurlyBracketRight,
            Token::SquareBracketLeft,
            Token::SquareBracketRight,
            Token::DotSingle,
            Token::Colon,
            Token::Arrow,
            Token::Equal,
            Token::Minus,
            Token::Plus,
            Token::ForwardSlash,
            Token::Asterisk,
            Token::Star,
            Token::Quotation,
            Token::Ampersand,
            Token::Pipe,
            Token::Exclamation,
            Token::Underscore,
        ]
    );
}

#[test]
fn script_signed_numbers_and_floats() {
    assert_eq!(
        tokens("-5 +7 - 5 1.5 -0.25"),
        vec![
            Token::Number(-5),
            Token::Number(7),
            Token::Minus,
            Token::Number(5),
            Token::Float("1.5".to_string()),
            Token::Float("-0.25".to_string()),
        ]
    );
    assert_eq!(tokens("3."), vec![Token::Number(3), Token::DotSingle]);
}

#[test]
fn script_paths() {
    assert_eq!(
        tokens("./src/main.rs ../a/ 4/2 a.b"),
        vec![
            Token::FilePath("./src/main.rs".to_string()),
            Token::FilePath("../a".to_string()),
            Token::ForwardSlash,
            Token::Number(4),
            Token::FilePath("/2".to_string()),
            id("a"),
            Token::FilePath(".b".to_string()),
        ]
    );
}

#[test]
fn script_globs() {
    assert_eq!(
        tokens("'src/*.rs' x"),
        vec![Token::GlobPath("'src/*.rs'".to_string()), id("x")]
    );
    assert_eq!(
        tokens("'a' 'b'"),
        vec![Token::GlobPath("'a' 'b'".to_string())]
    );
    assert_eq!(lex("'unclosed"), Err(LexerError::InvalidToken));
    assert_eq!(lex("''"), Err(LexerError::InvalidToken));
}

#[test]
fn script_blanks_and_comments() {
    assert_eq!(
        tokens("a\u{a0}\u{2003}b # a comment\n\tc"),
        vec![id("a"), id("b"), id("c")]
    );
    assert_eq!(tokens(""), vec![]);
    assert_eq!(tokens("# only a comment"), vec![]);
}

#[test]
fn script_errors() {
    assert_eq!(lex("a @ b"), Err(LexerError::InvalidToken));
    assert_eq!(lex("\\x"), Err(LexerError::InvalidToken));
    assert!(matches!(
        lex("99999999999999999999999"),
        Err(LexerError::ParseInt(_))
    ));
    assert_eq!(
        tokens("_x"),
        vec![Token::Underscore, id("x")]
    );
}

#[test]
fn math_addition() {
    assert_eq!(parse_math("1 + 2"), op(MathSign::Addition, num(1), num(2)));
}

#[test]
fn math_subtraction() {
    assert_eq!(parse_math("1 - 2"), op(MathSign::Subtraction, num(1), num(2)));
}

#[test]
fn math_multiplication() {
    assert_eq!(parse_math("2 * 3"), op(MathSign::Multiplication, num(2), num(3)));
}

#[test]
fn math_division() {
    assert_eq!(parse_math("4 / 2"), op(MathSign::Division, num(4), num(2)));
}

#[test]
fn math_precedence() {
    assert_eq!(
        parse_math("1 + 2 * 3"),
        op(
            MathSign::Addition,
            num(1),
            op(MathSign::Multiplication, num(2), num(3))
        )
    );
    assert_eq!(
        parse_math("2 * 3 + 1"),
        op(
            MathSign::Addition,
            op(MathSign::Multiplication, num(2), num(3)),
            num(1)
        )
    );
}

#[test]
fn math_brackets() {
    assert_eq!(
        parse_math("(1 + 2) * 3"),
        op(
            MathSign::Multiplication,
            op(MathSign::Addition, num(1), num(2)),
            num(3)
        )
    );
}

#[test]
fn math_left_associative() {
    assert_eq!(
        parse_math("1 - 2 - 3"),
        op(
            MathSign::Subtraction,
            op(MathSign::Subtraction, num(1), num(2)),
            num(3)
        )
    );
    assert_eq!(
        parse_math("8 / 4 / 2"),
        op(
            MathSign::Division,
            op(MathSign::Division, num(8), num(4)),
            num(2)
        )
    );
}

#[test]
fn math_references() {
    assert_eq!(parse_math("a + b"), op(MathSign::Addition, reference("a"), reference("b")));
    assert_eq!(
        parse_math("String * Int"),
        op(MathSign::Multiplication, reference("String"), reference("Int"))
    );
}

#[test]
fn math_stops_where_the_arithmetic_ends() {
    let ts = tokens("1 + 2 in x");
    assert_eq!(math(&ts), Some((op(MathSign::Addition, num(1), num(2)), 3)));
    let ts = tokens("1 + )");
    assert_eq!(math(&ts), Some((num(1), 1)));
    let ts = tokens("(1 + 2");
    assert_eq!(math(&ts), None);
    let ts = tokens(") 1");
    assert_eq!(math(&ts), None);
    assert_eq!(math(&[]), None);
}

#[test]
fn math_single_targets() {
    assert_eq!(math_target(&Token::Number(7)), Some(num(7)));
    assert_eq!(math_target(&id("x")), Some(reference("x")));
    assert_eq!(math_target(&Token::String), Some(reference("String")));
    assert_eq!(math_target(&Token::Int), Some(reference("Int")));
    assert_eq!(math_target(&Token::Plus), None);
}

fn parse_script(source: &str) -> Ast {
    parse(&tokens(source)).expect("parse error")
}

fn assign(name: &str, value: Ast) -> Assignment {
    Assignment { name: name.to_string(), annotation: None, value: Box::new(value) }
}

fn expr(e: Expression) -> Ast {
    Ast::Expression(e)
}

fn refer(s: &str) -> Expression {
    Expression::Reference(s.to_string())
}

fn math_expr(sign: MathSign, left: MathTarget, right: MathTarget) -> Expression {
    Expression::Math(Math { sign, left, right })
}

fn call(function: Expression, argument: Expression) -> Expression {
    Expression::Call(Call { function: Box::new(function), argument: Box::new(argument) })
}

fn map(assignments: Vec<Assignment>) -> Expression {
    Expression::MapLiteral(MapLiteral { assignments })
}

#[test]
fn script_parse_arithmetic() {
    assert_eq!(
        parse_script("1 + 2"),
        expr(math_expr(MathSign::Addition, num(1), num(2)))
    );
    assert_eq!(
        parse_script("1 - 2"),
        expr(math_expr(MathSign::Subtraction, num(1), num(2)))
    );
    assert_eq!(
        parse_script("2 * 3"),
        expr(math_expr(MathSign::Multiplication, num(2), num(3)))
    );
    assert_eq!(
        parse_script("4 / 2"),
        expr(math_expr(MathSign::Division, num(4), num(2)))
    );
    assert_eq!(
        parse_script("1 + 2 * 3"),
        expr(math_expr(
            MathSign::Addition,
            num(1),
            op(MathSign::Multiplication, num(2), num(3))
        ))
    );
    assert_eq!(
        parse_script("(1 + 2) * 3"),
        expr(math_expr(
            MathSign::Multiplication,
            op(MathSign::Addition, num(1), num(2)),
            num(3)
        ))
    );
}

#[test]
fn script_parse_nested_let_in() {
    let source = "
        let
          a = 2
          b = let
            c = 1
          in
            c
        in
          a + b
    ";
    assert_eq!(
        parse_script(source),
        Ast::LetIn(LetIn {
            assignments: vec![
                assign("a", expr(Expression::Int(2))),
                assign(
                    "b",
                    Ast::LetIn(LetIn {
                        assignments: vec![assign("c", expr(Expression::Int(1)))],
                        expression: Box::new(refer("c")),
                    })
                ),
            ],
            expression: Box::new(math_expr(
                MathSign::Addition,
                reference("a"),
                reference("b")
            )),
        })
    );
}

#[test]
fn script_parse_types_and_constructors() {
    let source = r#"
        let
          Status = + {
            completed = True
            duration = u32
          }
          Chore = * {
            title = String
            description = String
            status = Status
          }
        in
          Chore {
            title = "Vacuum"
            description = "Get the machine do the sucky in every room"
            status = Status {
              completed = True
            }
          }
    "#;
    assert_eq!(
        parse_script(source),
        Ast::LetIn(LetIn {
            assignments: vec![
                assign(
                    "Status",
                    expr(Expression::Product(Product {
                        assignments: vec![
                            assign("completed", expr(Expression::Boolean(true))),
                            assign("duration", expr(refer("u32"))),
                        ],
                    }))
                ),
                assign(
                    "Chore",
                    expr(Expression::Sum(Sum {
                        assignments: vec![
                            assign("title", expr(refer("String"))),
                            assign("description", expr(refer("String"))),
                            assign("status", expr(refer("Status"))),
                        ],
                    }))
                ),
            ],
            expression: Box::new(call(
                refer("Chore"),
                map(vec![
                    assign("title", expr(Expression::String("Vacuum".to_string()))),
                    assign(
                        "description",
                        expr(Expression::String(
                            "Get the machine do the sucky in every room".to_string()
                        ))
                    ),
                    assign(
                        "status",
                        expr(call(
                            refer("Status"),
                            map(vec![assign("completed", expr(Expression::Boolean(true)))])
                        ))
                    ),
                ]),
            )),
        })
    );
}

#[test]
fn script_parse_lambda_and_call() {
    assert_eq!(
        parse_script("let f = (x: Int) => x + 1 in f(5)"),
        Ast::LetIn(LetIn {
            assignments: vec![assign(
                "f",
                expr(Expression::Lambda(Lambda {
                    params: vec!["x".to_string()],
                    body: Box::new(math_expr(MathSign::Addition, reference("x"), num(1))),
                }))
            )],
            expression: Box::new(call(refer("f"), Expression::Int(5))),
        })
    );
    assert_eq!(
        parse_script("(a: String b: T) => a"),
        expr(Expression::Lambda(Lambda {
            params: vec!["a".to_string(), "b".to_string()],
            body: Box::new(refer("a")),
        }))
    );
}

#[test]
fn script_parse_literals() {
    assert_eq!(parse_script("42"), expr(Expression::Int(42)));
    assert_eq!(
        parse_script(r#""hello""#),
        expr(Expression::String("hello".to_string()))
    );
    assert_eq!(parse_script("False"), expr(Expression::Boolean(false)));
    assert_eq!(parse_script("x"), expr(refer("x")));
}

#[test]
fn script_parse_shorthand_fields() {
    assert_eq!(
        parse_script("{ a b = 1 }"),
        expr(map(vec![
            assign("a", expr(refer("a"))),
            assign("b", expr(Expression::Int(1))),
        ]))
    );
    assert_eq!(parse_script("{}"), expr(map(vec![])));
    assert_eq!(
        parse_script("let Status = + { completed = True } in Status { completed = False }"),
        Ast::LetIn(LetIn {
            assignments: vec![assign(
                "Status",
                expr(Expression::Product(Product {
                    assignments: vec![assign("completed", expr(Expression::Boolean(true)))],
                }))
            )],
            expression: Box::new(call(
                refer("Status"),
                map(vec![assign("completed", expr(Expression::Boolean(false)))])
            )),
        })
    );
}

#[test]
fn script_parse_errors() {
    assert_eq!(parse(&tokens("")), Err(ParseError { position: 0 }));
    assert_eq!(parse(&tokens("1 2")), Err(ParseError { position: 1 }));
    assert_eq!(parse(&tokens("let in 1")), Err(ParseError { position: 0 }));
    assert_eq!(parse(&tokens("let a = 1 in")), Err(ParseError { position: 0 }));
    assert_eq!(parse(&tokens("f(1")), Err(ParseError { position: 1 }));
}

#[test]
fn script_tokens_written_one_per_line_read_back() {
    let written = "let\nx\n42\n-7\n1.5\n./a\n'*.rs'\n\"s t\"\n=>\n\\*\n_\nString";
    assert_eq!(
        tokens(written),
        vec![
            Token::Let,
            id("x"),
            Token::Number(42),
            Token::Number(-7),
            Token::Float("1.5".to_string()),
            Token::FilePath("./a".to_string()),
            Token::GlobPath("'*.rs'".to_string()),
            Token::StringLiteral("s t".to_string()),
            Token::Arrow,
            Token::Star,
            Token::Underscore,
            Token::String,
        ]
    );
}

#[test]
fn script_bracketed_arithmetic_reads_as_arithmetic() {
    assert_eq!(
        parse_script("((1 * a) - (b / 2))"),
        expr(math_expr(
            MathSign::Subtraction,
            op(MathSign::Multiplication, num(1), reference("a")),
            op(MathSign::Division, reference("b"), num(2))
        ))
    );
    assert_eq!(parse_script("(7)"), expr(Expression::Int(7)));
}

#[test]
fn script_parse_negation() {
    assert_eq!(
        parse_script("!True"),
        expr(Expression::Not(Box::new(Expression::Boolean(true))))
    );
    assert_eq!(
        parse_script("!False"),
        expr(Expression::Not(Box::new(Expression::Boolean(false))))
    );
    assert_eq!(parse(&tokens("!x")), Err(ParseError { position: 0 }));
}

#[test]
fn check_lexes_scripts_only() {
    assert_eq!(bilda::check("x"), Ok(()));
    assert_eq!(bilda::check("let a = 1 in a"), Ok(()));
    assert_eq!(bilda::check("a @ b"), Err(LexerError::InvalidToken));
    assert!(matches!(
        bilda::check("99999999999999999999999"),
        Err(LexerError::ParseInt(_))
    ));
}

#[test]
fn script_call_takes_arguments_in_turn() {
    assert_eq!(
        parse_script("f(1)(2)"),
        expr(call(call(refer("f"), Expression::Int(1)), Expression::Int(2)))
    );
    assert_eq!(
        parse_script("f(1) { a = 2 }"),
        expr(call(
            call(refer("f"), Expression::Int(1)),
            map(vec![assign("a", expr(Expression::Int(2)))])
        ))
    );
    assert_eq!(parse(&tokens("f(1)(2")), Err(ParseError { position: 4 }));
}

#[test]
fn script_values_written_out() {
    assert_eq!(render(&Printed::Int(-42)), "-42");
    assert_eq!(render(&Printed::Bool(true)), "True");
    assert_eq!(render(&Printed::Bool(false)), "False");
    assert_eq!(render(&Printed::Text("hi".to_string())), "hi");
    assert_eq!(render(&Printed::Function), "<function>");
    assert_eq!(render(&Printed::Unknown), "<unknown>");
    assert_eq!(render(&Printed::Record(None, vec![])), "{  }");
    assert_eq!(
        render(&Printed::Record(
            Some("Status".to_string()),
            vec![
                ("completed".to_string(), Printed::Bool(false)),
                ("inner".to_string(), Printed::Record(None, vec![("n".to_string(), Printed::Int(7))])),
            ]
        )),
        "Status { completed = False, inner = { n = 7 } }"
    );
}
