use bilda::errors::{CompileError, ReferenceError, UnsupportedError};
use bilda::script::ast::Expression;
use bilda::script::compiler::{expression_plan, program_plan, HelperCall, ScopeEnv};
use bilda::script::lexer::lex;
use bilda::script::math::MathSign;
use bilda::script::parser::parse;

fn plan(source: &str) -> Result<bilda::script::compiler::ProgramPlan, CompileError> {
    let tokens = lex(source).expect("lex error");
    let ast = parse(&tokens).expect("parse error");
    program_plan(&ast)
}

fn s(x: &str) -> String {
    x.to_string()
}

#[test]
fn scope_env_finds_the_latest_in_the_innermost_scope() {
    let mut env = ScopeEnv::new();
    assert!(env.insert(s("a"), false).is_ok());
    env.push_scope();
    assert!(env.insert(s("b"), true).is_ok());
    assert!(env.insert(s("a"), true).is_ok());
    assert_eq!(env.get(&s("a")), Some((1, 1, true)));
    assert_eq!(env.get(&s("b")), Some((1, 0, true)));
    assert_eq!(env.get(&s("c")), None);
    env.pop_scope();
    assert_eq!(env.get(&s("a")), Some((0, 0, false)));
    assert_eq!(env.get(&s("b")), None);
    env.pop_scope();
    assert!(matches!(
        env.insert(s("x"), false),
        Err(CompileError::Internal(_))
    ));
}

#[test]
fn plan_of_an_integer() {
    let p = plan("42").unwrap();
    assert!(p.lambdas.is_empty());
    assert_eq!(p.main, vec![HelperCall::MakeInt(42)]);
}

#[test]
fn plan_of_arithmetic() {
    let p = plan("(1 + 2) * 3").unwrap();
    assert_eq!(
        p.main,
        vec![
            HelperCall::MakeInt(1),
            HelperCall::MakeInt(2),
            HelperCall::Math(MathSign::Addition),
            HelperCall::MakeInt(3),
            HelperCall::Math(MathSign::Multiplication),
        ]
    );
}

#[test]
fn plan_of_let_in() {
    let p = plan("let a = 1 b = 2 in a + b").unwrap();
    assert_eq!(
        p.main,
        vec![
            HelperCall::BeginScope,
            HelperCall::MakeInt(1),
            HelperCall::Bind,
            HelperCall::MakeInt(2),
            HelperCall::Bind,
            HelperCall::Incref(2, 0),
            HelperCall::Incref(2, 1),
            HelperCall::Math(MathSign::Addition),
            HelperCall::EndScope,
        ]
    );
}

#[test]
fn plan_of_strings_and_type_names() {
    let p = plan(r#""hello""#).unwrap();
    assert_eq!(p.main, vec![HelperCall::MakeString(s("hello"))]);
    let p = plan("{ t = String }").unwrap();
    assert_eq!(
        p.main,
        vec![
            HelperCall::AllocMap,
            HelperCall::MakeString(s("String")),
            HelperCall::MapSet(s("t")),
        ]
    );
}

#[test]
fn plan_of_a_constructor() {
    let p = plan("let Status = + { completed = True } in Status { completed = False }").unwrap();
    assert_eq!(
        p.main,
        vec![
            HelperCall::BeginScope,
            HelperCall::AllocMap,
            HelperCall::MakeBool(true),
            HelperCall::MapSet(s("completed")),
            HelperCall::Bind,
            HelperCall::AllocMap,
            HelperCall::MakeBool(false),
            HelperCall::MapSet(s("completed")),
            HelperCall::Rename(s("Status")),
            HelperCall::EndScope,
        ]
    );
}

#[test]
fn plan_of_a_lambda_and_its_call() {
    let p = plan("let f = (x: Int) => x + 1 in f(5)").unwrap();
    assert_eq!(
        p.lambdas,
        vec![vec![
            HelperCall::Incref(1, 0),
            HelperCall::MakeInt(1),
            HelperCall::Math(MathSign::Addition),
            HelperCall::EndScope,
        ]]
    );
    assert_eq!(
        p.main,
        vec![
            HelperCall::BeginScope,
            HelperCall::MakeClosure(0),
            HelperCall::Bind,
            HelperCall::MakeInt(5),
            HelperCall::ApplySlot(2, 0),
            HelperCall::EndScope,
        ]
    );
}

#[test]
fn plan_of_negation() {
    let p = plan("!True").unwrap();
    assert_eq!(p.main, vec![HelperCall::MakeBool(true), HelperCall::Negate]);
}

#[test]
fn plan_errors() {
    assert!(matches!(
        plan("x"),
        Err(CompileError::Reference(ReferenceError::Unknown { name })) if name == "x"
    ));
    assert!(matches!(
        plan("(a: Int b: Int) => a"),
        Err(CompileError::Unsupported(UnsupportedError::LambdaArity { found: 2 }))
    ));
    // lambda functions are planned first: the lambda's error wins
    assert!(matches!(
        plan("let a = y in (x: Int) => z"),
        Err(CompileError::Reference(ReferenceError::Unknown { name })) if name == "z"
    ));
    // a lambda body sees only its parameter
    assert!(matches!(
        plan("let n = 1 in (x: Int) => n"),
        Err(CompileError::Reference(ReferenceError::Unknown { name })) if name == "n"
    ));
}

#[test]
fn expression_plan_in_a_given_scope() {
    let mut env = ScopeEnv::new();
    assert!(env.insert(s("f"), true).is_ok());
    let mut lambdas = Vec::new();
    let call = Expression::Call(bilda::script::ast::Call {
        function: Box::new(Expression::Reference(s("f"))),
        argument: Box::new(Expression::Int(3)),
    });
    let r = expression_plan(&call, &mut env, &mut lambdas);
    assert_eq!(r.unwrap(), vec![HelperCall::MakeInt(3), HelperCall::ApplySlot(0, 0)]);
    assert!(lambdas.is_empty());
}

#[test]
fn closing_a_scope_undoes_what_was_done_in_it() {
    let mut env = ScopeEnv::new();
    assert!(env.insert(s("x"), false).is_ok());
    env.push_scope();
    assert!(env.insert(s("x"), true).is_ok());
    env.push_scope();
    assert!(env.insert(s("y"), false).is_ok());
    env.pop_scope();
    assert!(env.insert(s("y"), true).is_ok());
    assert!(env.insert(s("y"), false).is_ok());
    assert_eq!(env.get(&s("y")), Some((1, 2, false)));
    assert_eq!(env.get(&s("x")), Some((1, 0, true)));
    env.pop_scope();
    assert_eq!(env.get(&s("x")), Some((0, 0, false)));
    assert_eq!(env.get(&s("y")), None);
}

/// The stack height after each call of a plan; panics where a call would
/// take a value that is not there.
fn height(calls: &[HelperCall]) -> usize {
    let mut depth: usize = 0;
    for c in calls {
        match c {
            HelperCall::MakeInt(_)
            | HelperCall::MakeBool(_)
            | HelperCall::MakeString(_)
            | HelperCall::Incref(_, _)
            | HelperCall::AllocMap
            | HelperCall::MakeClosure(_) => depth += 1,
            HelperCall::MapSet(_) | HelperCall::Math(_) | HelperCall::Apply => {
                assert!(depth >= 2);
                depth -= 1;
            }
            HelperCall::Negate | HelperCall::ApplySlot(_, _) | HelperCall::Rename(_) | HelperCall::EndScope => {
                assert!(depth >= 1);
            }
            HelperCall::BeginScope => {}
            HelperCall::Bind => {
                assert!(depth >= 1);
                depth -= 1;
            }
        }
    }
    depth
}

#[test]
fn main_plan_leaves_exactly_its_value() {
    let p = plan("let a = 1 b = { x = a y = !True } f = (n: Int) => n + 1 in f(a)").unwrap();
    assert_eq!(height(&p.main), 1);
    assert!(!p.lambdas.is_empty());
    for f in &p.lambdas {
        assert_eq!(height(f), 1);
    }
}
