use bilda::ast::{AccessKind, Ast, Binding, Block, Expr, Import, InfixOp, LetBlock, TypeBlock, UseBlock};
use bilda::check_program;
use bilda::runtime::{run, RuntimeError};
use bilda::value::{Builtin, Env, Value};

fn run_source(source: &str) -> (Result<Value, RuntimeError>, Vec<String>) {
    let ast = check_program(source).unwrap();
    let mut out = Vec::new();
    let result = run(&ast, &mut out);
    (result, out)
}

fn ident(s: &str) -> Expr {
    Expr::Ident(s.to_string())
}

fn number(s: &str) -> Expr {
    Expr::Number(s.to_string())
}

fn apply(f: Expr, a: Expr) -> Expr {
    Expr::Apply { func: Box::new(f), arg: Box::new(a) }
}

fn binding(name: &str, value: Expr) -> Binding {
    Binding { name: name.to_string(), value }
}

fn let_block(bindings: Vec<Binding>, body: Expr) -> Block {
    Block::Let(LetBlock { bindings, body: Box::new(body) })
}

fn use_echo() -> Block {
    Block::Use(UseBlock {
        imports: vec![Import { module: "std".to_string(), names: vec!["echo".to_string()] }],
    })
}

fn error(message: &str) -> Result<Value, RuntimeError> {
    Err(RuntimeError(message.to_string()))
}

#[test]
fn lambda_and_application_evaluate() {
    let (result, out) = run_source("vars\nclosure = x y => x * y\nanswer = closure 6 7\nexpr\nanswer");
    assert_eq!(result, Ok(Value::Number(42)));
    assert!(out.is_empty());
}

#[test]
fn lambda_capture_evaluates() {
    let (result, _) =
        run_source("vars\nmake_add = n => x => n + x\nadd5 = make_add 5\nanswer = add5 10\nexpr\nanswer");
    assert_eq!(result, Ok(Value::Number(15)));
}

#[test]
fn partial_application_is_a_closure() {
    let (result, _) = run_source("vars\nf = x y => x - y\nexpr\nf 3");
    let value = result.unwrap();
    assert!(matches!(value, Value::Closure { .. }));
    assert_eq!(value.display(), "<closure>");
}

#[test]
fn arithmetic_precedence() {
    let (result, _) = run_source("vars\nx = 2 + 3 * 4\nexpr\nx");
    assert_eq!(result, Ok(Value::Number(14)));
    let (result, _) = run_source("vars\nexpr\n(2 + 3) * 4 - 1");
    assert_eq!(result, Ok(Value::Number(19)));
}

#[test]
fn prefix_operators_do_not_change_values() {
    let (result, _) = run_source("vars\nx = ~ 7\nexpr\n- x");
    assert_eq!(result, Ok(Value::Number(7)));
}

#[test]
fn records_and_field_access() {
    let (result, _) = run_source("vars\nr = { a = 1 b = 2 }\nexpr\nr.b");
    assert_eq!(result, Ok(Value::Number(2)));
    let (result, _) = run_source("vars\nr = { a = 1 b = 2 }\nexpr\nr");
    assert_eq!(result.unwrap().display(), "{ a = 1, b = 2 }");
    let (result, _) = run_source("vars\nexpr\n{}");
    assert_eq!(result.unwrap().display(), "{  }");
}

#[test]
fn later_binding_hides_earlier() {
    let (result, _) = run_source("vars\nx = 1\nx = 2\nexpr\nx");
    assert_eq!(result, Ok(Value::Number(2)));
}

#[test]
fn last_block_gives_the_value() {
    let (result, _) = run_source("vars\na = 1\nexpr\na\nvars\nb = a + 1\nexpr\nb");
    assert_eq!(result, Ok(Value::Number(2)));
    let (result, _) = run_source("");
    assert_eq!(result, Ok(Value::Unit));
}

#[test]
fn echo_writes_its_argument() {
    let ast = Ast(vec![
        use_echo(),
        let_block(
            vec![binding("age", number("32"))],
            apply(ident("echo"), ident("age")),
        ),
    ]);
    let mut out = Vec::new();
    assert_eq!(run(&ast, &mut out), Ok(Value::Unit));
    assert_eq!(out, vec!["32".to_string()]);
}

#[test]
fn type_constructors_wrap_and_access_reads_through() {
    let ast = Ast(vec![
        Block::Type(TypeBlock { bindings: vec![binding("Box", ident("Box"))] }),
        let_block(
            vec![binding("b", apply(ident("Box"), Expr::Record(vec![binding("inner", number("5"))])))],
            Expr::Access { target: Box::new(ident("b")), field: "inner".to_string(), kind: AccessKind::Value },
        ),
    ]);
    let mut out = Vec::new();
    assert_eq!(run(&ast, &mut out), Ok(Value::Number(5)));

    let ast = Ast(vec![
        Block::Type(TypeBlock { bindings: vec![binding("Box", ident("Box"))] }),
        let_block(vec![], ident("Box")),
    ]);
    let value = run(&ast, &mut out).unwrap();
    assert_eq!(value, Value::TypeConstructor("Box".to_string()));
    assert_eq!(value.display(), "<type Box>");
}

#[test]
fn errors_are_reported_with_their_messages() {
    assert_eq!(run_source("vars\nexpr\nmissing").0, error("undefined identifier: missing"));
    assert_eq!(run_source("vars\nexpr\n3 4").0, error("not a function: 3"));
    assert_eq!(run_source("vars\nr = { a = 1 }\nexpr\nr.b").0, error("missing field: b"));
    assert_eq!(
        run_source("vars\nr = { a = 1 }\nexpr\nr::a").0,
        error("cannot access a on value: { a = 1 }")
    );
    assert_eq!(run_source("vars\nexpr\n3.a").0, error("cannot access a on value: 3"));
    assert_eq!(
        run_source("vars\nf = x => x\nexpr\nf + 1").0,
        error("cannot apply arithmetic to <closure> and 1")
    );
    assert_eq!(run_source("vars\nexpr\n99999999999999999999").0, error("invalid number: 99999999999999999999"));
}

#[test]
fn unknown_import_is_an_error() {
    let ast = Ast(vec![Block::Use(UseBlock {
        imports: vec![Import { module: "io".to_string(), names: vec!["read".to_string()] }],
    })]);
    let mut out = Vec::new();
    assert_eq!(run(&ast, &mut out), error("unknown import read from module io"));
}

#[test]
fn builtin_displays_its_name() {
    assert_eq!(Value::Builtin(Builtin::Echo).display(), "<builtin echo>");
    assert_eq!(Value::Unit.display(), "()");
    assert_eq!(Value::Number(-9223372036854775808).display(), "-9223372036854775808");
    assert_eq!(
        Value::TypeInstance("T".to_string(), Box::new(Value::Number(0))).display(),
        "0"
    );
}

#[test]
fn environment_lookup_finds_the_latest() {
    let env = Env::new()
        .define("x".to_string(), Value::Number(1))
        .define("y".to_string(), Value::Unit)
        .define("x".to_string(), Value::Number(3));
    assert_eq!(env.get(&"x".to_string()), Some(Value::Number(3)));
    assert_eq!(env.get(&"y".to_string()), Some(Value::Unit));
    assert_eq!(env.get(&"z".to_string()), None);
}

#[test]
fn infix_on_hand_built_tree() {
    let ast = Ast(vec![let_block(
        vec![],
        Expr::Infix { op: InfixOp::Mul, left: Box::new(number("-3")), right: Box::new(number("+4")) },
    )]);
    let mut out = Vec::new();
    assert_eq!(run(&ast, &mut out), Ok(Value::Number(-12)));
}

#[test]
fn overflow_aborts_the_run() {
    let (result, _) = run_source("vars\nx = 9223372036854775807 + 1\nexpr\nx");
    assert_eq!(result, error("evaluation aborted"));
}
