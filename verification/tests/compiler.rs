use std::collections::HashMap;

use bilda::ast::{Ast, Binding, Block, Expr, Import, InfixOp, LetBlock, TypeBlock, UseBlock};
use bilda::compiler::{
    free_variables, number_constant, unapplied_module_name, undefined_identifier,
    lambda_plan, module_bindings, module_lookup, ClosureLayout, ModuleBinding,
    TAG_CLOSURE, TAG_NUMBER, TAG_UNIT,
};
use bilda::errors::{
    CompileCodegenError, CompileError, InternalError, ReferenceError, SettingsError, UnsupportedError,
};
use bilda::jit_ops::{expression_ops, program_ops, JitOp};
use bilda::lexer::lex;
use bilda::parser::parse;

fn program(source: &str) -> Ast {
    parse(&lex(source.trim()).unwrap()).unwrap()
}

fn module_env(pairs: &[(&str, ModuleBinding)]) -> Vec<(String, ModuleBinding)> {
    pairs.iter().map(|(n, b)| (n.to_string(), *b)).collect()
}

fn names(ns: &[&str]) -> Vec<String> {
    ns.iter().map(|n| n.to_string()).collect()
}

fn ident(s: &str) -> Expr {
    Expr::Ident(s.to_string())
}

fn infix(op: InfixOp, left: Expr, right: Expr) -> Expr {
    Expr::Infix { op, left: Box::new(left), right: Box::new(right) }
}

#[test]
fn tags_and_layout_constants() {
    assert_eq!((TAG_UNIT, TAG_NUMBER, TAG_CLOSURE), (0, 1, 2));
    assert_eq!(ClosureLayout::CODE_OFFSET, 0);
    assert_eq!(ClosureLayout::ARITY_OFFSET, 8);
    assert_eq!(ClosureLayout::FREE_LEN_OFFSET, 16);
    assert_eq!(ClosureLayout::APPLIED_LEN_OFFSET, 24);
    assert_eq!(ClosureLayout::DATA_OFFSET, 32);
    assert_eq!(ClosureLayout::VALUE_SIZE, 16);
}

#[test]
fn closure_layout_formulas() {
    assert_eq!(ClosureLayout::size(0, 0), 32);
    assert_eq!(ClosureLayout::size(2, 3), 112);
    assert_eq!(ClosureLayout::free_data_offset(0), 32);
    assert_eq!(ClosureLayout::free_data_offset(3), 80);
    assert_eq!(ClosureLayout::applied_data_offset(2, 0), 64);
    assert_eq!(ClosureLayout::applied_data_offset(2, 1), 80);
}

#[test]
fn free_variables_leave_out_parameters_and_module_names() {
    // x y => x * y
    let body = infix(InfixOp::Mul, ident("x"), ident("y"));
    assert!(free_variables(&body, &names(&[]), &names(&["x", "y"])).is_empty());

    // x => n + x, with `echo` at module level
    let body = infix(
        InfixOp::Add,
        ident("n"),
        Expr::Apply { func: Box::new(ident("echo")), arg: Box::new(ident("x")) },
    );
    assert_eq!(free_variables(&body, &names(&["echo"]), &names(&["x"])), names(&["n"]));

    // a nested lambda binds its own parameters; a name used twice is free once
    let body = Expr::Apply {
        func: Box::new(Expr::Lambda {
            params: names(&["k"]),
            body: Box::new(infix(InfixOp::Add, ident("k"), ident("m"))),
        }),
        arg: Box::new(ident("m")),
    };
    assert_eq!(free_variables(&body, &names(&[]), &names(&[])), names(&["m"]));
}

#[test]
fn lambda_plan_of_a_two_parameter_lambda() {
    // closure = x y => x * y
    let plan = lambda_plan(&names(&["x", "y"]), &names(&[])).unwrap();
    assert_eq!((plan.creation.size, plan.creation.arity, plan.creation.free_len), (32, 2, 0));
    assert!(plan.creation.stores.is_empty());
    assert_eq!(plan.thunks.len(), 1);
    let thunk = &plan.thunks[0];
    assert_eq!((thunk.size, thunk.arity, thunk.free_len, thunk.applied_len), (48, 1, 0, 1));
    assert!(thunk.copies.is_empty());
    assert_eq!(thunk.new_arg_offset, 32);
    assert_eq!(plan.last.loads, vec![("x".to_string(), 32)]);
    assert_eq!(plan.last.last_param, "y");
}

#[test]
fn lambda_plan_of_a_capturing_lambda() {
    // make_add = n => x => n + x: the inner lambda captures `n`
    let plan = lambda_plan(&names(&["x"]), &names(&["n"])).unwrap();
    assert_eq!((plan.creation.size, plan.creation.arity, plan.creation.free_len), (48, 1, 1));
    assert_eq!(plan.creation.stores, vec![("n".to_string(), 32)]);
    assert!(plan.thunks.is_empty());
    assert_eq!(plan.last.loads, vec![("n".to_string(), 32)]);
    assert_eq!(plan.last.last_param, "x");
}

#[test]
fn lambda_plan_copies_captures_and_arguments() {
    let plan = lambda_plan(&names(&["a", "b", "c"]), &names(&["f"])).unwrap();
    assert_eq!(plan.thunks.len(), 2);
    assert_eq!(plan.thunks[1].copies, vec![32, 48]);
    assert_eq!(plan.thunks[1].new_arg_offset, 64);
    assert_eq!(
        plan.last.loads,
        vec![("f".to_string(), 32), ("a".to_string(), 48), ("b".to_string(), 64)]
    );
}

#[test]
fn lambda_plan_needs_a_parameter() {
    assert_eq!(
        lambda_plan(&names(&[]), &names(&["n"])).err(),
        Some("lambda must have at least one parameter".to_string())
    );
}

#[test]
fn module_bindings_collect_imports_and_types() {
    let ast = Ast(vec![
        Block::Use(UseBlock {
            imports: vec![Import { module: "std".to_string(), names: names(&["echo"]) }],
        }),
        Block::Type(TypeBlock {
            bindings: vec![Binding { name: "Box".to_string(), value: ident("Int") }],
        }),
        Block::Let(LetBlock { bindings: vec![], body: Box::new(ident("x")) }),
    ]);
    let module = module_bindings(&ast).unwrap();
    assert_eq!(
        module,
        vec![
            ("echo".to_string(), ModuleBinding::Function),
            ("Box".to_string(), ModuleBinding::TypeConstructor),
        ]
    );
    assert_eq!(module_lookup(&module, &"Box".to_string()), Some(ModuleBinding::TypeConstructor));
    assert_eq!(module_lookup(&module, &"x".to_string()), None);
}

#[test]
fn module_bindings_refuse_unknown_imports() {
    let ast = Ast(vec![Block::Use(UseBlock {
        imports: vec![Import { module: "net".to_string(), names: names(&["get"]) }],
    })]);
    assert_eq!(module_bindings(&ast), Err("unsupported import get from net".to_string()));
}

#[test]
fn module_lookup_finds_the_latest_binding() {
    let module = vec![
        ("T".to_string(), ModuleBinding::Function),
        ("T".to_string(), ModuleBinding::TypeConstructor),
    ];
    assert_eq!(module_lookup(&module, &"T".to_string()), Some(ModuleBinding::TypeConstructor));
}

#[test]
fn error_messages() {
    assert_eq!(
        ReferenceError::Unknown { name: "x".to_string() }.message(),
        "unknown reference: x"
    );
    assert_eq!(
        UnsupportedError::LambdaArity { found: 2 }.message(),
        "only single-parameter lambdas are supported (found 2)"
    );
    assert_eq!(UnsupportedError::LambdaNotCollected.message(), "lambda not collected");
    assert_eq!(
        SettingsError::BadName { name: "opt".to_string() }.message(),
        "no setting named 'opt'"
    );
    assert_eq!(SettingsError::BadType.message(), "wrong type for setting");
    assert_eq!(
        SettingsError::BadValue { value: "7".to_string() }.message(),
        "invalid value for setting: 7"
    );
    assert_eq!(InternalError::EnvScopeStackUnderflow.message(), "env scope stack underflow");
    assert_eq!(InternalError::EnvBindingStackUnderflow.message(), "env binding stack underflow");
}

#[test]
fn lambda_plan_refuses_no_parameters_whatever_it_captures() {
    let many: Vec<String> = (0..200_000).map(|i| format!("v{i}")).collect();
    assert_eq!(
        lambda_plan(&names(&[]), &many).err(),
        Some("lambda must have at least one parameter".to_string())
    );
}

#[test]
fn main_function_refusals() {
    assert_eq!(number_constant(&"42".to_string()), Ok(42));
    assert_eq!(
        number_constant(&"99999999999999999999".to_string()),
        Err("invalid number: 99999999999999999999".to_string())
    );
    assert_eq!(
        unapplied_module_name(&"Box".to_string(), ModuleBinding::TypeConstructor),
        "type constructor Box must be applied to an argument"
    );
    assert_eq!(
        unapplied_module_name(&"echo".to_string(), ModuleBinding::Function),
        "function echo must be applied to an argument"
    );
    assert_eq!(undefined_identifier(&"q".to_string()), "undefined identifier: q");
}

#[test]
fn main_function_binds_then_sets_its_value() {
    let ast = program("vars\nclosure = x y => x * y\nanswer = closure 6 7\nexpr\nanswer");
    let ops = program_ops(&ast).unwrap();
    assert_eq!(
        ops,
        vec![
            JitOp::Lambda(
                names(&["x", "y"]),
                vec![],
                vec![
                    JitOp::Local("x".to_string()),
                    JitOp::Local("y".to_string()),
                    JitOp::Infix(InfixOp::Mul),
                ],
            ),
            JitOp::Bind("closure".to_string()),
            JitOp::Local("closure".to_string()),
            JitOp::Const(6, TAG_NUMBER),
            JitOp::ApplyClosure,
            JitOp::Const(7, TAG_NUMBER),
            JitOp::ApplyClosure,
            JitOp::Bind("answer".to_string()),
            JitOp::Local("answer".to_string()),
            JitOp::SetResult,
        ]
    );
}

#[test]
fn applications_by_kind_of_callee() {
    let module = module_env(&[("Box", ModuleBinding::TypeConstructor), ("echo", ModuleBinding::Function)]);
    let locals = names(&["f", "n"]);
    let boxed = Expr::Apply { func: Box::new(ident("Box")), arg: Box::new(ident("n")) };
    assert_eq!(expression_ops(&boxed, &module, &locals), Ok(vec![JitOp::Local("n".to_string())]));
    let echoed = Expr::Apply { func: Box::new(ident("echo")), arg: Box::new(ident("n")) };
    assert_eq!(
        expression_ops(&echoed, &module, &locals),
        Ok(vec![JitOp::Local("n".to_string()), JitOp::CallImport("echo".to_string())])
    );
    let applied = Expr::Apply { func: Box::new(ident("f")), arg: Box::new(ident("n")) };
    assert_eq!(
        expression_ops(&applied, &module, &locals),
        Ok(vec![
            JitOp::Local("f".to_string()),
            JitOp::Local("n".to_string()),
            JitOp::ApplyClosure,
        ])
    );
}

#[test]
fn lambda_captures_its_free_names() {
    let module = module_env(&[("echo", ModuleBinding::Function)]);
    let body = infix(InfixOp::Add, ident("x"), ident("k"));
    let lambda = Expr::Lambda { params: names(&["x"]), body: Box::new(body) };
    assert_eq!(
        expression_ops(&lambda, &module, &names(&["k"])),
        Ok(vec![JitOp::Lambda(
            names(&["x"]),
            names(&["k"]),
            vec![
                JitOp::Local("x".to_string()),
                JitOp::Local("k".to_string()),
                JitOp::Infix(InfixOp::Add),
            ],
        )])
    );
    assert_eq!(
        expression_ops(&lambda, &module, &names(&[])),
        Err("free variable k not found in local environment".to_string())
    );
    let empty = Expr::Lambda { params: vec![], body: Box::new(ident("k")) };
    assert_eq!(
        expression_ops(&empty, &module, &names(&["k"])),
        Err("lambda must have at least one parameter".to_string())
    );
}

#[test]
fn main_function_errors() {
    let module = module_env(&[("Box", ModuleBinding::TypeConstructor), ("echo", ModuleBinding::Function)]);
    assert_eq!(
        expression_ops(&ident("Box"), &module, &names(&[])),
        Err("type constructor Box must be applied to an argument".to_string())
    );
    assert_eq!(
        expression_ops(&ident("echo"), &module, &names(&[])),
        Err("function echo must be applied to an argument".to_string())
    );
    assert_eq!(
        expression_ops(&ident("q"), &module, &names(&[])),
        Err("undefined identifier: q".to_string())
    );
    assert_eq!(
        expression_ops(&Expr::Number("99999999999999999999".to_string()), &module, &names(&[])),
        Err("invalid number: 99999999999999999999".to_string())
    );
    assert_eq!(
        expression_ops(&Expr::Record(vec![]), &module, &names(&[])),
        Err("unsupported expression in JIT".to_string())
    );
}

#[test]
fn program_with_imports_and_types() {
    let ast = Ast(vec![
        Block::Use(UseBlock {
            imports: vec![Import { module: "std".to_string(), names: names(&["echo"]) }],
        }),
        Block::Type(TypeBlock {
            bindings: vec![Binding { name: "Box".to_string(), value: ident("Int") }],
        }),
        Block::Let(LetBlock {
            bindings: vec![Binding {
                name: "b".to_string(),
                value: Expr::Apply {
                    func: Box::new(ident("Box")),
                    arg: Box::new(Expr::Number("5".to_string())),
                },
            }],
            body: Box::new(Expr::Apply {
                func: Box::new(ident("echo")),
                arg: Box::new(infix(InfixOp::Add, ident("b"), Expr::Number("1".to_string()))),
            }),
        }),
    ]);
    assert_eq!(
        program_ops(&ast),
        Ok(vec![
            JitOp::Const(5, TAG_NUMBER),
            JitOp::Bind("b".to_string()),
            JitOp::Local("b".to_string()),
            JitOp::Const(1, TAG_NUMBER),
            JitOp::Infix(InfixOp::Add),
            JitOp::CallImport("echo".to_string()),
            JitOp::SetResult,
        ])
    );
    let later = program("vars\nx = y\ny = 1\nexpr\nx");
    assert_eq!(program_ops(&later), Err("undefined identifier: y".to_string()));
}

#[test]
fn compile_errors_carry_the_messages_of_their_parts() {
    let reference = CompileError::from(ReferenceError::Unknown { name: "x".to_string() });
    assert!(matches!(reference, CompileError::Reference(_)));
    assert_eq!(reference.message(), "unknown reference: x");
    let unsupported = CompileError::from(UnsupportedError::LambdaArity { found: 0 });
    assert_eq!(unsupported.message(), "only single-parameter lambdas are supported (found 0)");
    assert_eq!(
        CompileError::from(SettingsError::BadType).message(),
        "wrong type for setting"
    );
    assert_eq!(
        CompileError::from(InternalError::EnvBindingStackUnderflow).message(),
        "env binding stack underflow"
    );
    assert_eq!(
        CompileError::from(CompileCodegenError::HostUnsupported).message(),
        "host architecture is unsupported"
    );
    assert_eq!(
        CompileError::from(CompileCodegenError::SupportDisabled).message(),
        "support for host architecture is disabled"
    );
    assert_eq!(
        CompileError::from(CompileCodegenError::MissingCpuFeature { feature: "sse2" }).message(),
        "missing required CPU feature: sse2"
    );
}

/// Walks operations as the code generator does, with a stack height and the
/// bound names; panics where a value or a name would be missing.
fn walk(ops: &[JitOp], mut depth: usize, bound: &mut Vec<String>) -> usize {
    for op in ops {
        match op {
            JitOp::Const(_, _) => depth += 1,
            JitOp::Local(n) => {
                assert!(bound.contains(n), "unbound {n}");
                depth += 1;
            }
            JitOp::CallImport(_) => assert!(depth >= 1),
            JitOp::ApplyClosure | JitOp::Infix(_) => {
                assert!(depth >= 2);
                depth -= 1;
            }
            JitOp::Lambda(params, captured, body) => {
                for c in captured {
                    assert!(bound.contains(c), "uncaptured {c}");
                }
                let mut inner: Vec<String> = params.iter().chain(captured.iter()).cloned().collect();
                assert_eq!(walk(body, 0, &mut inner), 1);
                depth += 1;
            }
            JitOp::Bind(n) => {
                assert!(depth >= 1);
                depth -= 1;
                bound.push(n.clone());
            }
            JitOp::SetResult => {
                assert!(depth >= 1);
                depth -= 1;
            }
        }
    }
    depth
}

#[test]
fn program_operations_keep_the_stack_and_the_names() {
    let ast = program(
        "vars\nk = 10\nadd = x y => x + y + k\nthree = add 1 2\nnested = a => b => a * b * k\nexpr\nnested three 4",
    );
    let ops = program_ops(&ast).unwrap();
    assert_eq!(walk(&ops, 0, &mut Vec::new()), 0);
}

#[test]
fn stages_hand_the_body_its_captures_and_arguments() {
    let params = names(&["a", "b", "c"]);
    let free = names(&["k", "j"]);
    let plan = lambda_plan(&params, &free).unwrap();
    let env: HashMap<&str, i64> = [("k", 100), ("j", 200)].into_iter().collect();
    let args = [1i64, 2, 3];
    let mut memory: HashMap<i32, i64> = HashMap::new();
    for (name, offset) in &plan.creation.stores {
        memory.insert(*offset, env[name.as_str()]);
    }
    for (k, thunk) in plan.thunks.iter().enumerate() {
        let mut next: HashMap<i32, i64> = HashMap::new();
        for offset in &thunk.copies {
            next.insert(*offset, memory[offset]);
        }
        next.insert(thunk.new_arg_offset, args[k]);
        memory = next;
    }
    let mut body: HashMap<String, i64> = HashMap::new();
    for (name, offset) in &plan.last.loads {
        body.insert(name.clone(), memory[offset]);
    }
    body.insert(plan.last.last_param.clone(), args[2]);
    let expected: HashMap<String, i64> = [("k", 100), ("j", 200), ("a", 1), ("b", 2), ("c", 3)]
        .into_iter()
        .map(|(n, v)| (n.to_string(), v))
        .collect();
    assert_eq!(body, expected);
}
