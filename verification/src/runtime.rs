//! The interpreter: evaluates a program as [`crate::semantics`] says.
use vstd::prelude::*;
use vstd::string::StringExecFns;

use crate::ast::{
    bindings_view, strings_view, AccessKind, Ast, Binding, Block, Expr, Import, InfixOp,
    SpecBinding, SpecBlock,
};
use crate::semantics::{
    access, apply, eval, eval_bindings, eval_fields, eval_let, eval_type, eval_use,
    import_names, infix, resolve_import, run_blocks, run_fuel, spec_run, Fault, Outcome, Output,
};
use crate::text::parse_i64;
use crate::value::{
    clone_expr, clone_strings, display, field_of, lemma_pairs_view_index, lemma_pairs_view_len,
    lemma_pairs_view_push, lemma_pairs_view_skip,
    pairs_view, Builtin, Env, SpecEnv, SpecValue, Value,
};

verus! {

/// An error that a program reports, with its message.
#[derive(Debug, PartialEq)]
pub struct RuntimeError(pub String);

/// Why evaluation stopped without a value.
#[derive(Debug, PartialEq)]
pub enum Stop {
    Error(RuntimeError),
    Abort,
    Exhausted,
}

pub open spec fn stop_view(s: Stop) -> Fault {
    match s {
        Stop::Error(e) => Fault::Error(e.0@),
        Stop::Abort => Fault::Abort,
        Stop::Exhausted => Fault::Exhausted,
    }
}

pub open spec fn outcome_view(r: Result<Value, Stop>) -> Outcome {
    match r {
        Ok(v) => Ok(v@),
        Err(s) => Err(stop_view(s)),
    }
}

fn error2(a: &str, b: &String) -> (s: Stop)
    ensures
        stop_view(s) == Fault::Error(a@ + b@),
{
    let mut m = String::from_str(a);
    m.append(b.as_str());
    Stop::Error(RuntimeError(m))
}

fn error4(a: &str, b: &String, c: &str, d: &String) -> (s: Stop)
    ensures
        stop_view(s) == Fault::Error(a@ + b@ + c@ + d@),
{
    let mut m = String::from_str(a);
    m.append(b.as_str());
    m.append(c);
    m.append(d.as_str());
    Stop::Error(RuntimeError(m))
}

proof fn lemma_output_push(out: Seq<String>, s: String)
    ensures
        strings_view(out.push(s)) == strings_view(out).push(s@),
{
    assert(strings_view(out.push(s)) =~= strings_view(out).push(s@));
}

/// Evaluates `e` in `env` within `fuel` steps; `echo` writes to `out`.
pub fn eval_expr(e: &Expr, env: &Env, fuel: u64, out: &mut Vec<String>) -> (r: Result<Value, Stop>)
    ensures
        (outcome_view(r), strings_view(final(out)@)) == eval(
            e@,
            env@,
            fuel as nat,
            strings_view(old(out)@),
        ),
    decreases fuel, 0nat,
{
    if fuel == 0 {
        return Err(Stop::Exhausted);
    }
    let f = fuel - 1;
    match e {
        Expr::Ident(n) => match env.get(n) {
            Some(v) => Ok(v),
            None => Err(error2("undefined identifier: ", n)),
        },
        Expr::Number(t) => match parse_i64(t) {
            Some(v) => Ok(Value::Number(v)),
            None => Err(error2("invalid number: ", t)),
        },
        Expr::Apply { func, arg } => {
            let fv = eval_expr(func, env, f, out)?;
            let av = eval_expr(arg, env, f, out)?;
            apply_value(fv, av, f, out)
        },
        Expr::Lambda { params, body } => Ok(
            Value::Closure { params: clone_strings(params), body: clone_expr(body), env: env.copy() },
        ),
        Expr::Access { target, field, kind } => {
            let tv = eval_expr(target, env, f, out)?;
            access_value(tv, field, *kind)
        },
        Expr::Prefix { expr, .. } => eval_expr(expr, env, f, out),
        Expr::Infix { op, left, right } => {
            let lv = eval_expr(left, env, f, out)?;
            let rv = eval_expr(right, env, f, out)?;
            infix_value(*op, lv, rv)
        },
        Expr::Record(fields) => eval_record(fields, env, f, out),
    }
}

fn eval_record(fields: &Vec<Binding>, env: &Env, fuel: u64, out: &mut Vec<String>) -> (r: Result<
    Value,
    Stop,
>)
    ensures
        (outcome_view(r), strings_view(final(out)@)) == eval_fields(
            bindings_view(fields@),
            env@,
            fuel as nat,
            strings_view(old(out)@),
            Seq::empty(),
        ),
    decreases fuel, 1nat,
{
    let ghost whole = eval_fields(
        bindings_view(fields@),
        env@,
        fuel as nat,
        strings_view(out@),
        Seq::empty(),
    );
    let mut values: Vec<(String, Value)> = Vec::new();
    let mut i: usize = 0;
    proof {
        assert(fields@.skip(0) =~= fields@);
    }
    while i < fields.len()
        invariant
            i <= fields@.len(),
            whole == eval_fields(
                bindings_view(fields@.skip(i as int)),
                env@,
                fuel as nat,
                strings_view(out@),
                pairs_view(values@),
            ),
            whole == eval_fields(
                bindings_view(fields@),
                env@,
                fuel as nat,
                strings_view(old(out)@),
                Seq::empty(),
            ),
        decreases fields@.len() - i,
    {
        let ghost rest = fields@.skip(i as int);
        proof {
            assert(rest[0] == fields@[i as int]);
            assert(rest.drop_first() =~= fields@.skip(i + 1));
            let bv = bindings_view(rest);
            assert(bv == seq![SpecBinding { name: rest[0].name@, value: rest[0].value@ }]
                + bindings_view(rest.drop_first()));
            assert(bv.len() > 0);
            assert(bv[0] == SpecBinding { name: fields@[i as int].name@, value: fields@[
                i as int].value@ });
            assert(bv.drop_first() =~= bindings_view(fields@.skip(i + 1)));
        }
        let v = eval_expr(&fields[i].value, env, fuel, out)?;
        let name = fields[i].name.clone();
        let ghost before = values@;
        values.push((name, v));
        proof {
            assert(pairs_view(values@) == pairs_view(before).push((name@, v@))) by {
                lemma_pairs_view_len(before);
                assert(values@ == before.push((name, v)));
                lemma_pairs_view_push(before, (name, v));
            }
        }
        i = i + 1;
    }
    proof {
        assert(fields@.skip(i as int) =~= Seq::<Binding>::empty());
    }
    Ok(Value::Record(values))
}

/// Applies `func` to `arg`.
pub fn apply_value(func: Value, arg: Value, fuel: u64, out: &mut Vec<String>) -> (r: Result<
    Value,
    Stop,
>)
    ensures
        (outcome_view(r), strings_view(final(out)@)) == apply(
            func@,
            arg@,
            fuel as nat,
            strings_view(old(out)@),
        ),
    decreases fuel, 2nat,
{
    match func {
        Value::Closure { params, body, env } => {
            if params.len() == 0 {
                return Err(Stop::Abort);
            }
            let mut params = params;
            let ghost ps = params@;
            let name = params.remove(0);
            proof {
                assert(strings_view(params@) =~= strings_view(ps).drop_first());
            }
            let env2 = env.define(name, arg);
            if params.len() == 0 {
                eval_expr(&body, &env2, fuel, out)
            } else {
                Ok(Value::Closure { params, body, env: env2 })
            }
        },
        Value::TypeConstructor(n) => Ok(Value::TypeInstance(n, Box::new(arg))),
        Value::Builtin(Builtin::Echo) => {
            let line = arg.display();
            proof {
                lemma_output_push(out@, line);
            }
            out.push(line);
            Ok(Value::Unit)
        },
        other => {
            let text = other.display();
            Err(error2("not a function: ", &text))
        },
    }
}

fn find_field(fields: &Vec<(String, Value)>, name: &String) -> (r: Option<usize>)
    ensures
        match r {
            Some(i) => i < fields@.len() && field_of(pairs_view(fields@), name@) == Some(
                fields@[i as int].1@,
            ),
            None => field_of(pairs_view(fields@), name@) is None,
        },
{
    let mut i: usize = 0;
    proof {
        lemma_pairs_view_len(fields@);
        lemma_pairs_view_skip(fields@, 0);
        assert(fields@.skip(0) =~= fields@);
    }
    while i < fields.len()
        invariant
            i <= fields@.len(),
            field_of(pairs_view(fields@), name@) == field_of(pairs_view(fields@.skip(i as int)), name@),
        decreases fields@.len() - i,
    {
        proof {
            lemma_pairs_view_skip(fields@, i as int);
            lemma_pairs_view_skip(fields@, i + 1);
            lemma_pairs_view_index(fields@, i as int);
            lemma_pairs_view_len(fields@);
            assert(pairs_view(fields@).skip(i as int).drop_first() =~= pairs_view(fields@).skip(
                i + 1,
            ));
        }
        if fields[i].0 == *name {
            return Some(i);
        }
        i = i + 1;
    }
    proof {
        assert(fields@.skip(i as int) =~= Seq::<(String, Value)>::empty());
    }
    None
}

/// Reads `field` of `target`.
pub fn access_value(target: Value, field: &String, kind: AccessKind) -> (r: Result<Value, Stop>)
    ensures
        outcome_view(r) == access(target@, field@, kind),
    decreases target,
{
    match kind {
        AccessKind::Value => {
            match target {
                Value::Record(fields) => {
                    match find_field(&fields, field) {
                        Some(i) => {
                            let mut fields = fields;
                            let (_, v) = fields.remove(i);
                            return Ok(v);
                        },
                        None => {
                            return Err(error2("missing field: ", field));
                        },
                    }
                },
                Value::TypeInstance(_, inner) => {
                    return access_value(*inner, field, kind);
                },
                other => {
                    let text = other.display();
                    return Err(error4("cannot access ", field, " on value: ", &text));
                },
            }
        },
        AccessKind::Type => {
            let text = target.display();
            Err(error4("cannot access ", field, " on value: ", &text))
        },
    }
}

/// Arithmetic on two values.
pub fn infix_value(op: InfixOp, left: Value, right: Value) -> (r: Result<Value, Stop>)
    ensures
        outcome_view(r) == infix(op, left@, right@),
{
    match (&left, &right) {
        (Value::Number(a), Value::Number(b)) => {
            let v = match op {
                InfixOp::Add => a.checked_add(*b),
                InfixOp::Sub => a.checked_sub(*b),
                InfixOp::Mul => a.checked_mul(*b),
            };
            match v {
                Some(v) => Ok(Value::Number(v)),
                None => Err(Stop::Abort),
            }
        },
        _ => {
            let l = left.display();
            let r = right.display();
            let mut m = String::from_str("cannot apply arithmetic to ");
            m.append(l.as_str());
            m.append(" and ");
            m.append(r.as_str());
            Err(Stop::Error(RuntimeError(m)))
        },
    }
}

/// Evaluates the bindings in order, extending `env` with each.
fn bind_all(bs: &Vec<Binding>, env0: Env, fuel: u64, out: &mut Vec<String>) -> (r: Result<
    Env,
    Stop,
>)
    ensures
        eval_bindings(bindings_view(bs@), env0@, fuel as nat, strings_view(old(out)@)) == (match r {
            Ok(e) => Ok(e@),
            Err(s) => Err(stop_view(s)),
        }, strings_view(final(out)@)),
{
    let ghost whole = eval_bindings(bindings_view(bs@), env0@, fuel as nat, strings_view(out@));
    let mut env = env0;
    let mut i: usize = 0;
    proof {
        assert(bs@.skip(0) =~= bs@);
    }
    while i < bs.len()
        invariant
            i <= bs@.len(),
            whole == eval_bindings(
                bindings_view(bs@.skip(i as int)),
                env@,
                fuel as nat,
                strings_view(out@),
            ),
            whole == eval_bindings(bindings_view(bs@), env0@, fuel as nat, strings_view(old(out)@)),
        decreases bs@.len() - i,
    {
        let ghost rest = bs@.skip(i as int);
        proof {
            assert(rest[0] == bs@[i as int]);
            assert(rest.drop_first() =~= bs@.skip(i + 1));
            let bv = bindings_view(rest);
            assert(bv == seq![SpecBinding { name: rest[0].name@, value: rest[0].value@ }]
                + bindings_view(rest.drop_first()));
            assert(bv[0] == SpecBinding { name: bs@[i as int].name@, value: bs@[i as int].value@ });
            assert(bv.drop_first() =~= bindings_view(bs@.skip(i + 1)));
        }
        let v = eval_expr(&bs[i].value, &env, fuel, out)?;
        env = env.define(bs[i].name.clone(), v);
        i = i + 1;
    }
    proof {
        assert(bs@.skip(i as int) =~= Seq::<Binding>::empty());
    }
    Ok(env)
}

/// A block's bindings, then its body.
fn eval_let_exec(bs: &Vec<Binding>, body: &Expr, env: Env, fuel: u64, out: &mut Vec<String>) -> (r:
    Result<(Env, Value), Stop>)
    ensures
        eval_let(bindings_view(bs@), body@, env@, fuel as nat, strings_view(old(out)@)) == (match r {
            Ok((e, v)) => Ok((e@, v@)),
            Err(s) => Err(stop_view(s)),
        }, strings_view(final(out)@)),
{
    let env2 = bind_all(bs, env, fuel, out)?;
    let v = eval_expr(body, &env2, fuel, out)?;
    Ok((env2, v))
}

/// The value that `module` provides as `name`.
pub fn resolve_import_exec(module: &String, name: &String) -> (r: Result<Value, Stop>)
    ensures
        outcome_view(r) == resolve_import(module@, name@),
{
    if *module == String::from_str("std") && *name == String::from_str("echo") {
        Ok(Value::Builtin(Builtin::Echo))
    } else {
        let mut m = String::from_str("unknown import ");
        m.append(name.as_str());
        m.append(" from module ");
        m.append(module.as_str());
        Err(Stop::Error(RuntimeError(m)))
    }
}

fn import_all(imports: &Vec<Import>, env0: Env) -> (r: Result<Env, Stop>)
    ensures
        eval_use(imports@.map_values(|i: Import| (i.module@, strings_view(i.names@))), env0@)
            == match r {
            Ok(e) => Ok(e@),
            Err(s) => Err(stop_view(s)),
        },
{
    let ghost view = imports@.map_values(|i: Import| (i.module@, strings_view(i.names@)));
    let ghost whole = eval_use(view, env0@);
    let mut env = env0;
    let mut i: usize = 0;
    proof {
        assert(view.skip(0) =~= view);
    }
    while i < imports.len()
        invariant
            i <= imports@.len(),
            view == imports@.map_values(|i: Import| (i.module@, strings_view(i.names@))),
            whole == eval_use(view.skip(i as int), env@),
            whole == eval_use(view, env0@),
        decreases imports@.len() - i,
    {
        let module = &imports[i].module;
        let names = &imports[i].names;
        let ghost inner_whole = import_names(module@, strings_view(names@), env@);
        proof {
            assert(view.skip(i as int)[0] == (module@, strings_view(names@)));
            assert(view.skip(i as int).drop_first() =~= view.skip(i + 1));
            assert(strings_view(names@).skip(0) =~= strings_view(names@));
        }
        let mut j: usize = 0;
        while j < names.len()
            invariant
                j <= names@.len(),
                inner_whole == import_names(module@, strings_view(names@).skip(j as int), env@),
                whole == eval_use(view, env0@),
                view == imports@.map_values(|i: Import| (i.module@, strings_view(i.names@))),
                whole == match inner_whole {
                    Ok(e2) => eval_use(view.skip(i + 1), e2),
                    Err(x) => Err(x),
                },
            decreases names@.len() - j,
        {
            proof {
                assert(strings_view(names@).skip(j as int)[0] == names@[j as int]@);
                assert(strings_view(names@).skip(j as int).drop_first() =~= strings_view(names@).skip(
                    j + 1,
                ));
            }
            let v = match resolve_import_exec(module, &names[j]) {
                Ok(v) => v,
                Err(s) => {
                    proof {
                        let rest = strings_view(names@).skip(j as int);
                        assert(rest.len() > 0);
                        assert(import_names(module@, rest, env@) == Err::<SpecEnv, Fault>(
                            stop_view(s),
                        ));
                        assert(inner_whole == Err::<SpecEnv, Fault>(stop_view(s)));
                    }
                    return Err(s);
                },
            };
            env = env.define(names[j].clone(), v);
            j = j + 1;
        }
        proof {
            assert(strings_view(names@).skip(j as int) =~= Seq::<Seq<char>>::empty());
        }
        i = i + 1;
    }
    proof {
        assert(view.skip(i as int) =~= Seq::<(Seq<char>, Seq<Seq<char>>)>::empty());
    }
    Ok(env)
}

/// Binds each type name to its constructor.
fn define_types(bs: &Vec<Binding>, env: Env) -> (r: Env)
    ensures
        r@ == eval_type(bindings_view(bs@), env@),
{
    let ghost whole = eval_type(bindings_view(bs@), env@);
    let mut env = env;
    let mut i: usize = 0;
    proof {
        assert(bs@.skip(0) =~= bs@);
    }
    while i < bs.len()
        invariant
            i <= bs@.len(),
            whole == eval_type(bindings_view(bs@.skip(i as int)), env@),
        decreases bs@.len() - i,
    {
        proof {
            let rest = bs@.skip(i as int);
            assert(rest[0] == bs@[i as int]);
            assert(rest.drop_first() =~= bs@.skip(i + 1));
            let bv = bindings_view(rest);
            assert(bv == seq![SpecBinding { name: rest[0].name@, value: rest[0].value@ }]
                + bindings_view(rest.drop_first()));
            assert(bv[0].name == bs@[i as int].name@);
            assert(bv.drop_first() =~= bindings_view(bs@.skip(i + 1)));
        }
        let name = bs[i].name.clone();
        let ctor = Value::TypeConstructor(bs[i].name.clone());
        env = env.define(name, ctor);
        i = i + 1;
    }
    proof {
        assert(bs@.skip(i as int) =~= Seq::<Binding>::empty());
    }
    env
}

/// Runs a program: its blocks in order, in one environment. The value is
/// that of the last block with a body, `()` if there is none. `out` receives
/// the lines that `echo` writes. Arithmetic that leaves the range of `i64`,
/// a closure without parameters applied, or more than `2^64` steps stop the
/// run with the error "evaluation aborted".
pub fn run(ast: &Ast, out: &mut Vec<String>) -> (r: Result<Value, RuntimeError>)
    ensures
        spec_run(ast@, strings_view(old(out)@)).1 == strings_view(final(out)@),
        match spec_run(ast@, strings_view(old(out)@)).0 {
            Ok(v) => r matches Ok(x) && x@ == v,
            Err(Fault::Error(m)) => r matches Err(e) && e.0@ == m,
            Err(_) => r matches Err(e) && e.0@ == "evaluation aborted"@,
        },
{
    let ghost whole = spec_run(ast@, strings_view(out@));
    let mut env = Env::new();
    let mut result = Value::Unit;
    let mut i: usize = 0;
    let blocks = &ast.0;
    proof {
        assert(ast@.skip(0) =~= ast@);
    }
    while i < blocks.len()
        invariant
            i <= blocks@.len(),
            ast@ == blocks@.map_values(|b: Block| b@),
            whole == run_blocks(ast@.skip(i as int), env@, result@, run_fuel(), strings_view(out@)),
            whole == spec_run(ast@, strings_view(old(out)@)),
        decreases blocks@.len() - i,
    {
        proof {
            assert(ast@.skip(i as int)[0] == blocks@[i as int]@);
            assert(ast@.skip(i as int).drop_first() =~= ast@.skip(i + 1));
        }
        let step = match &blocks[i] {
            Block::Use(b) => match import_all(&b.imports, env) {
                Ok(e) => Ok((e, result)),
                Err(s) => Err(s),
            },
            Block::Type(b) => Ok((define_types(&b.bindings, env), result)),
            Block::Let(b) => eval_let_exec(&b.bindings, &b.body, env, u64::MAX, out),
            Block::ExprWhere(b) => eval_let_exec(&b.bindings, &b.body, env, u64::MAX, out),
        };
        match step {
            Ok((e, v)) => {
                env = e;
                result = v;
            },
            Err(Stop::Error(e)) => {
                return Err(e);
            },
            Err(_) => {
                let m = String::from_str("evaluation aborted");
                proof {
                    reveal_strlit("evaluation aborted");
                }
                return Err(RuntimeError(m));
            },
        }
        i = i + 1;
    }
    proof {
        assert(ast@.skip(i as int) =~= Seq::<SpecBlock>::empty());
    }
    Ok(result)
}

} // verus!
