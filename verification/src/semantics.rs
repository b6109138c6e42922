//! What a Bilda program means: evaluation of expressions and blocks.
//!
//! Evaluation carries a step budget (`fuel`), so that every definition here
//! is total; each expression evaluated costs one step. Alongside the outcome
//! it threads the lines that `echo` has written so far.
use vstd::prelude::*;

use crate::ast::{AccessKind, InfixOp, SpecBinding, SpecBlock, SpecExpr};
use crate::text::spec_parse_i64;
use crate::value::{display, field_of, lookup, Builtin, SpecEnv, SpecValue};

verus! {

/// Why evaluation gave no value.
pub enum Fault {
    /// An error that the program reports, with its message.
    Error(Seq<char>),
    /// A state that the language gives no meaning: arithmetic that leaves
    /// the range of `i64`, or a closure without parameters applied.
    Abort,
    /// The step budget ran out.
    Exhausted,
}

pub type Outcome = Result<SpecValue, Fault>;

/// Lines written so far.
pub type Output = Seq<Seq<char>>;

pub open spec fn eval(e: SpecExpr, env: SpecEnv, fuel: nat, out: Output) -> (Outcome, Output)
    decreases fuel, 0nat, 0nat,
{
    if fuel == 0 {
        (Err(Fault::Exhausted), out)
    } else {
        let f = (fuel - 1) as nat;
        match e {
            SpecExpr::Ident(n) => match lookup(env, n) {
                Some(v) => (Ok(v), out),
                None => (Err(Fault::Error("undefined identifier: "@ + n)), out),
            },
            SpecExpr::Number(t) => match spec_parse_i64(t) {
                Some(v) => (Ok(SpecValue::Number(v)), out),
                None => (Err(Fault::Error("invalid number: "@ + t)), out),
            },
            SpecExpr::Apply(fe, ae) => {
                let (fr, o1) = eval(*fe, env, f, out);
                match fr {
                    Err(x) => (Err(x), o1),
                    Ok(fv) => {
                        let (ar, o2) = eval(*ae, env, f, o1);
                        match ar {
                            Err(x) => (Err(x), o2),
                            Ok(av) => apply(fv, av, f, o2),
                        }
                    },
                }
            },
            SpecExpr::Lambda(ps, b) => (Ok(SpecValue::Closure(ps, *b, env)), out),
            SpecExpr::Access(t, field, kind) => {
                let (tr, o1) = eval(*t, env, f, out);
                match tr {
                    Err(x) => (Err(x), o1),
                    Ok(tv) => (access(tv, field, kind), o1),
                }
            },
            SpecExpr::Prefix(_, x) => eval(*x, env, f, out),
            SpecExpr::Infix(op, l, r) => {
                let (lr, o1) = eval(*l, env, f, out);
                match lr {
                    Err(x) => (Err(x), o1),
                    Ok(lv) => {
                        let (rr, o2) = eval(*r, env, f, o1);
                        match rr {
                            Err(x) => (Err(x), o2),
                            Ok(rv) => (infix(op, lv, rv), o2),
                        }
                    },
                }
            },
            SpecExpr::Record(fields) => eval_fields(fields, env, f, out, Seq::empty()),
        }
    }
}

/// Evaluates the field values in order, adding each to `acc`.
pub open spec fn eval_fields(
    fields: Seq<SpecBinding>,
    env: SpecEnv,
    fuel: nat,
    out: Output,
    acc: Seq<(Seq<char>, SpecValue)>,
) -> (Outcome, Output)
    decreases fuel, 1nat, fields.len(),
{
    if fields.len() == 0 {
        (Ok(SpecValue::Record(acc)), out)
    } else {
        let (r, o1) = eval(fields[0].value, env, fuel, out);
        match r {
            Err(x) => (Err(x), o1),
            Ok(v) => eval_fields(fields.drop_first(), env, fuel, o1, acc.push((fields[0].name, v))),
        }
    }
}

/// Applies `func` to `arg`. A closure takes its parameters one at a time: it
/// evaluates its body once the last one is bound.
pub open spec fn apply(func: SpecValue, arg: SpecValue, fuel: nat, out: Output) -> (
    Outcome,
    Output,
)
    decreases fuel, 2nat, 0nat,
{
    match func {
        SpecValue::Closure(ps, body, cenv) => if ps.len() == 0 {
            (Err(Fault::Abort), out)
        } else {
            let env2 = cenv.push((ps[0], arg));
            if ps.len() == 1 {
                eval(body, env2, fuel, out)
            } else {
                (Ok(SpecValue::Closure(ps.drop_first(), body, env2)), out)
            }
        },
        SpecValue::TypeConstructor(n) => (Ok(SpecValue::TypeInstance(n, Box::new(arg))), out),
        SpecValue::Builtin(Builtin::Echo) => (Ok(SpecValue::Unit), out.push(display(arg))),
        _ => (Err(Fault::Error("not a function: "@ + display(func))), out),
    }
}

/// Reads `field` of `target`; a type instance is read through.
pub open spec fn access(target: SpecValue, field: Seq<char>, kind: AccessKind) -> Outcome
    decreases target,
{
    let cannot = Err(Fault::Error("cannot access "@ + field + " on value: "@ + display(target)));
    match kind {
        AccessKind::Value => match target {
            SpecValue::Record(fs) => match field_of(fs, field) {
                Some(v) => Ok(v),
                None => Err(Fault::Error("missing field: "@ + field)),
            },
            SpecValue::TypeInstance(_, inner) => access(*inner, field, kind),
            _ => cannot,
        },
        AccessKind::Type => cannot,
    }
}

/// The exact result of an arithmetic operation on two numbers.
pub open spec fn arithmetic(op: InfixOp, a: int, b: int) -> int {
    match op {
        InfixOp::Add => a + b,
        InfixOp::Sub => a - b,
        InfixOp::Mul => a * b,
    }
}

pub open spec fn infix(op: InfixOp, left: SpecValue, right: SpecValue) -> Outcome {
    match (left, right) {
        (SpecValue::Number(a), SpecValue::Number(b)) => {
            let v = arithmetic(op, a as int, b as int);
            if i64::MIN <= v <= i64::MAX {
                Ok(SpecValue::Number(v as i64))
            } else {
                Err(Fault::Abort)
            }
        },
        _ => Err(
            Fault::Error("cannot apply arithmetic to "@ + display(left) + " and "@ + display(right)),
        ),
    }
}

/// Evaluates the bindings in order, each in the environment that the ones
/// before it extend.
pub open spec fn eval_bindings(bs: Seq<SpecBinding>, env: SpecEnv, fuel: nat, out: Output) -> (
    Result<SpecEnv, Fault>,
    Output,
)
    decreases bs.len(),
{
    if bs.len() == 0 {
        (Ok(env), out)
    } else {
        let (r, o1) = eval(bs[0].value, env, fuel, out);
        match r {
            Err(x) => (Err(x), o1),
            Ok(v) => eval_bindings(bs.drop_first(), env.push((bs[0].name, v)), fuel, o1),
        }
    }
}

/// A block's bindings, then its body: the extended environment and the
/// body's value.
pub open spec fn eval_let(
    bs: Seq<SpecBinding>,
    body: SpecExpr,
    env: SpecEnv,
    fuel: nat,
    out: Output,
) -> (Result<(SpecEnv, SpecValue), Fault>, Output) {
    let (r, o1) = eval_bindings(bs, env, fuel, out);
    match r {
        Err(x) => (Err(x), o1),
        Ok(env2) => {
            let (v, o2) = eval(body, env2, fuel, o1);
            match v {
                Err(x) => (Err(x), o2),
                Ok(v) => (Ok((env2, v)), o2),
            }
        },
    }
}

/// The value that `module` provides as `name`.
pub open spec fn resolve_import(module: Seq<char>, name: Seq<char>) -> Result<SpecValue, Fault> {
    if module == "std"@ && name == "echo"@ {
        Ok(SpecValue::Builtin(Builtin::Echo))
    } else {
        Err(Fault::Error("unknown import "@ + name + " from module "@ + module))
    }
}

/// Binds each of `names`, taken from `module`.
pub open spec fn import_names(module: Seq<char>, names: Seq<Seq<char>>, env: SpecEnv) -> Result<
    SpecEnv,
    Fault,
>
    decreases names.len(),
{
    if names.len() == 0 {
        Ok(env)
    } else {
        match resolve_import(module, names[0]) {
            Ok(v) => import_names(module, names.drop_first(), env.push((names[0], v))),
            Err(x) => Err(x),
        }
    }
}

pub open spec fn eval_use(imports: Seq<(Seq<char>, Seq<Seq<char>>)>, env: SpecEnv) -> Result<
    SpecEnv,
    Fault,
>
    decreases imports.len(),
{
    if imports.len() == 0 {
        Ok(env)
    } else {
        match import_names(imports[0].0, imports[0].1, env) {
            Ok(env2) => eval_use(imports.drop_first(), env2),
            Err(x) => Err(x),
        }
    }
}

/// Binds each type name to its constructor.
pub open spec fn eval_type(bs: Seq<SpecBinding>, env: SpecEnv) -> SpecEnv
    decreases bs.len(),
{
    if bs.len() == 0 {
        env
    } else {
        eval_type(bs.drop_first(), env.push((bs[0].name, SpecValue::TypeConstructor(bs[0].name))))
    }
}

/// Runs the blocks in order; the value is that of the last block with a body
/// (`()` if there is none).
pub open spec fn run_blocks(
    bs: Seq<SpecBlock>,
    env: SpecEnv,
    result: SpecValue,
    fuel: nat,
    out: Output,
) -> (Outcome, Output)
    decreases bs.len(),
{
    if bs.len() == 0 {
        (Ok(result), out)
    } else {
        match bs[0] {
            SpecBlock::Use(imports) => match eval_use(imports, env) {
                Ok(env2) => run_blocks(bs.drop_first(), env2, result, fuel, out),
                Err(x) => (Err(x), out),
            },
            SpecBlock::Type(types) => run_blocks(
                bs.drop_first(),
                eval_type(types, env),
                result,
                fuel,
                out,
            ),
            SpecBlock::Let(bindings, body) => {
                let (r, o1) = eval_let(bindings, body, env, fuel, out);
                match r {
                    Ok((env2, v)) => run_blocks(bs.drop_first(), env2, v, fuel, o1),
                    Err(x) => (Err(x), o1),
                }
            },
            SpecBlock::ExprWhere(body, bindings) => {
                let (r, o1) = eval_let(bindings, body, env, fuel, out);
                match r {
                    Ok((env2, v)) => run_blocks(bs.drop_first(), env2, v, fuel, o1),
                    Err(x) => (Err(x), o1),
                }
            },
        }
    }
}

/// The step budget of a run.
pub open spec fn run_fuel() -> nat {
    u64::MAX as nat
}

/// The outcome of a program and the lines that it writes after `out`.
pub open spec fn spec_run(program: Seq<SpecBlock>, out: Output) -> (Outcome, Output) {
    run_blocks(program, Seq::empty(), SpecValue::Unit, run_fuel(), out)
}

// ---------------------------------------------------------------------------
// Laws of evaluation.
// ---------------------------------------------------------------------------

/// Type operators and annotations (`~`, `+`, `*`, `-` in front of an
/// expression) do not change what the expression evaluates to.
pub proof fn law_prefix_is_transparent(
    op: crate::ast::PrefixOp,
    e: SpecExpr,
    env: SpecEnv,
    fuel: nat,
    out: Output,
)
    ensures
        eval(SpecExpr::Prefix(op, Box::new(e)), env, fuel + 1, out) == eval(e, env, fuel, out),
{
}

/// A closure takes its parameters one at a time: applying a two-parameter
/// closure to `a` gives a closure of the second parameter that has `a`
/// bound, and applying that to `b` evaluates the body with both bound.
pub proof fn law_curried_application(
    x: Seq<char>,
    y: Seq<char>,
    body: SpecExpr,
    env: SpecEnv,
    a: SpecValue,
    b: SpecValue,
    fuel: nat,
    out: Output,
)
    ensures
        apply(SpecValue::Closure(seq![x, y], body, env), a, fuel, out) == (
            Ok::<SpecValue, Fault>(SpecValue::Closure(seq![y], body, env.push((x, a)))),
            out,
        ),
        apply(SpecValue::Closure(seq![y], body, env.push((x, a))), b, fuel, out) == eval(
            body,
            env.push((x, a)).push((y, b)),
            fuel,
            out,
        ),
{
    assert(seq![x, y].drop_first() =~= seq![y]);
}

/// A name refers to its most recent binding: binding `name` again hides the
/// earlier value, and binding another name leaves it visible.
pub proof fn law_latest_binding_wins(env: SpecEnv, name: Seq<char>, other: Seq<char>, v: SpecValue)
    ensures
        lookup(env.push((name, v)), name) == Some(v),
        other != name ==> lookup(env.push((other, v)), name) == lookup(env, name),
{
    assert(env.push((name, v)).drop_last() =~= env);
    assert(env.push((other, v)).drop_last() =~= env);
}

/// Reading a field of a value made by a type constructor reads the field of
/// the value that the constructor was applied to.
pub proof fn law_type_instance_is_transparent(
    ctor: Seq<char>,
    v: SpecValue,
    field: Seq<char>,
)
    ensures
        access(SpecValue::TypeInstance(ctor, Box::new(v)), field, AccessKind::Value) == access(
            v,
            field,
            AccessKind::Value,
        ),
        display(SpecValue::TypeInstance(ctor, Box::new(v))) == display(v),
{
}

/// `echo` writes its argument as one more line and gives `()`.
pub proof fn law_echo_writes_one_line(v: SpecValue, fuel: nat, out: Output)
    ensures
        apply(SpecValue::Builtin(Builtin::Echo), v, fuel, out) == (
            Ok::<SpecValue, Fault>(SpecValue::Unit),
            out.push(display(v)),
        ),
{
}

/// Arithmetic on numbers is exact within the range of `i64`.
pub proof fn law_arithmetic_is_exact(op: InfixOp, a: i64, b: i64)
    requires
        i64::MIN <= arithmetic(op, a as int, b as int) <= i64::MAX,
    ensures
        infix(op, SpecValue::Number(a), SpecValue::Number(b)) == Ok::<SpecValue, Fault>(
            SpecValue::Number(arithmetic(op, a as int, b as int) as i64),
        ),
{
}

/// Evaluation that finishes within a step budget gives the same outcome and
/// the same lines with any larger budget: the budget only bounds, it never
/// changes a result.
pub proof fn law_fuel_is_only_a_bound(e: SpecExpr, env: SpecEnv, fuel: nat, more: nat, out: Output)
    requires
        !(eval(e, env, fuel, out).0 is Err && eval(e, env, fuel, out).0->Err_0 is Exhausted),
    ensures
        eval(e, env, fuel + more, out) == eval(e, env, fuel, out),
    decreases fuel, 0nat, 0nat,
{
    lemma_eval_fuel(e, env, fuel, more, out);
}

pub open spec fn exhausted(r: Outcome) -> bool {
    r is Err && r->Err_0 is Exhausted
}

proof fn lemma_eval_fuel(e: SpecExpr, env: SpecEnv, fuel: nat, more: nat, out: Output)
    requires
        !exhausted(eval(e, env, fuel, out).0),
    ensures
        eval(e, env, fuel + more, out) == eval(e, env, fuel, out),
    decreases fuel, 0nat, 0nat,
{
    if fuel > 0 {
        let f = (fuel - 1) as nat;
        assert((fuel + more - 1) as nat == f + more);
        match e {
            SpecExpr::Apply(fe, ae) => {
                let (fr, o1) = eval(*fe, env, f, out);
                lemma_eval_fuel(*fe, env, f, more, out);
                if let Ok(fv) = fr {
                    let (ar, o2) = eval(*ae, env, f, o1);
                    lemma_eval_fuel(*ae, env, f, more, o1);
                    if let Ok(av) = ar {
                        lemma_apply_fuel(fv, av, f, more, o2);
                    }
                }
            },
            SpecExpr::Access(t, field, kind) => {
                lemma_eval_fuel(*t, env, f, more, out);
            },
            SpecExpr::Prefix(_, x) => {
                lemma_eval_fuel(*x, env, f, more, out);
            },
            SpecExpr::Infix(op, l, r) => {
                let (lr, o1) = eval(*l, env, f, out);
                lemma_eval_fuel(*l, env, f, more, out);
                if let Ok(lv) = lr {
                    lemma_eval_fuel(*r, env, f, more, o1);
                }
            },
            SpecExpr::Record(fields) => {
                lemma_fields_fuel(fields, env, f, more, out, Seq::empty());
            },
            _ => {},
        }
    }
}

proof fn lemma_fields_fuel(
    fields: Seq<SpecBinding>,
    env: SpecEnv,
    fuel: nat,
    more: nat,
    out: Output,
    acc: Seq<(Seq<char>, SpecValue)>,
)
    requires
        !exhausted(eval_fields(fields, env, fuel, out, acc).0),
    ensures
        eval_fields(fields, env, fuel + more, out, acc) == eval_fields(fields, env, fuel, out, acc),
    decreases fuel, 1nat, fields.len(),
{
    if fields.len() > 0 {
        let (r, o1) = eval(fields[0].value, env, fuel, out);
        lemma_eval_fuel(fields[0].value, env, fuel, more, out);
        if let Ok(v) = r {
            lemma_fields_fuel(fields.drop_first(), env, fuel, more, o1, acc.push((fields[0].name, v)));
        }
    }
}

proof fn lemma_apply_fuel(func: SpecValue, arg: SpecValue, fuel: nat, more: nat, out: Output)
    requires
        !exhausted(apply(func, arg, fuel, out).0),
    ensures
        apply(func, arg, fuel + more, out) == apply(func, arg, fuel, out),
    decreases fuel, 2nat, 0nat,
{
    if let SpecValue::Closure(ps, body, cenv) = func {
        if ps.len() == 1 {
            lemma_eval_fuel(body, cenv.push((ps[0], arg)), fuel, more, out);
        }
    }
}

} // verus!
