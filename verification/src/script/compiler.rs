//! What the compiler of scripts decides before it emits machine code: for
//! each expression, the runtime helpers that compute it, in order.
//!
//! A plan runs on a stack of values. Names live in scopes of slots: a slot
//! is addressed by its scope and its place in that scope, and a name refers
//! to its latest slot in the innermost scope that holds it. Each lambda
//! becomes a function of its own, numbered in the order the lambdas appear
//! in the script; its parameter is the one slot of its second scope.
use vstd::prelude::*;

use crate::errors::{CompileError, InternalError, ReferenceError, UnsupportedError};
use crate::script::ast::{
    Assignment, Ast, Expression, SpecAssignment, SpecAst, SpecExpression,
};
use crate::script::math::{MathSign, MathTarget, SpecMathTarget};

verus! {

/// One step of a plan.
#[derive(Debug, PartialEq)]
pub enum HelperCall {
    /// Push a new integer.
    MakeInt(isize),
    /// Push a new boolean.
    MakeBool(bool),
    /// Push a new string.
    MakeString(String),
    /// Push the value of a slot (scope, place), counting one more reference.
    Incref(usize, usize),
    /// Push a new empty map.
    AllocMap,
    /// Pop a value, set it as the named field of the map on top, and drop
    /// the popped reference.
    MapSet(String),
    /// Pop the right and the left integer, push the result, drop both.
    Math(MathSign),
    /// Pop a boolean and push its negation.
    Negate,
    /// Pop the function, pop the argument, push the application, drop the
    /// function.
    Apply,
    /// Pop the argument and push the application of the function in a slot.
    ApplySlot(usize, usize),
    /// Give the map on top the constructor name.
    Rename(String),
    /// Push a closure of lambda function number `n`, with no environment.
    MakeClosure(usize),
    /// Open a scope.
    BeginScope,
    /// Pop a value into a new slot of the innermost scope.
    Bind,
    /// Drop every slot of the innermost scope except one that holds the
    /// value on top, and close the scope.
    EndScope,
}

pub enum SpecHelperCall {
    MakeInt(isize),
    MakeBool(bool),
    MakeString(Seq<char>),
    Incref(nat, nat),
    AllocMap,
    MapSet(Seq<char>),
    Math(MathSign),
    Negate,
    Apply,
    ApplySlot(nat, nat),
    Rename(Seq<char>),
    MakeClosure(nat),
    BeginScope,
    Bind,
    EndScope,
}

impl View for HelperCall {
    type V = SpecHelperCall;

    open spec fn view(&self) -> SpecHelperCall {
        match self {
            HelperCall::MakeInt(n) => SpecHelperCall::MakeInt(*n),
            HelperCall::MakeBool(b) => SpecHelperCall::MakeBool(*b),
            HelperCall::MakeString(s) => SpecHelperCall::MakeString(s@),
            HelperCall::Incref(s, i) => SpecHelperCall::Incref(*s as nat, *i as nat),
            HelperCall::AllocMap => SpecHelperCall::AllocMap,
            HelperCall::MapSet(s) => SpecHelperCall::MapSet(s@),
            HelperCall::Math(m) => SpecHelperCall::Math(*m),
            HelperCall::Negate => SpecHelperCall::Negate,
            HelperCall::Apply => SpecHelperCall::Apply,
            HelperCall::ApplySlot(s, i) => SpecHelperCall::ApplySlot(*s as nat, *i as nat),
            HelperCall::Rename(s) => SpecHelperCall::Rename(s@),
            HelperCall::MakeClosure(n) => SpecHelperCall::MakeClosure(*n as nat),
            HelperCall::BeginScope => SpecHelperCall::BeginScope,
            HelperCall::Bind => SpecHelperCall::Bind,
            HelperCall::EndScope => SpecHelperCall::EndScope,
        }
    }
}

/// The errors that a plan can end in.
pub enum SpecCompileError {
    UnknownReference(Seq<char>),
    LambdaArity(nat),
    Other,
}

pub open spec fn error_view(e: CompileError) -> SpecCompileError {
    match e {
        CompileError::Reference(ReferenceError::Unknown { name }) => SpecCompileError::UnknownReference(
            name@,
        ),
        CompileError::Unsupported(UnsupportedError::LambdaArity { found }) => SpecCompileError::LambdaArity(
            found as nat,
        ),
        _ => SpecCompileError::Other,
    }
}

pub type SpecPlan = Result<Seq<SpecHelperCall>, SpecCompileError>;

pub open spec fn calls_view(v: Seq<HelperCall>) -> Seq<SpecHelperCall> {
    v.map_values(|c: HelperCall| c@)
}

pub open spec fn plan_view(r: Result<Vec<HelperCall>, CompileError>) -> SpecPlan {
    match r {
        Ok(v) => Ok(calls_view(v@)),
        Err(e) => Err(error_view(e)),
    }
}

pub open spec fn plans_view(v: Seq<Result<Vec<HelperCall>, CompileError>>) -> Seq<SpecPlan> {
    v.map_values(|r: Result<Vec<HelperCall>, CompileError>| plan_view(r))
}

// ---------------------------------------------------------------------------
// Scopes.
// ---------------------------------------------------------------------------

/// Names in scopes, outermost first; each name with whether it holds a
/// function.
pub type Scopes = Seq<Seq<(Seq<char>, bool)>>;

/// The latest place of `name` in `scope`, with its flag.
pub open spec fn scope_find(scope: Seq<(Seq<char>, bool)>, name: Seq<char>) -> Option<(nat, bool)>
    decreases scope.len(),
{
    if scope.len() == 0 {
        None
    } else if scope.last().0 == name {
        Some(((scope.len() - 1) as nat, scope.last().1))
    } else {
        scope_find(scope.drop_last(), name)
    }
}

/// The slot (scope, place) that `name` refers to, with its flag.
pub open spec fn scopes_get(env: Scopes, name: Seq<char>) -> Option<(nat, nat, bool)>
    decreases env.len(),
{
    if env.len() == 0 {
        None
    } else {
        match scope_find(env.last(), name) {
            Some((i, f)) => Some(((env.len() - 1) as nat, i, f)),
            None => scopes_get(env.drop_last(), name),
        }
    }
}

/// `env` with `name` added to its innermost scope.
pub open spec fn scopes_insert(env: Scopes, name: Seq<char>, is_function: bool) -> Scopes {
    env.update(env.len() - 1, env.last().push((name, is_function)))
}

/// A name just inserted is found in the newest place of the innermost
/// scope; every other name is found where it was before; and closing a
/// scope that was just opened gives back the scopes that were there.
pub proof fn law_scopes_insert_then_get(env: Scopes, n: Seq<char>, m: Seq<char>, f: bool)
    requires
        env.len() >= 1,
    ensures
        scopes_get(scopes_insert(env, n, f), n) == Some(
            ((env.len() - 1) as nat, env.last().len(), f),
        ),
        m != n ==> scopes_get(scopes_insert(env, n, f), m) == scopes_get(env, m),
        env.push(Seq::empty()).drop_last() == env,
{
    let e2 = scopes_insert(env, n, f);
    assert(e2.last() == env.last().push((n, f)));
    assert(e2.drop_last() =~= env.drop_last());
    assert(env.last().push((n, f)).drop_last() =~= env.last());
    assert(env.push(Seq::empty()).drop_last() =~= env);
}

/// One operation on scopes: what `push_scope`, `pop_scope` and `insert` do.
pub enum ScopeStep {
    Open,
    Close,
    Bind(Seq<char>, bool),
}

/// `env` after one step; closing or binding with no scope open changes
/// nothing.
pub open spec fn scopes_step(env: Scopes, step: ScopeStep) -> Scopes {
    match step {
        ScopeStep::Open => env.push(Seq::empty()),
        ScopeStep::Close => if env.len() > 0 {
            env.drop_last()
        } else {
            env
        },
        ScopeStep::Bind(n, f) => if env.len() > 0 {
            scopes_insert(env, n, f)
        } else {
            env
        },
    }
}

/// `env` after the steps, in order.
pub open spec fn scopes_run(env: Scopes, steps: Seq<ScopeStep>) -> Scopes
    decreases steps.len(),
{
    if steps.len() == 0 {
        env
    } else {
        scopes_run(scopes_step(env, steps[0]), steps.drop_first())
    }
}

/// With `open` scopes opened beforehand, the steps never close more scopes
/// than are open and end with all of them closed.
pub open spec fn scopes_balanced(steps: Seq<ScopeStep>, open: int) -> bool
    decreases steps.len(),
{
    if steps.len() == 0 {
        open == 0
    } else {
        match steps[0] {
            ScopeStep::Open => scopes_balanced(steps.drop_first(), open + 1),
            ScopeStep::Close => open > 0 && scopes_balanced(steps.drop_first(), open - 1),
            ScopeStep::Bind(_, _) => scopes_balanced(steps.drop_first(), open),
        }
    }
}

proof fn lemma_scopes_run_concat(env: Scopes, a: Seq<ScopeStep>, b: Seq<ScopeStep>)
    ensures
        scopes_run(env, a + b) == scopes_run(scopes_run(env, a), b),
    decreases a.len(),
{
    if a.len() == 0 {
        assert(a + b =~= b);
    } else {
        assert((a + b).drop_first() =~= a.drop_first() + b);
        assert((a + b)[0] == a[0]);
        lemma_scopes_run_concat(scopes_step(env, a[0]), a.drop_first(), b);
    }
}

/// Balanced steps with `open` scopes opened on top of `env`'s leave as
/// many scopes as there were below those, and do not touch the ones below
/// the innermost of those.
proof fn lemma_scopes_balanced_run(env: Scopes, steps: Seq<ScopeStep>, open: int)
    requires
        scopes_balanced(steps, open),
        open >= 0,
        env.len() >= open + 1,
    ensures
        scopes_run(env, steps).len() == env.len() - open,
        scopes_run(env, steps).take(env.len() - open - 1) == env.take(env.len() - open - 1),
    decreases steps.len(),
{
    if steps.len() == 0 {
    } else {
        let k = env.len() - open - 1;
        let next = scopes_step(env, steps[0]);
        match steps[0] {
            ScopeStep::Open => {
                lemma_scopes_balanced_run(next, steps.drop_first(), open + 1);
                assert(next.take(k) =~= env.take(k));
            },
            ScopeStep::Close => {
                lemma_scopes_balanced_run(next, steps.drop_first(), open - 1);
                assert(next.take(k) =~= env.take(k));
            },
            ScopeStep::Bind(n, f) => {
                lemma_scopes_balanced_run(next, steps.drop_first(), open);
                assert(next.take(k) =~= env.take(k));
            },
        }
    }
}

/// Closing a scope undoes everything done since it was opened: after
/// opening a scope, any steps that close every scope they open, and
/// closing it again, the scopes are those from before, so every name
/// refers to the slot that it referred to before.
pub proof fn law_scope_close_restores(env: Scopes, steps: Seq<ScopeStep>, name: Seq<char>)
    requires
        scopes_balanced(steps, 0),
    ensures
        scopes_run(env, seq![ScopeStep::Open] + steps + seq![ScopeStep::Close]) == env,
        scopes_get(
            scopes_run(env, seq![ScopeStep::Open] + steps + seq![ScopeStep::Close]),
            name,
        ) == scopes_get(env, name),
{
    let opened = env.push(Seq::<(Seq<char>, bool)>::empty());
    lemma_scopes_run_concat(env, seq![ScopeStep::Open] + steps, seq![ScopeStep::Close]);
    lemma_scopes_run_concat(env, seq![ScopeStep::Open], steps);
    assert(scopes_run(env, seq![ScopeStep::Open]) == opened) by {
        let one = seq![ScopeStep::Open];
        assert(one.drop_first() =~= Seq::<ScopeStep>::empty());
        assert(scopes_step(env, one[0]) == opened);
        assert(scopes_run(opened, one.drop_first()) == opened);
    }
    lemma_scopes_balanced_run(opened, steps, 0);
    let r = scopes_run(opened, steps);
    assert(opened.take(env.len() as int) =~= env);
    assert(scopes_run(r, seq![ScopeStep::Close]) == r.drop_last()) by {
        let one = seq![ScopeStep::Close];
        assert(one.drop_first() =~= Seq::<ScopeStep>::empty());
        assert(scopes_step(r, one[0]) == r.drop_last());
        assert(scopes_run(r.drop_last(), one.drop_first()) == r.drop_last());
    }
    assert(r.drop_last() =~= r.take(env.len() as int));
}

/// The place among `steps` of the last binding of `name`, with its flag.
pub open spec fn last_bind(steps: Seq<ScopeStep>, name: Seq<char>) -> Option<(nat, bool)>
    decreases steps.len(),
{
    if steps.len() == 0 {
        None
    } else {
        match steps.last() {
            ScopeStep::Bind(n, f) => if n == name {
                Some(((steps.len() - 1) as nat, f))
            } else {
                last_bind(steps.drop_last(), name)
            },
            _ => last_bind(steps.drop_last(), name),
        }
    }
}

proof fn lemma_binds_run(env: Scopes, steps: Seq<ScopeStep>)
    requires
        env.len() >= 1,
        forall|i: int| 0 <= i < steps.len() ==> #[trigger] steps[i] is Bind,
    ensures
        scopes_run(env, steps).len() == env.len(),
        scopes_run(env, steps).last().len() == env.last().len() + steps.len(),
        scopes_run(env, steps).drop_last() == env.drop_last(),
        steps.len() > 0 ==> scopes_run(env, steps) == scopes_insert(
            scopes_run(env, steps.drop_last()),
            steps.last()->Bind_0,
            steps.last()->Bind_1,
        ),
    decreases steps.len(),
{
    if steps.len() > 0 {
        let front = steps.drop_last();
        assert(front + seq![steps.last()] =~= steps);
        lemma_scopes_run_concat(env, front, seq![steps.last()]);
        lemma_binds_run(env, front);
        let e = scopes_run(env, front);
        let one = seq![steps.last()];
        assert(one.drop_first() =~= Seq::<ScopeStep>::empty());
        assert(one[0] == steps.last());
        assert(scopes_run(scopes_step(e, one[0]), one.drop_first()) == scopes_step(e, one[0]));
        let e2 = scopes_insert(e, steps.last()->Bind_0, steps.last()->Bind_1);
        assert(e2.drop_last() =~= e.drop_last());
    }
}

/// After names are bound one after another in the innermost scope, a name
/// refers to the place of its last binding there, with that binding's
/// flag; a name not bound there refers to what it referred to before.
pub proof fn law_scope_binds_then_get(env: Scopes, steps: Seq<ScopeStep>, name: Seq<char>)
    requires
        env.len() >= 1,
        forall|i: int| 0 <= i < steps.len() ==> #[trigger] steps[i] is Bind,
    ensures
        scopes_get(scopes_run(env, steps), name) == match last_bind(steps, name) {
            Some((j, f)) => Some(((env.len() - 1) as nat, (env.last().len() + j) as nat, f)),
            None => scopes_get(env, name),
        },
    decreases steps.len(),
{
    if steps.len() == 0 {
    } else {
        let front = steps.drop_last();
        lemma_binds_run(env, steps);
        lemma_binds_run(env, front);
        law_scope_binds_then_get(env, front, name);
        let e = scopes_run(env, front);
        law_scopes_insert_then_get(e, steps.last()->Bind_0, name, steps.last()->Bind_1);
    }
}

/// Names in scopes, with for each slot whether it holds a function.
pub struct ScopeEnv {
    pub scopes: Vec<Vec<(String, bool)>>,
}

impl View for ScopeEnv {
    type V = Scopes;

    open spec fn view(&self) -> Scopes {
        self.scopes@.map_values(|s: Vec<(String, bool)>| s@.map_values(|p: (String, bool)| (p.0@, p.1)))
    }
}

// ---------------------------------------------------------------------------
// Plans.
// ---------------------------------------------------------------------------

pub open spec fn is_type_name(n: Seq<char>) -> bool {
    n == seq!['S', 't', 'r', 'i', 'n', 'g'] || n == seq!['I', 'n', 't']
}

/// A name: the type names are strings, any other name is read from its slot.
pub open spec fn reference_plan(n: Seq<char>, env: Scopes) -> SpecPlan {
    if is_type_name(n) {
        Ok(seq![SpecHelperCall::MakeString(n)])
    } else {
        match scopes_get(env, n) {
            Some((s, i, _)) => Ok(seq![SpecHelperCall::Incref(s, i)]),
            None => Err(SpecCompileError::UnknownReference(n)),
        }
    }
}

pub open spec fn then(a: SpecPlan, b: SpecPlan) -> SpecPlan {
    match a {
        Err(x) => Err(x),
        Ok(p) => match b {
            Err(x) => Err(x),
            Ok(q) => Ok(p + q),
        },
    }
}

pub open spec fn then_call(a: SpecPlan, c: SpecHelperCall) -> SpecPlan {
    then(a, Ok(seq![c]))
}

/// An operand of arithmetic: numbers and names only, names from slots.
pub open spec fn target_plan(t: SpecMathTarget, env: Scopes) -> SpecPlan
    decreases t,
{
    match t {
        SpecMathTarget::Number(n) => Ok(seq![SpecHelperCall::MakeInt(n)]),
        SpecMathTarget::Reference(r) => match scopes_get(env, r) {
            Some((s, i, _)) => Ok(seq![SpecHelperCall::Incref(s, i)]),
            None => Err(SpecCompileError::UnknownReference(r)),
        },
        SpecMathTarget::Math(sign, l, r) => then_call(
            then(target_plan(*l, env), target_plan(*r, env)),
            SpecHelperCall::Math(sign),
        ),
    }
}

/// Whether an expression evaluates to a function: a lambda, or a name of a
/// slot that holds one.
pub open spec fn expr_is_function(e: SpecExpression, env: Scopes) -> bool {
    match e {
        SpecExpression::Lambda(_, _) => true,
        SpecExpression::Reference(n) => match scopes_get(env, n) {
            Some((_, _, f)) => f,
            None => false,
        },
        _ => false,
    }
}

pub open spec fn value_is_function(a: SpecAst, env: Scopes) -> bool {
    match a {
        SpecAst::Expression(e) => expr_is_function(e, env),
        SpecAst::LetIn(_, e) => expr_is_function(*e, env),
    }
}

/// The scopes that a lambda's body starts in.
pub open spec fn lambda_scopes(params: Seq<Seq<char>>) -> Scopes {
    if params.len() >= 1 {
        seq![Seq::empty(), seq![(params[0], false)]]
    } else {
        seq![Seq::empty(), Seq::empty()]
    }
}

/// The function of a lambda: one parameter only; its body, then its scope
/// closed.
pub open spec fn lambda_function(params: Seq<Seq<char>>, body: SpecPlan) -> SpecPlan {
    if params.len() != 1 {
        Err(SpecCompileError::LambdaArity(params.len()))
    } else {
        then_call(body, SpecHelperCall::EndScope)
    }
}

/// A call: the argument first; then a function in a slot is applied, any
/// other name is a constructor that names the argument, and any other
/// expression is computed and applied.
pub open spec fn call_plan(f: SpecExpression, rf: SpecPlan, ra: SpecPlan, env: Scopes) -> SpecPlan {
    match f {
        SpecExpression::Reference(n) => match scopes_get(env, n) {
            Some((s, i, true)) => then_call(ra, SpecHelperCall::ApplySlot(s, i)),
            _ => then_call(ra, SpecHelperCall::Rename(n)),
        },
        _ => then_call(then(ra, rf), SpecHelperCall::Apply),
    }
}

/// The plan of an expression in `env`, and the lambda functions with those
/// of `e` added, in the order the lambdas appear.
pub open spec fn expr_plan(e: SpecExpression, env: Scopes, ls: Seq<SpecPlan>) -> (SpecPlan, Seq<SpecPlan>)
    decreases e,
{
    match e {
        SpecExpression::Int(n) => (Ok(seq![SpecHelperCall::MakeInt(n)]), ls),
        SpecExpression::Boolean(b) => (Ok(seq![SpecHelperCall::MakeBool(b)]), ls),
        SpecExpression::String(s) => (Ok(seq![SpecHelperCall::MakeString(s)]), ls),
        SpecExpression::Reference(n) => (reference_plan(n, env), ls),
        SpecExpression::Math(sign, l, r) => (
            then_call(then(target_plan(l, env), target_plan(r, env)), SpecHelperCall::Math(sign)),
            ls,
        ),
        SpecExpression::MapLiteral(a) => {
            let (r, ls2) = fields_plan(a, env, ls);
            (then(Ok(seq![SpecHelperCall::AllocMap]), r), ls2)
        },
        SpecExpression::Product(a) => {
            let (r, ls2) = fields_plan(a, env, ls);
            (then(Ok(seq![SpecHelperCall::AllocMap]), r), ls2)
        },
        SpecExpression::Sum(a) => {
            let (r, ls2) = fields_plan(a, env, ls);
            (then(Ok(seq![SpecHelperCall::AllocMap]), r), ls2)
        },
        SpecExpression::Call(f, a) => {
            let (rf, ls1) = expr_plan(*f, env, ls);
            let (ra, ls2) = expr_plan(*a, env, ls1);
            (call_plan(*f, rf, ra, env), ls2)
        },
        SpecExpression::Lambda(ps, b) => {
            let id = ls.len();
            let (rb, ls2) = expr_plan(*b, lambda_scopes(ps), ls.push(Ok(Seq::empty())));
            (Ok(seq![SpecHelperCall::MakeClosure(id)]), ls2.update(id as int, lambda_function(ps, rb)))
        },
        SpecExpression::Not(x) => {
            let (r, ls2) = expr_plan(*x, env, ls);
            (then_call(r, SpecHelperCall::Negate), ls2)
        },
    }
}

/// The fields of a map: each value, then set under its name.
pub open spec fn fields_plan(a: Seq<SpecAssignment>, env: Scopes, ls: Seq<SpecPlan>) -> (
    SpecPlan,
    Seq<SpecPlan>,
)
    decreases a,
{
    if a.len() == 0 {
        (Ok(Seq::empty()), ls)
    } else {
        let (rv, ls1) = ast_plan(*a[0].value, env, ls);
        let (rr, ls2) = fields_plan(a.drop_first(), env, ls1);
        (then(then_call(rv, SpecHelperCall::MapSet(a[0].name)), rr), ls2)
    }
}

/// The plan of a script or binding value: `let … in` opens a scope, binds
/// each value in turn, computes the expression and closes the scope.
pub open spec fn ast_plan(a: SpecAst, env: Scopes, ls: Seq<SpecPlan>) -> (SpecPlan, Seq<SpecPlan>)
    decreases a,
{
    match a {
        SpecAst::Expression(e) => expr_plan(e, env, ls),
        SpecAst::LetIn(asg, e) => {
            let (r1, env2, ls1) = let_plan(asg, env.push(Seq::empty()), ls);
            let (r2, ls2) = expr_plan(*e, env2, ls1);
            (
                then_call(
                    then(then(Ok(seq![SpecHelperCall::BeginScope]), r1), r2),
                    SpecHelperCall::EndScope,
                ),
                ls2,
            )
        },
    }
}

/// The bindings of a `let`: each value, then bound; returns the scopes with
/// the names added.
pub open spec fn let_plan(asg: Seq<SpecAssignment>, env: Scopes, ls: Seq<SpecPlan>) -> (
    SpecPlan,
    Scopes,
    Seq<SpecPlan>,
)
    decreases asg,
{
    if asg.len() == 0 {
        (Ok(Seq::empty()), env, ls)
    } else {
        let v = *asg[0].value;
        let (rv, ls1) = ast_plan(v, env, ls);
        let env1 = scopes_insert(env, asg[0].name, value_is_function(v, env));
        let (rr, env2, ls2) = let_plan(asg.drop_first(), env1, ls1);
        (then(then_call(rv, SpecHelperCall::Bind), rr), env2, ls2)
    }
}

/// The first failed plan, if any.
pub open spec fn first_error(ls: Seq<SpecPlan>) -> Option<SpecCompileError>
    decreases ls.len(),
{
    if ls.len() == 0 {
        None
    } else {
        match ls[0] {
            Err(x) => Some(x),
            Ok(_) => first_error(ls.drop_first()),
        }
    }
}

/// The scopes that the main function starts in.
pub open spec fn main_scopes() -> Scopes {
    seq![Seq::empty(), Seq::empty()]
}

/// The plan of a whole script: the lambda functions, compiled first and in
/// order, then the main function.
pub open spec fn spec_program_plan(a: SpecAst) -> Result<(Seq<Seq<SpecHelperCall>>, Seq<SpecHelperCall>), SpecCompileError> {
    let (rm, ls) = ast_plan(a, main_scopes(), Seq::empty());
    match first_error(ls) {
        Some(x) => Err(x),
        None => match rm {
            Err(x) => Err(x),
            Ok(m) => Ok((ls.map_values(|r: SpecPlan| r->Ok_0), m)),
        },
    }
}

// ---------------------------------------------------------------------------
// The stack that a plan works on.
// ---------------------------------------------------------------------------

/// The height of the value stack after `c`, from height `depth`; `None`
/// where `c` would take a value that is not there.
pub open spec fn call_height(c: SpecHelperCall, depth: int) -> Option<int> {
    match c {
        SpecHelperCall::MakeInt(_) | SpecHelperCall::MakeBool(_) | SpecHelperCall::MakeString(_)
        | SpecHelperCall::Incref(_, _) | SpecHelperCall::AllocMap | SpecHelperCall::MakeClosure(
            _,
        ) => Some(depth + 1),
        SpecHelperCall::MapSet(_) | SpecHelperCall::Math(_) | SpecHelperCall::Apply => if depth
            >= 2 {
            Some(depth - 1)
        } else {
            None
        },
        SpecHelperCall::Negate | SpecHelperCall::ApplySlot(_, _) | SpecHelperCall::Rename(_)
        | SpecHelperCall::EndScope => if depth >= 1 {
            Some(depth)
        } else {
            None
        },
        SpecHelperCall::BeginScope => Some(depth),
        SpecHelperCall::Bind => if depth >= 1 {
            Some(depth - 1)
        } else {
            None
        },
    }
}

/// The height of the value stack after `cs`, from height `depth`, or
/// `None` where some call would take a value that is not there.
pub open spec fn plan_height(cs: Seq<SpecHelperCall>, depth: int) -> Option<int>
    decreases cs.len(),
{
    if cs.len() == 0 {
        Some(depth)
    } else {
        match call_height(cs[0], depth) {
            Some(d) => plan_height(cs.drop_first(), d),
            None => None,
        }
    }
}

proof fn lemma_plan_height_concat(a: Seq<SpecHelperCall>, b: Seq<SpecHelperCall>, depth: int)
    ensures
        plan_height(a + b, depth) == match plan_height(a, depth) {
            Some(d) => plan_height(b, d),
            None => None,
        },
    decreases a.len(),
{
    if a.len() == 0 {
        assert(a + b =~= b);
    } else {
        assert((a + b)[0] == a[0]);
        assert((a + b).drop_first() =~= a.drop_first() + b);
        match call_height(a[0], depth) {
            Some(d) => lemma_plan_height_concat(a.drop_first(), b, d),
            None => {},
        }
    }
}

proof fn lemma_plan_height_one(c: SpecHelperCall, depth: int)
    ensures
        plan_height(seq![c], depth) == call_height(c, depth),
{
    let s = seq![c];
    assert(s.drop_first() =~= Seq::<SpecHelperCall>::empty());
    assert(s[0] == c);
    match call_height(c, depth) {
        Some(d) => {
            assert(plan_height(s.drop_first(), d) == Some(d));
        },
        None => {},
    }
}

/// `a`, then `c`, from height `depth`, where `a` ends at height `mid`.
proof fn lemma_plan_height_then_call(a: Seq<SpecHelperCall>, c: SpecHelperCall, depth: int, mid: int)
    requires
        plan_height(a, depth) == Some(mid),
    ensures
        plan_height(a + seq![c], depth) == call_height(c, mid),
{
    lemma_plan_height_concat(a, seq![c], depth);
    lemma_plan_height_one(c, mid);
}

proof fn lemma_target_pushes_one(t: SpecMathTarget, env: Scopes, p: Seq<SpecHelperCall>, depth: int)
    requires
        target_plan(t, env) == Ok::<_, SpecCompileError>(p),
        depth >= 0,
    ensures
        plan_height(p, depth) == Some(depth + 1),
    decreases t,
{
    match t {
        SpecMathTarget::Math(sign, l, r) => {
            let pl = target_plan(*l, env)->Ok_0;
            let pr = target_plan(*r, env)->Ok_0;
            lemma_target_pushes_one(*l, env, pl, depth);
            lemma_target_pushes_one(*r, env, pr, depth + 1);
            lemma_plan_height_concat(pl, pr, depth);
            lemma_plan_height_then_call(pl + pr, SpecHelperCall::Math(sign), depth, depth + 2);
        },
        _ => {
            lemma_plan_height_one(p[0], depth);
        },
    }
}

/// The plan of an expression pushes its value and nothing else: from any
/// height it never takes a value that is not on the stack, and it ends one
/// value higher.
pub proof fn law_expression_plan_pushes_one_value(
    e: SpecExpression,
    env: Scopes,
    ls: Seq<SpecPlan>,
    p: Seq<SpecHelperCall>,
    depth: int,
)
    requires
        expr_plan(e, env, ls).0 == Ok::<_, SpecCompileError>(p),
        depth >= 0,
    ensures
        plan_height(p, depth) == Some(depth + 1),
    decreases e,
{
    match e {
        SpecExpression::Reference(n) => {
            lemma_plan_height_one(p[0], depth);
        },
        SpecExpression::Math(sign, l, r) => {
            let pl = target_plan(l, env)->Ok_0;
            let pr = target_plan(r, env)->Ok_0;
            lemma_target_pushes_one(l, env, pl, depth);
            lemma_target_pushes_one(r, env, pr, depth + 1);
            lemma_plan_height_concat(pl, pr, depth);
            lemma_plan_height_then_call(pl + pr, SpecHelperCall::Math(sign), depth, depth + 2);
        },
        SpecExpression::MapLiteral(a) => {
            lemma_fields_plan_height(a, env, ls, depth);
        },
        SpecExpression::Product(a) => {
            lemma_fields_plan_height(a, env, ls, depth);
        },
        SpecExpression::Sum(a) => {
            lemma_fields_plan_height(a, env, ls, depth);
        },
        SpecExpression::Call(f, a) => {
            let (rf, ls1) = expr_plan(*f, env, ls);
            let (ra, ls2) = expr_plan(*a, env, ls1);
            let pa = ra->Ok_0;
            law_expression_plan_pushes_one_value(*a, env, ls1, pa, depth);
            match *f {
                SpecExpression::Reference(n) => match scopes_get(env, n) {
                    Some((s, i, true)) => {
                        lemma_plan_height_then_call(pa, SpecHelperCall::ApplySlot(s, i), depth, depth + 1);
                    },
                    _ => {
                        lemma_plan_height_then_call(pa, SpecHelperCall::Rename(n), depth, depth + 1);
                    },
                },
                _ => {
                    let pf = rf->Ok_0;
                    law_expression_plan_pushes_one_value(*f, env, ls, pf, depth + 1);
                    lemma_plan_height_concat(pa, pf, depth);
                    lemma_plan_height_then_call(pa + pf, SpecHelperCall::Apply, depth, depth + 2);
                },
            }
        },
        SpecExpression::Not(x) => {
            let (r, ls2) = expr_plan(*x, env, ls);
            let px = r->Ok_0;
            law_expression_plan_pushes_one_value(*x, env, ls, px, depth);
            lemma_plan_height_then_call(px, SpecHelperCall::Negate, depth, depth + 1);
        },
        _ => {
            lemma_plan_height_one(p[0], depth);
        },
    }
}

/// A map's plan: the empty map, then each field set into it.
proof fn lemma_fields_plan_height(a: Seq<SpecAssignment>, env: Scopes, ls: Seq<SpecPlan>, depth: int)
    requires
        then(Ok(seq![SpecHelperCall::AllocMap]), fields_plan(a, env, ls).0) is Ok,
        depth >= 0,
    ensures
        plan_height(
            then(Ok(seq![SpecHelperCall::AllocMap]), fields_plan(a, env, ls).0)->Ok_0,
            depth,
        ) == Some(depth + 1),
    decreases a, 1nat,
{
    let pr = fields_plan(a, env, ls).0->Ok_0;
    lemma_fields_keep_height(a, env, ls, pr, depth + 1);
    lemma_plan_height_one(SpecHelperCall::AllocMap, depth);
    lemma_plan_height_concat(seq![SpecHelperCall::AllocMap], pr, depth);
}

/// Setting fields leaves the map where it was.
proof fn lemma_fields_keep_height(
    a: Seq<SpecAssignment>,
    env: Scopes,
    ls: Seq<SpecPlan>,
    p: Seq<SpecHelperCall>,
    depth: int,
)
    requires
        fields_plan(a, env, ls).0 == Ok::<_, SpecCompileError>(p),
        depth >= 1,
    ensures
        plan_height(p, depth) == Some(depth),
    decreases a, 0nat,
{
    if a.len() == 0 {
    } else {
        let (rv, ls1) = ast_plan(*a[0].value, env, ls);
        let (rr, ls2) = fields_plan(a.drop_first(), env, ls1);
        let pv = rv->Ok_0;
        let prest = rr->Ok_0;
        law_script_plan_pushes_one_value(*a[0].value, env, ls, pv, depth);
        lemma_plan_height_then_call(pv, SpecHelperCall::MapSet(a[0].name), depth, depth + 1);
        lemma_fields_keep_height(a.drop_first(), env, ls1, prest, depth);
        lemma_plan_height_concat(pv + seq![SpecHelperCall::MapSet(a[0].name)], prest, depth);
    }
}

/// The plan of a script pushes its value and nothing else; a `let … in`
/// binds each value it computes and closes its scope with the value of its
/// expression on top.
pub proof fn law_script_plan_pushes_one_value(
    a: SpecAst,
    env: Scopes,
    ls: Seq<SpecPlan>,
    p: Seq<SpecHelperCall>,
    depth: int,
)
    requires
        ast_plan(a, env, ls).0 == Ok::<_, SpecCompileError>(p),
        depth >= 0,
    ensures
        plan_height(p, depth) == Some(depth + 1),
    decreases a,
{
    match a {
        SpecAst::Expression(e) => {
            law_expression_plan_pushes_one_value(e, env, ls, p, depth);
        },
        SpecAst::LetIn(asg, e) => {
            let (r1, env2, ls1) = let_plan(asg, env.push(Seq::empty()), ls);
            let (r2, ls2) = expr_plan(*e, env2, ls1);
            let p1 = r1->Ok_0;
            let p2 = r2->Ok_0;
            let begin = seq![SpecHelperCall::BeginScope];
            lemma_plan_height_one(SpecHelperCall::BeginScope, depth);
            lemma_let_keeps_height(asg, env.push(Seq::empty()), ls, p1, depth);
            law_expression_plan_pushes_one_value(*e, env2, ls1, p2, depth);
            lemma_plan_height_concat(begin, p1, depth);
            lemma_plan_height_concat(begin + p1, p2, depth);
            lemma_plan_height_then_call(begin + p1 + p2, SpecHelperCall::EndScope, depth, depth + 1);
        },
    }
}

/// The bindings of a `let` each take the value computed for them.
proof fn lemma_let_keeps_height(
    asg: Seq<SpecAssignment>,
    env: Scopes,
    ls: Seq<SpecPlan>,
    p: Seq<SpecHelperCall>,
    depth: int,
)
    requires
        let_plan(asg, env, ls).0 == Ok::<_, SpecCompileError>(p),
        depth >= 0,
    ensures
        plan_height(p, depth) == Some(depth),
    decreases asg,
{
    if asg.len() > 0 {
        let v = *asg[0].value;
        let (rv, ls1) = ast_plan(v, env, ls);
        let env1 = scopes_insert(env, asg[0].name, value_is_function(v, env));
        let (rr, env2, ls2) = let_plan(asg.drop_first(), env1, ls1);
        let pv = rv->Ok_0;
        let prest = rr->Ok_0;
        law_script_plan_pushes_one_value(v, env, ls, pv, depth);
        lemma_plan_height_then_call(pv, SpecHelperCall::Bind, depth, depth + 1);
        lemma_let_keeps_height(asg.drop_first(), env1, ls1, prest, depth);
        lemma_plan_height_concat(pv + seq![SpecHelperCall::Bind], prest, depth);
    }
}

/// The main function of a script that compiles leaves exactly its value on
/// the stack, and never takes a value that is not there.
pub proof fn law_main_plan_leaves_its_value(
    a: SpecAst,
    lambdas: Seq<Seq<SpecHelperCall>>,
    main: Seq<SpecHelperCall>,
)
    requires
        spec_program_plan(a) == Ok::<_, SpecCompileError>((lambdas, main)),
    ensures
        plan_height(main, 0) == Some(1int),
{
    law_script_plan_pushes_one_value(a, main_scopes(), Seq::empty(), main, 0);
}

/// A lambda function that was planned leaves exactly its value.
pub open spec fn function_plan_ok(r: SpecPlan) -> bool {
    r is Ok ==> plan_height(r->Ok_0, 0) == Some(1int)
}

/// `after` keeps the lambda functions of `before` and adds only ones whose
/// plans leave exactly their value.
pub open spec fn adds_good_functions(after: Seq<SpecPlan>, before: Seq<SpecPlan>) -> bool {
    &&& after.len() >= before.len()
    &&& forall|i: int| 0 <= i < before.len() ==> #[trigger] after[i] == before[i]
    &&& forall|i: int| before.len() <= i < after.len() ==> function_plan_ok(#[trigger] after[i])
}

proof fn lemma_adds_good_functions_trans(c: Seq<SpecPlan>, b: Seq<SpecPlan>, a: Seq<SpecPlan>)
    requires
        adds_good_functions(c, b),
        adds_good_functions(b, a),
    ensures
        adds_good_functions(c, a),
{
    assert forall|i: int| a.len() <= i < c.len() implies function_plan_ok(#[trigger] c[i]) by {
        if i < b.len() {
            assert(c[i] == b[i]);
        }
    }
}

proof fn lemma_expr_functions(e: SpecExpression, env: Scopes, ls: Seq<SpecPlan>)
    ensures
        adds_good_functions(expr_plan(e, env, ls).1, ls),
    decreases e,
{
    match e {
        SpecExpression::MapLiteral(a) => lemma_fields_functions(a, env, ls),
        SpecExpression::Product(a) => lemma_fields_functions(a, env, ls),
        SpecExpression::Sum(a) => lemma_fields_functions(a, env, ls),
        SpecExpression::Call(f, a) => {
            let (rf, ls1) = expr_plan(*f, env, ls);
            lemma_expr_functions(*f, env, ls);
            lemma_expr_functions(*a, env, ls1);
            lemma_adds_good_functions_trans(expr_plan(*a, env, ls1).1, ls1, ls);
        },
        SpecExpression::Lambda(ps, b) => {
            let id = ls.len();
            let pushed = ls.push(Ok(Seq::empty()));
            let (rb, ls2) = expr_plan(*b, lambda_scopes(ps), pushed);
            lemma_expr_functions(*b, lambda_scopes(ps), pushed);
            let own = lambda_function(ps, rb);
            if own is Ok {
                let pb = rb->Ok_0;
                law_expression_plan_pushes_one_value(*b, lambda_scopes(ps), pushed, pb, 0);
                lemma_plan_height_then_call(pb, SpecHelperCall::EndScope, 0, 1);
            }
            let after = ls2.update(id as int, own);
            assert forall|i: int| 0 <= i < ls.len() implies #[trigger] after[i] == ls[i] by {
                assert(pushed[i] == ls[i]);
            }
            assert forall|i: int| ls.len() <= i < after.len() implies function_plan_ok(
                #[trigger] after[i],
            ) by {
                if i > id {
                    assert(after[i] == ls2[i]);
                }
            }
        },
        SpecExpression::Not(x) => lemma_expr_functions(*x, env, ls),
        _ => {},
    }
}

proof fn lemma_fields_functions(a: Seq<SpecAssignment>, env: Scopes, ls: Seq<SpecPlan>)
    ensures
        adds_good_functions(fields_plan(a, env, ls).1, ls),
    decreases a,
{
    if a.len() > 0 {
        let (rv, ls1) = ast_plan(*a[0].value, env, ls);
        lemma_ast_functions(*a[0].value, env, ls);
        lemma_fields_functions(a.drop_first(), env, ls1);
        lemma_adds_good_functions_trans(fields_plan(a.drop_first(), env, ls1).1, ls1, ls);
    }
}

proof fn lemma_ast_functions(a: SpecAst, env: Scopes, ls: Seq<SpecPlan>)
    ensures
        adds_good_functions(ast_plan(a, env, ls).1, ls),
    decreases a,
{
    match a {
        SpecAst::Expression(e) => lemma_expr_functions(e, env, ls),
        SpecAst::LetIn(asg, e) => {
            let (r1, env2, ls1) = let_plan(asg, env.push(Seq::empty()), ls);
            lemma_let_functions(asg, env.push(Seq::empty()), ls);
            lemma_expr_functions(*e, env2, ls1);
            lemma_adds_good_functions_trans(expr_plan(*e, env2, ls1).1, ls1, ls);
        },
    }
}

proof fn lemma_let_functions(asg: Seq<SpecAssignment>, env: Scopes, ls: Seq<SpecPlan>)
    ensures
        adds_good_functions(let_plan(asg, env, ls).2, ls),
    decreases asg,
{
    if asg.len() > 0 {
        let v = *asg[0].value;
        let (rv, ls1) = ast_plan(v, env, ls);
        let env1 = scopes_insert(env, asg[0].name, value_is_function(v, env));
        lemma_ast_functions(v, env, ls);
        lemma_let_functions(asg.drop_first(), env1, ls1);
        lemma_adds_good_functions_trans(let_plan(asg.drop_first(), env1, ls1).2, ls1, ls);
    }
}

/// Every lambda function of a script that compiles leaves exactly its value
/// on the stack, and never takes a value that is not there.
pub proof fn law_lambda_plans_leave_their_value(
    a: SpecAst,
    lambdas: Seq<Seq<SpecHelperCall>>,
    main: Seq<SpecHelperCall>,
    i: int,
)
    requires
        spec_program_plan(a) == Ok::<_, SpecCompileError>((lambdas, main)),
        0 <= i < lambdas.len(),
    ensures
        plan_height(lambdas[i], 0) == Some(1int),
{
    let (rm, ls) = ast_plan(a, main_scopes(), Seq::empty());
    lemma_ast_functions(a, main_scopes(), Seq::empty());
    assert(lambdas == ls.map_values(|r: SpecPlan| r->Ok_0));
    lemma_first_error_none(ls, i);
    assert(function_plan_ok(ls[i]));
}

proof fn lemma_first_error_none(ls: Seq<SpecPlan>, i: int)
    requires
        first_error(ls) is None,
        0 <= i < ls.len(),
    ensures
        ls[i] is Ok,
    decreases ls.len(),
{
    if i > 0 {
        lemma_first_error_none(ls.drop_first(), i - 1);
    }
}

/// The closure made for a lambda refers to that lambda's own function: the
/// lambda's plan is a single `MakeClosure` whose number is how many lambda
/// functions were planned before it; at that place of the returned list
/// stands this lambda's function, its body planned in the lambda's own
/// scopes; and the functions planned before it are kept as they were.
pub proof fn law_closure_refers_to_its_own_function(
    ps: Seq<Seq<char>>,
    body: SpecExpression,
    env: Scopes,
    ls: Seq<SpecPlan>,
)
    ensures
        expr_plan(SpecExpression::Lambda(ps, Box::new(body)), env, ls).0 == Ok::<
            _,
            SpecCompileError,
        >(seq![SpecHelperCall::MakeClosure(ls.len())]),
        expr_plan(SpecExpression::Lambda(ps, Box::new(body)), env, ls).1.len() > ls.len(),
        expr_plan(SpecExpression::Lambda(ps, Box::new(body)), env, ls).1[ls.len() as int]
            == lambda_function(
            ps,
            expr_plan(body, lambda_scopes(ps), ls.push(Ok(Seq::empty()))).0,
        ),
        forall|i: int|
            0 <= i < ls.len() ==> #[trigger] expr_plan(
                SpecExpression::Lambda(ps, Box::new(body)),
                env,
                ls,
            ).1[i] == ls[i],
{
    let pushed = ls.push(Ok(Seq::<SpecHelperCall>::empty()));
    lemma_expr_functions(body, lambda_scopes(ps), pushed);
    let ls2 = expr_plan(body, lambda_scopes(ps), pushed).1;
    assert forall|i: int| 0 <= i < ls.len() implies #[trigger] ls2[i] == ls[i] by {
        assert(ls2[i] == pushed[i]);
    }
}

/// The type names `String` and `Int` are strings: in any scopes, even ones
/// that bind them, a reference to either plans to a single `MakeString` of
/// that name, and plans no lambda function.
pub proof fn law_type_names_are_strings(env: Scopes, ls: Seq<SpecPlan>)
    ensures
        expr_plan(SpecExpression::Reference(seq!['I', 'n', 't']), env, ls) == (
            Ok::<_, SpecCompileError>(seq![SpecHelperCall::MakeString(seq!['I', 'n', 't'])]),
            ls,
        ),
        expr_plan(
            SpecExpression::Reference(seq!['S', 't', 'r', 'i', 'n', 'g']),
            env,
            ls,
        ) == (
            Ok::<_, SpecCompileError>(
                seq![SpecHelperCall::MakeString(seq!['S', 't', 'r', 'i', 'n', 'g'])],
            ),
            ls,
        ),
{
}

// ---------------------------------------------------------------------------
// Scopes, executable.
// ---------------------------------------------------------------------------

pub open spec fn scope_view(s: Vec<(String, bool)>) -> Seq<(Seq<char>, bool)> {
    s@.map_values(|p: (String, bool)| (p.0@, p.1))
}

fn find_in_scope(scope: &Vec<(String, bool)>, name: &String) -> (r: Option<(usize, bool)>)
    ensures
        match r {
            Some((i, f)) => scope_find(scope_view(*scope), name@) == Some((i as nat, f)),
            None => scope_find(scope_view(*scope), name@) is None,
        },
{
    let mut i = scope.len();
    proof {
        assert(scope_view(*scope).take(i as int) =~= scope_view(*scope));
    }
    while i > 0
        invariant
            i <= scope@.len(),
            scope_find(scope_view(*scope), name@) == scope_find(scope_view(*scope).take(i as int), name@),
        decreases i,
    {
        proof {
            assert(scope_view(*scope).take(i as int).drop_last() =~= scope_view(*scope).take(i - 1));
        }
        if scope[i - 1].0 == *name {
            return Some((i - 1, scope[i - 1].1));
        }
        i = i - 1;
    }
    None
}

impl ScopeEnv {
    /// One empty scope.
    pub fn new() -> (r: ScopeEnv)
        ensures
            r@ == seq![Seq::<(Seq<char>, bool)>::empty()],
    {
        let r = ScopeEnv { scopes: vec![Vec::new()] };
        assert(r@ =~~= seq![Seq::<(Seq<char>, bool)>::empty()]);
        r
    }

    /// Opens an empty innermost scope.
    pub fn push_scope(&mut self)
        ensures
            final(self)@ == old(self)@.push(Seq::empty()),
    {
        self.scopes.push(Vec::new());
        assert(scope_view(self.scopes@.last()) =~= Seq::empty());
        assert(self@ =~= old(self)@.push(Seq::empty()));
    }

    /// Closes the innermost scope, so that the one below it is innermost
    /// again.
    pub fn pop_scope(&mut self)
        ensures
            old(self)@.len() > 0 ==> final(self)@ == old(self)@.drop_last(),
            old(self)@.len() == 0 ==> final(self)@ == old(self)@,
    {
        if self.scopes.len() > 0 {
            self.scopes.pop();
            assert(self@ =~= old(self)@.drop_last());
        }
    }

    /// Adds `name` to the innermost scope; fails where there is no scope.
    pub fn insert(&mut self, name: String, is_function: bool) -> (r: Result<(), CompileError>)
        ensures
            old(self)@.len() > 0 ==> r is Ok && final(self)@ == scopes_insert(
                old(self)@,
                name@,
                is_function,
            ),
            old(self)@.len() == 0 ==> final(self)@ == old(self)@ && r matches Err(
                CompileError::Internal(InternalError::EnvScopeStackUnderflow),
            ),
    {
        let n = self.scopes.len();
        if n == 0 {
            return Err(CompileError::Internal(InternalError::EnvScopeStackUnderflow));
        }
        let mut last = self.scopes.pop().unwrap();
        let ghost before = scope_view(last);
        last.push((name, is_function));
        assert(scope_view(last) =~= before.push((name@, is_function)));
        self.scopes.push(last);
        assert(self@ =~= scopes_insert(old(self)@, name@, is_function));
        Ok(())
    }

    /// The slot (scope, place) that `name` refers to, with whether it holds
    /// a function: its latest place in the innermost scope that holds it.
    pub fn get(&self, name: &String) -> (r: Option<(usize, usize, bool)>)
        ensures
            match r {
                Some((s, i, f)) => scopes_get(self@, name@) == Some((s as nat, i as nat, f)),
                None => scopes_get(self@, name@) is None,
            },
    {
        let mut k = self.scopes.len();
        proof {
            assert(self@.take(k as int) =~= self@);
        }
        while k > 0
            invariant
                k <= self.scopes@.len(),
                scopes_get(self@, name@) == scopes_get(self@.take(k as int), name@),
            decreases k,
        {
            proof {
                assert(self@.take(k as int).drop_last() =~= self@.take(k - 1));
                assert(self@.take(k as int).last() == scope_view(self.scopes@[k - 1]));
            }
            match find_in_scope(&self.scopes[k - 1], name) {
                Some((i, f)) => {
                    return Some((k - 1, i, f));
                },
                None => {},
            }
            k = k - 1;
        }
        None
    }
}

// ---------------------------------------------------------------------------
// Plans, executable.
// ---------------------------------------------------------------------------

fn then_exec(a: Result<Vec<HelperCall>, CompileError>, b: Result<Vec<HelperCall>, CompileError>) -> (r:
    Result<Vec<HelperCall>, CompileError>)
    ensures
        plan_view(r) == then(plan_view(a), plan_view(b)),
{
    match a {
        Err(x) => Err(x),
        Ok(mut p) => match b {
            Err(x) => Err(x),
            Ok(mut q) => {
                let ghost (pv, qv) = (p@, q@);
                p.append(&mut q);
                assert(calls_view(p@) =~= calls_view(pv) + calls_view(qv));
                Ok(p)
            },
        },
    }
}

fn then_call_exec(a: Result<Vec<HelperCall>, CompileError>, c: HelperCall) -> (r: Result<
    Vec<HelperCall>,
    CompileError,
>)
    ensures
        plan_view(r) == then_call(plan_view(a), c@),
{
    let ghost cv = c@;
    let one = vec![c];
    assert(calls_view(one@) =~= seq![cv]);
    then_exec(a, Ok(one))
}

fn one(c: HelperCall) -> (r: Result<Vec<HelperCall>, CompileError>)
    ensures
        plan_view(r) == Ok::<_, SpecCompileError>(seq![c@]),
{
    let ghost cv = c@;
    let v = vec![c];
    assert(calls_view(v@) =~= seq![cv]);
    Ok(v)
}

fn is_type_name_exec(n: &String) -> (b: bool)
    ensures
        b == is_type_name(n@),
{
    let s1 = String::from_str("String");
    let s2 = String::from_str("Int");
    proof {
        reveal_strlit("String");
        reveal_strlit("Int");
        assert(s1@ =~= seq!['S', 't', 'r', 'i', 'n', 'g']);
        assert(s2@ =~= seq!['I', 'n', 't']);
    }
    let b = *n == s1 || *n == s2;
    b
}

fn unknown(n: &String) -> (r: Result<Vec<HelperCall>, CompileError>)
    ensures
        plan_view(r) == Err::<Seq<SpecHelperCall>, _>(SpecCompileError::UnknownReference(n@)),
{
    Err(CompileError::Reference(ReferenceError::Unknown { name: n.clone() }))
}

fn reference_plan_exec(n: &String, env: &ScopeEnv) -> (r: Result<Vec<HelperCall>, CompileError>)
    ensures
        plan_view(r) == reference_plan(n@, env@),
{
    if is_type_name_exec(n) {
        one(HelperCall::MakeString(n.clone()))
    } else {
        match env.get(n) {
            Some((s, i, _)) => one(HelperCall::Incref(s, i)),
            None => unknown(n),
        }
    }
}

fn target_plan_exec(t: &MathTarget, env: &ScopeEnv) -> (r: Result<Vec<HelperCall>, CompileError>)
    ensures
        plan_view(r) == target_plan(t@, env@),
    decreases t,
{
    match t {
        MathTarget::Number(n) => one(HelperCall::MakeInt(*n)),
        MathTarget::Reference(name) => match env.get(name) {
            Some((s, i, _)) => one(HelperCall::Incref(s, i)),
            None => unknown(name),
        },
        MathTarget::Math(m) => {
            let l = target_plan_exec(&m.left, env);
            let r = target_plan_exec(&m.right, env);
            then_call_exec(then_exec(l, r), HelperCall::Math(m.sign))
        },
    }
}

fn expr_is_function_exec(e: &Expression, env: &ScopeEnv) -> (b: bool)
    ensures
        b == expr_is_function(e@, env@),
{
    match e {
        Expression::Lambda(_) => true,
        Expression::Reference(n) => match env.get(n) {
            Some((_, _, f)) => f,
            None => false,
        },
        _ => false,
    }
}

fn value_is_function_exec(a: &Ast, env: &ScopeEnv) -> (b: bool)
    ensures
        b == value_is_function(a@, env@),
{
    match a {
        Ast::Expression(e) => expr_is_function_exec(e, env),
        Ast::LetIn(l) => expr_is_function_exec(&l.expression, env),
    }
}

fn lambda_scopes_exec(params: &Vec<String>) -> (r: ScopeEnv)
    ensures
        r@ == lambda_scopes(crate::ast::strings_view(params@)),
{
    if params.len() >= 1 {
        let r = ScopeEnv { scopes: vec![Vec::new(), vec![(params[0].clone(), false)]] };
        assert(r@ =~~= lambda_scopes(crate::ast::strings_view(params@)));
        r
    } else {
        let r = ScopeEnv { scopes: vec![Vec::new(), Vec::new()] };
        assert(r@ =~~= lambda_scopes(crate::ast::strings_view(params@)));
        r
    }
}

/// The plan of `e` in `env`. The functions of the lambdas in `e` are added
/// to `lambdas` in the order the lambdas appear; `e` refers to them by their
/// place there.
pub fn expression_plan(
    e: &Expression,
    env: &mut ScopeEnv,
    lambdas: &mut Vec<Result<Vec<HelperCall>, CompileError>>,
) -> (r: Result<Vec<HelperCall>, CompileError>)
    ensures
        (plan_view(r), plans_view(final(lambdas)@)) == expr_plan(e@, old(env)@, plans_view(old(lambdas)@)),
        final(env)@ == old(env)@,
        final(lambdas)@.len() >= old(lambdas)@.len(),
    decreases e, 0nat,
{
    match e {
        Expression::Int(n) => one(HelperCall::MakeInt(*n)),
        Expression::Boolean(b) => one(HelperCall::MakeBool(*b)),
        Expression::String(s) => one(HelperCall::MakeString(s.clone())),
        Expression::Reference(n) => reference_plan_exec(n, env),
        Expression::Math(m) => {
            let l = target_plan_exec(&m.left, env);
            let r = target_plan_exec(&m.right, env);
            then_call_exec(then_exec(l, r), HelperCall::Math(m.sign))
        },
        Expression::MapLiteral(m) => {
            let r = fields_plan_exec(&m.assignments, 0, env, lambdas);
            proof { assert(m.assignments@.skip(0) =~= m.assignments@); }
            then_exec(one(HelperCall::AllocMap), r)
        },
        Expression::Product(m) => {
            let r = fields_plan_exec(&m.assignments, 0, env, lambdas);
            proof { assert(m.assignments@.skip(0) =~= m.assignments@); }
            then_exec(one(HelperCall::AllocMap), r)
        },
        Expression::Sum(m) => {
            let r = fields_plan_exec(&m.assignments, 0, env, lambdas);
            proof { assert(m.assignments@.skip(0) =~= m.assignments@); }
            then_exec(one(HelperCall::AllocMap), r)
        },
        Expression::Call(c) => {
            let rf = expression_plan(&c.function, env, lambdas);
            let ra = expression_plan(&c.argument, env, lambdas);
            match &*c.function {
                Expression::Reference(n) => match env.get(n) {
                    Some((s, i, true)) => then_call_exec(ra, HelperCall::ApplySlot(s, i)),
                    _ => then_call_exec(ra, HelperCall::Rename(n.clone())),
                },
                _ => then_call_exec(then_exec(ra, rf), HelperCall::Apply),
            }
        },
        Expression::Lambda(l) => {
            let id = lambdas.len();
            lambdas.push(Ok(Vec::new()));
            let ghost after_push = lambdas@;
            proof {
                assert(calls_view(after_push[id as int]->Ok_0@) =~= Seq::<SpecHelperCall>::empty());
                assert(plans_view(after_push) =~= plans_view(old(lambdas)@).push(Ok(Seq::empty())));
            }
            let mut benv = lambda_scopes_exec(&l.params);
            let rb = expression_plan(&l.body, &mut benv, lambdas);
            let own = if l.params.len() != 1 {
                Err(CompileError::Unsupported(UnsupportedError::LambdaArity { found: l.params.len() }))
            } else {
                then_call_exec(rb, HelperCall::EndScope)
            };
            let ghost before = lambdas@;
            lambdas[id] = own;
            proof {
                assert(plans_view(lambdas@) =~= plans_view(before).update(id as int, plan_view(own)));
            }
            one(HelperCall::MakeClosure(id))
        },
        Expression::Not(x) => {
            let r = expression_plan(x, env, lambdas);
            then_call_exec(r, HelperCall::Negate)
        },
    }
}

fn fields_plan_exec(
    a: &Vec<Assignment>,
    i: usize,
    env: &mut ScopeEnv,
    lambdas: &mut Vec<Result<Vec<HelperCall>, CompileError>>,
) -> (r: Result<Vec<HelperCall>, CompileError>)
    requires
        i <= a@.len(),
    ensures
        (plan_view(r), plans_view(final(lambdas)@)) == fields_plan(
            crate::script::ast::assignments_view(a@.skip(i as int)),
            old(env)@,
            plans_view(old(lambdas)@),
        ),
        final(env)@ == old(env)@,
        final(lambdas)@.len() >= old(lambdas)@.len(),
    decreases a, a@.len() - i,
{
    if i >= a.len() {
        proof {
            assert(a@.skip(i as int) =~= Seq::<Assignment>::empty());
            assert(calls_view(Seq::<HelperCall>::empty()) =~= Seq::<SpecHelperCall>::empty());
        }
        return Ok(Vec::new());
    }
    proof {
        let s = a@.skip(i as int);
        assert(s =~= seq![a@[i as int]] + a@.skip(i + 1));
        crate::script::ast::lemma_assignments_view_prepend(a@[i as int], a@.skip(i + 1));
        let v = crate::script::ast::assignments_view(s);
        assert(v[0] == a@[i as int]@);
        assert(v.drop_first() =~= crate::script::ast::assignments_view(a@.skip(i + 1)));
        assert(*v[0].value == (*a@[i as int].value)@);
    }
    assert(decreases_to!(a => a@[i as int].value));
    let rv = ast_plan_exec(&a[i].value, env, lambdas);
    let rr = fields_plan_exec(a, i + 1, env, lambdas);
    then_exec(then_call_exec(rv, HelperCall::MapSet(a[i].name.clone())), rr)
}

fn ast_plan_exec(
    a: &Ast,
    env: &mut ScopeEnv,
    lambdas: &mut Vec<Result<Vec<HelperCall>, CompileError>>,
) -> (r: Result<Vec<HelperCall>, CompileError>)
    ensures
        (plan_view(r), plans_view(final(lambdas)@)) == ast_plan(a@, old(env)@, plans_view(old(lambdas)@)),
        final(env)@ == old(env)@,
        final(lambdas)@.len() >= old(lambdas)@.len(),
    decreases a, 0nat,
{
    match a {
        Ast::Expression(e) => expression_plan(e, env, lambdas),
        Ast::LetIn(l) => {
            env.push_scope();
            proof { assert(l.assignments@.skip(0) =~= l.assignments@); }
            let r1 = let_plan_exec(&l.assignments, 0, env, lambdas);
            let r2 = expression_plan(&l.expression, env, lambdas);
            env.pop_scope();
            proof {
                assert(env@ =~= old(env)@);
            }
            then_call_exec(then_exec(then_exec(one(HelperCall::BeginScope), r1), r2), HelperCall::EndScope)
        },
    }
}

fn let_plan_exec(
    asg: &Vec<Assignment>,
    i: usize,
    env: &mut ScopeEnv,
    lambdas: &mut Vec<Result<Vec<HelperCall>, CompileError>>,
) -> (r: Result<Vec<HelperCall>, CompileError>)
    requires
        i <= asg@.len(),
        old(env)@.len() >= 1,
    ensures
        (plan_view(r), final(env)@, plans_view(final(lambdas)@)) == let_plan(
            crate::script::ast::assignments_view(asg@.skip(i as int)),
            old(env)@,
            plans_view(old(lambdas)@),
        ),
        final(env)@.len() == old(env)@.len(),
        final(env)@.drop_last() == old(env)@.drop_last(),
        final(lambdas)@.len() >= old(lambdas)@.len(),
    decreases asg, asg@.len() - i,
{
    if i >= asg.len() {
        proof {
            assert(asg@.skip(i as int) =~= Seq::<Assignment>::empty());
            assert(calls_view(Seq::<HelperCall>::empty()) =~= Seq::<SpecHelperCall>::empty());
        }
        return Ok(Vec::new());
    }
    proof {
        let s = asg@.skip(i as int);
        assert(s =~= seq![asg@[i as int]] + asg@.skip(i + 1));
        crate::script::ast::lemma_assignments_view_prepend(asg@[i as int], asg@.skip(i + 1));
        let v = crate::script::ast::assignments_view(s);
        assert(v[0] == asg@[i as int]@);
        assert(v.drop_first() =~= crate::script::ast::assignments_view(asg@.skip(i + 1)));
        assert(*v[0].value == (*asg@[i as int].value)@);
    }
    assert(decreases_to!(asg => asg@[i as int].value));
    let rv = ast_plan_exec(&asg[i].value, env, lambdas);
    let f = value_is_function_exec(&asg[i].value, env);
    let ghost e0 = env@;
    let _ = env.insert(asg[i].name.clone(), f);
    proof {
        assert(env@.drop_last() =~= e0.drop_last());
    }
    let rr = let_plan_exec(asg, i + 1, env, lambdas);
    then_exec(then_call_exec(rv, HelperCall::Bind), rr)
}

/// The plan of a whole script: the function of each lambda, in the order
/// the lambdas appear, and the main function.
pub struct ProgramPlan {
    pub lambdas: Vec<Vec<HelperCall>>,
    pub main: Vec<HelperCall>,
}

/// Plans a script. The lambda functions are planned first, in order, so the
/// first error among them wins over one of the main function.
pub fn program_plan(a: &Ast) -> (r: Result<ProgramPlan, CompileError>)
    ensures
        match r {
            Ok(p) => spec_program_plan(a@) == Ok::<_, SpecCompileError>(
                (p.lambdas@.map_values(|v: Vec<HelperCall>| calls_view(v@)), calls_view(p.main@)),
            ),
            Err(e) => spec_program_plan(a@) == Err::<(Seq<Seq<SpecHelperCall>>, Seq<SpecHelperCall>), _>(
                error_view(e),
            ),
        },
{
    let mut env = ScopeEnv { scopes: vec![Vec::new(), Vec::new()] };
    assert(env@ =~~= main_scopes());
    let mut ls: Vec<Result<Vec<HelperCall>, CompileError>> = Vec::new();
    assert(plans_view(ls@) =~= Seq::<SpecPlan>::empty());
    let rm = ast_plan_exec(a, &mut env, &mut ls);
    let ghost whole = plans_view(ls@);
    assert(ast_plan(a@, main_scopes(), Seq::empty()) == (plan_view(rm), whole));
    let mut out: Vec<Vec<HelperCall>> = Vec::new();
    let ghost mut k: int = 0;
    proof {
        assert(whole.skip(0) =~= whole);
    }
    while ls.len() > 0
        invariant
            0 <= k <= whole.len(),
            plans_view(ls@) == whole.skip(k),
            out@.len() == k,
            forall|j: int| 0 <= j < k ==> whole[j] == Ok::<_, SpecCompileError>(#[trigger] calls_view(out@[j]@)),
            first_error(whole) == first_error(whole.skip(k)),
            ast_plan(a@, main_scopes(), Seq::empty()) == (plan_view(rm), whole),
        decreases ls@.len(),
    {
        let item = ls.remove(0);
        proof {
            assert(whole.skip(k)[0] == plan_view(item));
            assert(whole.skip(k).drop_first() =~= whole.skip(k + 1));
            assert(plans_view(ls@) =~= whole.skip(k + 1));
        }
        match item {
            Ok(p) => {
                out.push(p);
                proof { k = k + 1; }
            },
            Err(e) => {
                proof {
                    assert(first_error(whole.skip(k)) == Some(error_view(e)));
                    assert(first_error(whole) == Some(error_view(e)));
                }
                return Err(e);
            },
        }
    }
    proof {
        assert(whole.skip(k) =~= Seq::<SpecPlan>::empty());
        assert(out@.map_values(|v: Vec<HelperCall>| calls_view(v@)) =~= whole.map_values(
            |r: SpecPlan| r->Ok_0,
        ));
    }
    match rm {
        Ok(m) => Ok(ProgramPlan { lambdas: out, main: m }),
        Err(e) => Err(e),
    }
}

} // verus!
