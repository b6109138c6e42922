//! What the just-in-time compiler computes for a program's main function and
//! for a lambda's body: a sequence of operations on a stack of `(data, tag)`
//! values, which the code generator turns into instructions one by one.
//!
//! Blocks run in order; each binding's value sees the names bound before it
//! and the body sees all of them. An application of a type constructor gives
//! its argument, one of an imported function calls the import, and any
//! other is a closure application. A lambda's body sees its parameters and
//! the names it captures; the lambda can only be made where every captured
//! name is bound.
//!
//! Two laws hold of every program that compiles: its operations never take
//! a value that is not on the stack and leave it empty, and they read only
//! names that are bound where they are read.
use vstd::prelude::*;

use vstd::string::StringExecFns;

use crate::ast::{
    bindings_view, expr_view, strings_view, Ast, Binding, Block, Expr, InfixOp, SpecBinding,
    SpecBlock, SpecExpr,
};
use crate::compiler::{
    contains_name, free_set, free_variables, lemma_push_to_set, lemma_strings_view_push,
    module_bindings, module_find, module_lookup, module_names_of, module_view, number_constant,
    unapplied_module_name, undefined_identifier, ModuleBinding, TAG_NUMBER,
};
use crate::text::spec_parse_i64;

verus! {

/// One step of a function's code.
#[derive(Debug, PartialEq)]
pub enum JitOp {
    /// Push the value `(data, tag)`.
    Const(i64, i64),
    /// Push the value bound to a name.
    Local(String),
    /// Pop the argument and push what the imported function returns for it.
    CallImport(String),
    /// Pop the argument, pop the closure, push the application.
    ApplyClosure,
    /// Pop the right and the left operand, push their combination as a
    /// number.
    Infix(InfixOp),
    /// Push a closure with these parameters, capturing the values of these
    /// names, whose body is these operations.
    Lambda(Vec<String>, Vec<String>, Vec<JitOp>),
    /// Pop a value and bind it to a name, hiding an earlier binding.
    Bind(String),
    /// Pop a value: it is the program's value so far.
    SetResult,
}

pub enum SpecJitOp {
    Const(i64, i64),
    Local(Seq<char>),
    CallImport(Seq<char>),
    ApplyClosure,
    Infix(InfixOp),
    Lambda(Seq<Seq<char>>, Set<Seq<char>>, Seq<SpecJitOp>),
    Bind(Seq<char>),
    SetResult,
}

pub open spec fn op_view(o: JitOp) -> SpecJitOp
    decreases o,
{
    match o {
        JitOp::Const(d, t) => SpecJitOp::Const(d, t),
        JitOp::Local(n) => SpecJitOp::Local(n@),
        JitOp::CallImport(n) => SpecJitOp::CallImport(n@),
        JitOp::ApplyClosure => SpecJitOp::ApplyClosure,
        JitOp::Infix(op) => SpecJitOp::Infix(op),
        JitOp::Lambda(ps, captured, body) => SpecJitOp::Lambda(
            strings_view(ps@),
            strings_view(captured@).to_set(),
            ops_view(body@),
        ),
        JitOp::Bind(n) => SpecJitOp::Bind(n@),
        JitOp::SetResult => SpecJitOp::SetResult,
    }
}

pub open spec fn ops_view(s: Seq<JitOp>) -> Seq<SpecJitOp>
    decreases s,
{
    if s.len() == 0 {
        Seq::empty()
    } else {
        seq![op_view(s[0])] + ops_view(s.drop_first())
    }
}

pub type SpecOps = Result<Seq<SpecJitOp>, Seq<char>>;

pub open spec fn ops_result_view(r: Result<Vec<JitOp>, String>) -> SpecOps {
    match r {
        Ok(v) => Ok(ops_view(v@)),
        Err(m) => Err(m@),
    }
}

pub open spec fn ops_then(a: SpecOps, b: SpecOps) -> SpecOps {
    match a {
        Err(m) => Err(m),
        Ok(p) => match b {
            Err(m) => Err(m),
            Ok(q) => Ok(p + q),
        },
    }
}

pub open spec fn ops_push(a: SpecOps, o: SpecJitOp) -> SpecOps {
    ops_then(a, Ok(seq![o]))
}

/// The names that a module binds.
pub open spec fn module_names(module: Seq<(Seq<char>, ModuleBinding)>) -> Set<Seq<char>> {
    module.map_values(|p: (Seq<char>, ModuleBinding)| p.0).to_set()
}

pub open spec fn unapplied_message(name: Seq<char>, b: ModuleBinding) -> Seq<char> {
    match b {
        ModuleBinding::TypeConstructor => "type constructor "@ + name
            + " must be applied to an argument"@,
        ModuleBinding::Function => "function "@ + name + " must be applied to an argument"@,
    }
}

/// The first name, in reading order, that `e` uses and that neither
/// `bound`, `module` nor `locals` binds.
pub open spec fn first_missing(
    e: SpecExpr,
    module: Set<Seq<char>>,
    bound: Set<Seq<char>>,
    locals: Set<Seq<char>>,
) -> Option<Seq<char>>
    decreases e,
{
    match e {
        SpecExpr::Ident(n) => if !bound.contains(n) && !module.contains(n) && !locals.contains(n) {
            Some(n)
        } else {
            None
        },
        SpecExpr::Number(_) => None,
        SpecExpr::Apply(f, a) => match first_missing(*f, module, bound, locals) {
            Some(n) => Some(n),
            None => first_missing(*a, module, bound, locals),
        },
        SpecExpr::Lambda(ps, body) => first_missing(*body, module, bound + ps.to_set(), locals),
        SpecExpr::Infix(_, l, r) => match first_missing(*l, module, bound, locals) {
            Some(n) => Some(n),
            None => first_missing(*r, module, bound, locals),
        },
        SpecExpr::Prefix(_, x) => first_missing(*x, module, bound, locals),
        SpecExpr::Access(t, _, _) => first_missing(*t, module, bound, locals),
        SpecExpr::Record(_) => None,
    }
}

/// The operations of `e`, with `locals` bound and `module` at module level.
pub open spec fn spec_expression_ops(
    e: SpecExpr,
    module: Seq<(Seq<char>, ModuleBinding)>,
    locals: Set<Seq<char>>,
) -> SpecOps
    decreases e,
{
    match e {
        SpecExpr::Number(text) => match spec_parse_i64(text) {
            Some(n) => Ok(seq![SpecJitOp::Const(n as i64, TAG_NUMBER)]),
            None => Err("invalid number: "@ + text),
        },
        SpecExpr::Ident(n) => match module_find(module, n) {
            Some(b) => Err(unapplied_message(n, b)),
            None => if locals.contains(n) {
                Ok(seq![SpecJitOp::Local(n)])
            } else {
                Err("undefined identifier: "@ + n)
            },
        },
        SpecExpr::Apply(f, a) => {
            let callee = match *f {
                SpecExpr::Ident(n) => module_find(module, n),
                _ => None,
            };
            match callee {
                Some(ModuleBinding::TypeConstructor) => spec_expression_ops(*a, module, locals),
                Some(ModuleBinding::Function) => ops_push(
                    spec_expression_ops(*a, module, locals),
                    SpecJitOp::CallImport(f->Ident_0),
                ),
                None => ops_push(
                    ops_then(
                        spec_expression_ops(*f, module, locals),
                        spec_expression_ops(*a, module, locals),
                    ),
                    SpecJitOp::ApplyClosure,
                ),
            }
        },
        SpecExpr::Infix(op, l, r) => ops_push(
            ops_then(
                spec_expression_ops(*l, module, locals),
                spec_expression_ops(*r, module, locals),
            ),
            SpecJitOp::Infix(op),
        ),
        SpecExpr::Lambda(ps, body) => if ps.len() == 0 {
            Err("lambda must have at least one parameter"@)
        } else {
            let names = module_names(module);
            let captured = free_set(*body, names, ps.to_set());
            match spec_expression_ops(*body, module, ps.to_set() + captured) {
                Err(m) => Err(m),
                Ok(b) => match first_missing(*body, names, ps.to_set(), locals) {
                    Some(n) => Err("free variable "@ + n + " not found in local environment"@),
                    None => Ok(seq![SpecJitOp::Lambda(ps, captured, b)]),
                },
            }
        },
        _ => Err("unsupported expression in JIT"@),
    }
}

/// The operations of the bindings of a block: each value, then bound.
pub open spec fn spec_bindings_ops(
    bs: Seq<crate::ast::SpecBinding>,
    module: Seq<(Seq<char>, ModuleBinding)>,
    locals: Set<Seq<char>>,
) -> (SpecOps, Set<Seq<char>>)
    decreases bs.len(),
{
    if bs.len() == 0 {
        (Ok(Seq::empty()), locals)
    } else {
        let (rest, l2) = spec_bindings_ops(bs.drop_first(), module, locals.insert(bs[0].name));
        (
            ops_then(
                ops_push(spec_expression_ops(bs[0].value, module, locals), SpecJitOp::Bind(bs[0].name)),
                rest,
            ),
            l2,
        )
    }
}

/// The operations of the blocks from the first on: each block with a body
/// binds its names, then sets the program's value to its body's.
pub open spec fn spec_blocks_ops(
    bs: Seq<SpecBlock>,
    module: Seq<(Seq<char>, ModuleBinding)>,
    locals: Set<Seq<char>>,
) -> SpecOps
    decreases bs.len(),
{
    if bs.len() == 0 {
        Ok(Seq::empty())
    } else {
        let (bindings, body) = match bs[0] {
            SpecBlock::Let(b, e) => (b, e),
            SpecBlock::ExprWhere(e, b) => (b, e),
            _ => (Seq::empty(), SpecExpr::Number(Seq::empty())),
        };
        if bs[0] is Let || bs[0] is ExprWhere {
            let (r1, l2) = spec_bindings_ops(bindings, module, locals);
            ops_then(
                ops_push(ops_then(r1, spec_expression_ops(body, module, l2)), SpecJitOp::SetResult),
                spec_blocks_ops(bs.drop_first(), module, l2),
            )
        } else {
            spec_blocks_ops(bs.drop_first(), module, locals)
        }
    }
}

/// The operations of a program's main function: its value starts as `()`.
pub open spec fn spec_program_ops(ast: Seq<SpecBlock>) -> SpecOps {
    match module_names_of(ast, Seq::empty()) {
        Err(m) => Err(m),
        Ok(module) => spec_blocks_ops(ast, module, Set::empty()),
    }
}

// ---------------------------------------------------------------------------
// The stack that the operations work on.
// ---------------------------------------------------------------------------

/// The height of the stack after `o`, from height `depth`; `None` where `o`
/// would take more values than there are, or is a lambda whose body does
/// not leave exactly its value.
pub open spec fn op_height(o: SpecJitOp, depth: int) -> Option<int>
    decreases o, 0nat,
{
    match o {
        SpecJitOp::Const(_, _) => Some(depth + 1),
        SpecJitOp::Local(_) => Some(depth + 1),
        SpecJitOp::Lambda(_, _, body) => if ops_height(body, 0) == Some(1int) {
            Some(depth + 1)
        } else {
            None
        },
        SpecJitOp::CallImport(_) => if depth >= 1 {
            Some(depth)
        } else {
            None
        },
        SpecJitOp::ApplyClosure | SpecJitOp::Infix(_) => if depth >= 2 {
            Some(depth - 1)
        } else {
            None
        },
        SpecJitOp::Bind(_) | SpecJitOp::SetResult => if depth >= 1 {
            Some(depth - 1)
        } else {
            None
        },
    }
}

/// The height of the stack after `ops`, from height `depth`, or `None`
/// where some operation would take more values than there are.
pub open spec fn ops_height(ops: Seq<SpecJitOp>, depth: int) -> Option<int>
    decreases ops, 1nat,
{
    if ops.len() == 0 {
        Some(depth)
    } else {
        match op_height(ops[0], depth) {
            Some(d) => ops_height(ops.drop_first(), d),
            None => None,
        }
    }
}

proof fn lemma_height_concat(a: Seq<SpecJitOp>, b: Seq<SpecJitOp>, depth: int)
    ensures
        ops_height(a + b, depth) == match ops_height(a, depth) {
            Some(d) => ops_height(b, d),
            None => None,
        },
    decreases a.len(),
{
    if a.len() == 0 {
        assert(a + b =~= b);
    } else {
        assert((a + b)[0] == a[0]);
        assert((a + b).drop_first() =~= a.drop_first() + b);
        match op_height(a[0], depth) {
            Some(d) => lemma_height_concat(a.drop_first(), b, d),
            None => {},
        }
    }
}

proof fn lemma_height_one(o: SpecJitOp, depth: int)
    ensures
        ops_height(seq![o], depth) == op_height(o, depth),
{
    let s = seq![o];
    assert(s.drop_first() =~= Seq::<SpecJitOp>::empty());
    assert(s[0] == o);
    match op_height(o, depth) {
        Some(d) => {
            assert(ops_height(s.drop_first(), d) == Some(d));
        },
        None => {},
    }
}

/// The operations of an expression push its value and nothing else: from
/// any height they never take a value that is not there, and they end one
/// value higher.
pub proof fn law_expression_pushes_one_value(
    e: SpecExpr,
    module: Seq<(Seq<char>, ModuleBinding)>,
    locals: Set<Seq<char>>,
    ops: Seq<SpecJitOp>,
    depth: int,
)
    requires
        spec_expression_ops(e, module, locals) == Ok::<_, Seq<char>>(ops),
        depth >= 0,
    ensures
        ops_height(ops, depth) == Some(depth + 1),
    decreases e,
{
    match e {
        SpecExpr::Number(_) => {
            lemma_height_one(ops[0], depth);
        },
        SpecExpr::Ident(_) => {
            lemma_height_one(ops[0], depth);
        },
        SpecExpr::Apply(f, a) => {
            let callee = match *f {
                SpecExpr::Ident(n) => module_find(module, n),
                _ => None,
            };
            match callee {
                Some(ModuleBinding::TypeConstructor) => {
                    law_expression_pushes_one_value(*a, module, locals, ops, depth);
                },
                Some(ModuleBinding::Function) => {
                    let pa = spec_expression_ops(*a, module, locals)->Ok_0;
                    law_expression_pushes_one_value(*a, module, locals, pa, depth);
                    lemma_height_concat(pa, seq![SpecJitOp::CallImport(f->Ident_0)], depth);
                    lemma_height_one(SpecJitOp::CallImport(f->Ident_0), depth + 1);
                },
                None => {
                    let pf = spec_expression_ops(*f, module, locals)->Ok_0;
                    let pa = spec_expression_ops(*a, module, locals)->Ok_0;
                    law_expression_pushes_one_value(*f, module, locals, pf, depth);
                    law_expression_pushes_one_value(*a, module, locals, pa, depth + 1);
                    lemma_height_concat(pf, pa, depth);
                    lemma_height_concat(pf + pa, seq![SpecJitOp::ApplyClosure], depth);
                    lemma_height_one(SpecJitOp::ApplyClosure, depth + 2);
                },
            }
        },
        SpecExpr::Infix(op, l, r) => {
            let pl = spec_expression_ops(*l, module, locals)->Ok_0;
            let pr = spec_expression_ops(*r, module, locals)->Ok_0;
            law_expression_pushes_one_value(*l, module, locals, pl, depth);
            law_expression_pushes_one_value(*r, module, locals, pr, depth + 1);
            lemma_height_concat(pl, pr, depth);
            lemma_height_concat(pl + pr, seq![SpecJitOp::Infix(op)], depth);
            lemma_height_one(SpecJitOp::Infix(op), depth + 2);
        },
        SpecExpr::Lambda(ps, body) => {
            let names = module_names(module);
            let captured = free_set(*body, names, ps.to_set());
            let b = spec_expression_ops(*body, module, ps.to_set() + captured)->Ok_0;
            law_expression_pushes_one_value(*body, module, ps.to_set() + captured, b, 0);
            lemma_height_one(ops[0], depth);
        },
        _ => {},
    }
}

proof fn lemma_bindings_height(
    bs: Seq<SpecBinding>,
    module: Seq<(Seq<char>, ModuleBinding)>,
    locals: Set<Seq<char>>,
    ops: Seq<SpecJitOp>,
    depth: int,
)
    requires
        spec_bindings_ops(bs, module, locals).0 == Ok::<_, Seq<char>>(ops),
        depth >= 0,
    ensures
        ops_height(ops, depth) == Some(depth),
    decreases bs.len(),
{
    if bs.len() > 0 {
        let v = spec_expression_ops(bs[0].value, module, locals)->Ok_0;
        let rest = spec_bindings_ops(bs.drop_first(), module, locals.insert(bs[0].name)).0->Ok_0;
        law_expression_pushes_one_value(bs[0].value, module, locals, v, depth);
        lemma_bindings_height(bs.drop_first(), module, locals.insert(bs[0].name), rest, depth);
        lemma_height_one(SpecJitOp::Bind(bs[0].name), depth + 1);
        lemma_height_concat(v, seq![SpecJitOp::Bind(bs[0].name)], depth);
        lemma_height_concat(v + seq![SpecJitOp::Bind(bs[0].name)], rest, depth);
    }
}

proof fn lemma_blocks_height(
    bs: Seq<SpecBlock>,
    module: Seq<(Seq<char>, ModuleBinding)>,
    locals: Set<Seq<char>>,
    ops: Seq<SpecJitOp>,
)
    requires
        spec_blocks_ops(bs, module, locals) == Ok::<_, Seq<char>>(ops),
    ensures
        ops_height(ops, 0) == Some(0int),
    decreases bs.len(),
{
    if bs.len() > 0 {
        let (bindings, body) = match bs[0] {
            SpecBlock::Let(b, e) => (b, e),
            SpecBlock::ExprWhere(e, b) => (b, e),
            _ => (Seq::empty(), SpecExpr::Number(Seq::empty())),
        };
        if bs[0] is Let || bs[0] is ExprWhere {
            let (r1, l2) = spec_bindings_ops(bindings, module, locals);
            let p1 = r1->Ok_0;
            let pe = spec_expression_ops(body, module, l2)->Ok_0;
            let rest = spec_blocks_ops(bs.drop_first(), module, l2)->Ok_0;
            lemma_bindings_height(bindings, module, locals, p1, 0);
            law_expression_pushes_one_value(body, module, l2, pe, 0);
            lemma_blocks_height(bs.drop_first(), module, l2, rest);
            lemma_height_concat(p1, pe, 0);
            lemma_height_concat(p1 + pe, seq![SpecJitOp::SetResult], 0);
            lemma_height_one(SpecJitOp::SetResult, 1);
            lemma_height_concat(p1 + pe + seq![SpecJitOp::SetResult], rest, 0);
        } else {
            lemma_blocks_height(bs.drop_first(), module, locals, ops);
        }
    }
}

/// The operations of a program's main function never take a value that is
/// not on the stack, and leave the stack as they found it, empty: each
/// binding takes the value computed for it, and each block's body the
/// value that becomes the program's.
pub proof fn law_program_leaves_stack_empty(ast: Seq<SpecBlock>, ops: Seq<SpecJitOp>)
    requires
        spec_program_ops(ast) == Ok::<_, Seq<char>>(ops),
    ensures
        ops_height(ops, 0) == Some(0int),
{
    let module = module_names_of(ast, Seq::empty())->Ok_0;
    lemma_blocks_height(ast, module, Set::empty(), ops);
}

// ---------------------------------------------------------------------------
// The names that the operations read.
// ---------------------------------------------------------------------------

/// The names bound after `ops`, from `bound`.
pub open spec fn ops_bound(ops: Seq<SpecJitOp>, bound: Set<Seq<char>>) -> Set<Seq<char>>
    decreases ops.len(),
{
    if ops.len() == 0 {
        bound
    } else {
        match ops[0] {
            SpecJitOp::Bind(n) => ops_bound(ops.drop_first(), bound.insert(n)),
            _ => ops_bound(ops.drop_first(), bound),
        }
    }
}

/// Every name that `ops` read is bound where it is read, from `bound` on:
/// a lambda captures only bound names, and its body reads only its
/// parameters and what it captures.
pub open spec fn ops_scoped(ops: Seq<SpecJitOp>, bound: Set<Seq<char>>) -> bool
    decreases ops, 1nat,
{
    if ops.len() == 0 {
        true
    } else {
        op_scoped(ops[0], bound) && match ops[0] {
            SpecJitOp::Bind(n) => ops_scoped(ops.drop_first(), bound.insert(n)),
            _ => ops_scoped(ops.drop_first(), bound),
        }
    }
}

pub open spec fn op_scoped(o: SpecJitOp, bound: Set<Seq<char>>) -> bool
    decreases o, 0nat,
{
    match o {
        SpecJitOp::Local(n) => bound.contains(n),
        SpecJitOp::Lambda(ps, captured, body) => captured.subset_of(bound) && ops_scoped(
            body,
            ps.to_set() + captured,
        ),
        _ => true,
    }
}

proof fn lemma_scoped_concat(a: Seq<SpecJitOp>, b: Seq<SpecJitOp>, bound: Set<Seq<char>>)
    ensures
        ops_scoped(a + b, bound) == (ops_scoped(a, bound) && ops_scoped(b, ops_bound(a, bound))),
        ops_bound(a + b, bound) == ops_bound(b, ops_bound(a, bound)),
    decreases a.len(),
{
    if a.len() == 0 {
        assert(a + b =~= b);
    } else {
        assert((a + b)[0] == a[0]);
        assert((a + b).drop_first() =~= a.drop_first() + b);
        match a[0] {
            SpecJitOp::Bind(n) => lemma_scoped_concat(a.drop_first(), b, bound.insert(n)),
            _ => lemma_scoped_concat(a.drop_first(), b, bound),
        }
    }
}

proof fn lemma_scoped_one(o: SpecJitOp, bound: Set<Seq<char>>)
    ensures
        ops_scoped(seq![o], bound) == op_scoped(o, bound),
        ops_bound(seq![o], bound) == match o {
            SpecJitOp::Bind(n) => bound.insert(n),
            _ => bound,
        },
{
    let s = seq![o];
    assert(s.drop_first() =~= Seq::<SpecJitOp>::empty());
    assert(s[0] == o);
    match o {
        SpecJitOp::Bind(n) => {
            assert(ops_scoped(s.drop_first(), bound.insert(n)));
            assert(ops_bound(s.drop_first(), bound.insert(n)) == bound.insert(n));
        },
        _ => {
            assert(ops_scoped(s.drop_first(), bound));
            assert(ops_bound(s.drop_first(), bound) == bound);
        },
    }
}

proof fn lemma_module_find_index(module: Seq<(Seq<char>, ModuleBinding)>, n: Seq<char>) -> (i: int)
    requires
        module_find(module, n) is Some,
    ensures
        0 <= i < module.len(),
        module[i].0 == n,
    decreases module.len(),
{
    if module.last().0 == n {
        module.len() - 1
    } else {
        lemma_module_find_index(module.drop_last(), n)
    }
}

proof fn lemma_module_find_names(module: Seq<(Seq<char>, ModuleBinding)>, n: Seq<char>)
    requires
        module_find(module, n) is Some,
    ensures
        module_names(module).contains(n),
{
    let i = lemma_module_find_index(module, n);
    let names = module.map_values(|p: (Seq<char>, ModuleBinding)| p.0);
    assert(names[i] == n);
    assert(names.contains(n));
}

/// Where an expression compiles and reads no name missing from `locals`,
/// every name that it uses freely is in `locals`.
proof fn lemma_free_names_bound(
    e: SpecExpr,
    module: Seq<(Seq<char>, ModuleBinding)>,
    inner: Set<Seq<char>>,
    bound: Set<Seq<char>>,
    locals: Set<Seq<char>>,
)
    requires
        spec_expression_ops(e, module, inner) is Ok,
        first_missing(e, module_names(module), bound, locals) is None,
    ensures
        free_set(e, module_names(module), bound).subset_of(locals),
    decreases e,
{
    let names = module_names(module);
    match e {
        SpecExpr::Apply(f, a) => {
            let callee = match *f {
                SpecExpr::Ident(n) => module_find(module, n),
                _ => None,
            };
            match callee {
                Some(_) => {
                    lemma_module_find_names(module, f->Ident_0);
                    assert(free_set(*f, names, bound) =~= Set::<Seq<char>>::empty());
                    lemma_free_names_bound(*a, module, inner, bound, locals);
                },
                None => {
                    lemma_free_names_bound(*f, module, inner, bound, locals);
                    lemma_free_names_bound(*a, module, inner, bound, locals);
                },
            }
        },
        SpecExpr::Infix(_, l, r) => {
            lemma_free_names_bound(*l, module, inner, bound, locals);
            lemma_free_names_bound(*r, module, inner, bound, locals);
        },
        SpecExpr::Lambda(ps, body) => {
            let captured = free_set(*body, names, ps.to_set());
            lemma_free_names_bound(*body, module, ps.to_set() + captured, bound + ps.to_set(), locals);
        },
        _ => {},
    }
}

/// The operations of an expression read only names that are bound where
/// they are read, and bind none: each name from `locals`, and in a
/// lambda's body its parameters and the names it captures, which are all
/// in `locals` where the lambda is made.
pub proof fn law_expression_reads_bound_names(
    e: SpecExpr,
    module: Seq<(Seq<char>, ModuleBinding)>,
    locals: Set<Seq<char>>,
    ops: Seq<SpecJitOp>,
)
    requires
        spec_expression_ops(e, module, locals) == Ok::<_, Seq<char>>(ops),
    ensures
        ops_scoped(ops, locals),
        ops_bound(ops, locals) == locals,
    decreases e,
{
    match e {
        SpecExpr::Number(_) => {
            lemma_scoped_one(ops[0], locals);
        },
        SpecExpr::Ident(_) => {
            lemma_scoped_one(ops[0], locals);
        },
        SpecExpr::Apply(f, a) => {
            let callee = match *f {
                SpecExpr::Ident(n) => module_find(module, n),
                _ => None,
            };
            match callee {
                Some(ModuleBinding::TypeConstructor) => {
                    law_expression_reads_bound_names(*a, module, locals, ops);
                },
                Some(ModuleBinding::Function) => {
                    let pa = spec_expression_ops(*a, module, locals)->Ok_0;
                    law_expression_reads_bound_names(*a, module, locals, pa);
                    lemma_scoped_concat(pa, seq![SpecJitOp::CallImport(f->Ident_0)], locals);
                    lemma_scoped_one(SpecJitOp::CallImport(f->Ident_0), locals);
                },
                None => {
                    let pf = spec_expression_ops(*f, module, locals)->Ok_0;
                    let pa = spec_expression_ops(*a, module, locals)->Ok_0;
                    law_expression_reads_bound_names(*f, module, locals, pf);
                    law_expression_reads_bound_names(*a, module, locals, pa);
                    lemma_scoped_concat(pf, pa, locals);
                    lemma_scoped_concat(pf + pa, seq![SpecJitOp::ApplyClosure], locals);
                    lemma_scoped_one(SpecJitOp::ApplyClosure, locals);
                },
            }
        },
        SpecExpr::Infix(op, l, r) => {
            let pl = spec_expression_ops(*l, module, locals)->Ok_0;
            let pr = spec_expression_ops(*r, module, locals)->Ok_0;
            law_expression_reads_bound_names(*l, module, locals, pl);
            law_expression_reads_bound_names(*r, module, locals, pr);
            lemma_scoped_concat(pl, pr, locals);
            lemma_scoped_concat(pl + pr, seq![SpecJitOp::Infix(op)], locals);
            lemma_scoped_one(SpecJitOp::Infix(op), locals);
        },
        SpecExpr::Lambda(ps, body) => {
            let names = module_names(module);
            let captured = free_set(*body, names, ps.to_set());
            let inner = ps.to_set() + captured;
            let b = spec_expression_ops(*body, module, inner)->Ok_0;
            law_expression_reads_bound_names(*body, module, inner, b);
            lemma_free_names_bound(*body, module, inner, ps.to_set(), locals);
            lemma_scoped_one(ops[0], locals);
        },
        _ => {},
    }
}

proof fn lemma_bindings_scoped(
    bs: Seq<SpecBinding>,
    module: Seq<(Seq<char>, ModuleBinding)>,
    locals: Set<Seq<char>>,
    ops: Seq<SpecJitOp>,
)
    requires
        spec_bindings_ops(bs, module, locals).0 == Ok::<_, Seq<char>>(ops),
    ensures
        ops_scoped(ops, locals),
        ops_bound(ops, locals) == spec_bindings_ops(bs, module, locals).1,
    decreases bs.len(),
{
    if bs.len() > 0 {
        let l1 = locals.insert(bs[0].name);
        let v = spec_expression_ops(bs[0].value, module, locals)->Ok_0;
        let rest = spec_bindings_ops(bs.drop_first(), module, l1).0->Ok_0;
        let bind = seq![SpecJitOp::Bind(bs[0].name)];
        law_expression_reads_bound_names(bs[0].value, module, locals, v);
        lemma_bindings_scoped(bs.drop_first(), module, l1, rest);
        lemma_scoped_one(SpecJitOp::Bind(bs[0].name), locals);
        lemma_scoped_concat(v, bind, locals);
        lemma_scoped_concat(v + bind, rest, locals);
    } else {
        assert(ops =~= Seq::<SpecJitOp>::empty());
    }
}

proof fn lemma_blocks_scoped(
    bs: Seq<SpecBlock>,
    module: Seq<(Seq<char>, ModuleBinding)>,
    locals: Set<Seq<char>>,
    ops: Seq<SpecJitOp>,
)
    requires
        spec_blocks_ops(bs, module, locals) == Ok::<_, Seq<char>>(ops),
    ensures
        ops_scoped(ops, locals),
    decreases bs.len(),
{
    if bs.len() > 0 {
        let (bindings, body) = match bs[0] {
            SpecBlock::Let(b, e) => (b, e),
            SpecBlock::ExprWhere(e, b) => (b, e),
            _ => (Seq::empty(), SpecExpr::Number(Seq::empty())),
        };
        if bs[0] is Let || bs[0] is ExprWhere {
            let (r1, l2) = spec_bindings_ops(bindings, module, locals);
            let p1 = r1->Ok_0;
            let pe = spec_expression_ops(body, module, l2)->Ok_0;
            let rest = spec_blocks_ops(bs.drop_first(), module, l2)->Ok_0;
            let set = seq![SpecJitOp::SetResult];
            lemma_bindings_scoped(bindings, module, locals, p1);
            law_expression_reads_bound_names(body, module, l2, pe);
            lemma_blocks_scoped(bs.drop_first(), module, l2, rest);
            lemma_scoped_concat(p1, pe, locals);
            lemma_scoped_one(SpecJitOp::SetResult, l2);
            lemma_scoped_concat(p1 + pe, set, locals);
            lemma_scoped_concat(p1 + pe + set, rest, locals);
        } else {
            lemma_blocks_scoped(bs.drop_first(), module, locals, ops);
        }
    }
}

/// The operations of a program's main function read only names bound
/// before them: a binding's value sees the names bound earlier, a body all
/// the names of its block and the blocks before it.
pub proof fn law_program_reads_bound_names(ast: Seq<SpecBlock>, ops: Seq<SpecJitOp>)
    requires
        spec_program_ops(ast) == Ok::<_, Seq<char>>(ops),
    ensures
        ops_scoped(ops, Set::empty()),
{
    let module = module_names_of(ast, Seq::empty())->Ok_0;
    lemma_blocks_scoped(ast, module, Set::empty(), ops);
}

// ---------------------------------------------------------------------------
// Executable.
// ---------------------------------------------------------------------------

proof fn lemma_ops_view_concat(a: Seq<JitOp>, b: Seq<JitOp>)
    ensures
        ops_view(a + b) == ops_view(a) + ops_view(b),
    decreases a.len(),
{
    if a.len() == 0 {
        assert(a + b =~= b);
        assert(ops_view(a) + ops_view(b) =~= ops_view(b));
    } else {
        assert((a + b).drop_first() =~= a.drop_first() + b);
        assert((a + b)[0] == a[0]);
        lemma_ops_view_concat(a.drop_first(), b);
        assert(ops_view(a + b) =~= ops_view(a) + ops_view(b));
    }
}

proof fn lemma_ops_view_one(o: JitOp)
    ensures
        ops_view(seq![o]) == seq![op_view(o)],
{
    let s = seq![o];
    assert(s.drop_first() =~= Seq::<JitOp>::empty());
    assert(ops_view(s.drop_first()) == Seq::<SpecJitOp>::empty());
    assert(s[0] == o);
    assert(ops_view(s) == seq![op_view(s[0])] + ops_view(s.drop_first()));
    assert(seq![op_view(o)] + Seq::<SpecJitOp>::empty() =~= seq![op_view(o)]);
}

fn then_exec(a: Result<Vec<JitOp>, String>, b: Result<Vec<JitOp>, String>) -> (r: Result<
    Vec<JitOp>,
    String,
>)
    ensures
        ops_result_view(r) == ops_then(ops_result_view(a), ops_result_view(b)),
{
    match a {
        Err(m) => Err(m),
        Ok(mut p) => match b {
            Err(m) => Err(m),
            Ok(mut q) => {
                let ghost (pv, qv) = (p@, q@);
                p.append(&mut q);
                proof {
                    assert(p@ =~= pv + qv);
                    lemma_ops_view_concat(pv, qv);
                }
                Ok(p)
            },
        },
    }
}

fn single(o: JitOp) -> (r: Result<Vec<JitOp>, String>)
    ensures
        ops_result_view(r) == Ok::<_, Seq<char>>(seq![op_view(o)]),
{
    let ghost g = o;
    let v = vec![o];
    proof {
        assert(v@ =~= seq![g]);
        lemma_ops_view_one(g);
    }
    Ok(v)
}

fn push_exec(a: Result<Vec<JitOp>, String>, o: JitOp) -> (r: Result<Vec<JitOp>, String>)
    ensures
        ops_result_view(r) == ops_push(ops_result_view(a), op_view(o)),
{
    then_exec(a, single(o))
}

/// `a` followed by `b`, as a list of names.
fn concat_names(a: &Vec<String>, b: &Vec<String>) -> (r: Vec<String>)
    ensures
        strings_view(r@).to_set() == strings_view(a@).to_set() + strings_view(b@).to_set(),
{
    let mut r: Vec<String> = Vec::new();
    let mut i: usize = 0;
    proof {
        assert(strings_view(r@).to_set() =~= Set::<Seq<char>>::empty());
    }
    while i < a.len()
        invariant
            i <= a@.len(),
            strings_view(r@).to_set() == strings_view(a@.take(i as int)).to_set(),
        decreases a@.len() - i,
    {
        let ghost before = r@;
        r.push(a[i].clone());
        proof {
            lemma_strings_view_push(before, a@[i as int]);
            lemma_push_to_set(strings_view(before), a@[i as int]@);
            assert(a@.take(i + 1) =~= a@.take(i as int).push(a@[i as int]));
            lemma_strings_view_push(a@.take(i as int), a@[i as int]);
            lemma_push_to_set(strings_view(a@.take(i as int)), a@[i as int]@);
        }
        i = i + 1;
    }
    let mut j: usize = 0;
    proof {
        assert(a@.take(a@.len() as int) =~= a@);
        assert(strings_view(b@.take(0)).to_set() =~= Set::<Seq<char>>::empty());
        assert(strings_view(a@).to_set() + Set::<Seq<char>>::empty() =~= strings_view(a@).to_set());
    }
    while j < b.len()
        invariant
            j <= b@.len(),
            strings_view(r@).to_set() == strings_view(a@).to_set() + strings_view(b@.take(j as int)).to_set(),
        decreases b@.len() - j,
    {
        let ghost before = r@;
        r.push(b[j].clone());
        proof {
            lemma_strings_view_push(before, b@[j as int]);
            lemma_push_to_set(strings_view(before), b@[j as int]@);
            assert(b@.take(j + 1) =~= b@.take(j as int).push(b@[j as int]));
            lemma_strings_view_push(b@.take(j as int), b@[j as int]);
            lemma_push_to_set(strings_view(b@.take(j as int)), b@[j as int]@);
            assert(strings_view(r@).to_set() =~= strings_view(a@).to_set() + strings_view(
                b@.take(j + 1),
            ).to_set());
        }
        j = j + 1;
    }
    proof {
        assert(b@.take(b@.len() as int) =~= b@);
    }
    r
}

/// The names that `module` binds, in order.
fn module_name_list(module: &Vec<(String, ModuleBinding)>) -> (r: Vec<String>)
    ensures
        strings_view(r@).to_set() == module_names(module_view(module@)),
{
    let mut r: Vec<String> = Vec::new();
    let mut i: usize = 0;
    while i < module.len()
        invariant
            i <= module@.len(),
            strings_view(r@) == module_view(module@).take(i as int).map_values(
                |p: (Seq<char>, ModuleBinding)| p.0,
            ),
        decreases module@.len() - i,
    {
        let ghost before = r@;
        r.push(module[i].0.clone());
        proof {
            lemma_strings_view_push(before, module@[i as int].0);
            assert(module_view(module@).take(i + 1).map_values(|p: (Seq<char>, ModuleBinding)| p.0)
                =~= module_view(module@).take(i as int).map_values(
                |p: (Seq<char>, ModuleBinding)| p.0,
            ).push(module@[i as int].0@));
        }
        i = i + 1;
    }
    proof {
        assert(module_view(module@).take(i as int) =~= module_view(module@));
    }
    r
}

fn missing_message(n: &String) -> (m: String)
    ensures
        m@ == "free variable "@ + n@ + " not found in local environment"@,
{
    let mut m = String::from_str("free variable ");
    m.append(n.as_str());
    m.append(" not found in local environment");
    m
}

/// The first name, in reading order, that `e` uses and that neither
/// `bound`, `module` nor `locals` binds.
fn first_missing_exec(e: &Expr, module: &Vec<String>, bound: &Vec<String>, locals: &Vec<String>) -> (r:
    Option<String>)
    ensures
        match r {
            Some(n) => first_missing(
                e@,
                strings_view(module@).to_set(),
                strings_view(bound@).to_set(),
                strings_view(locals@).to_set(),
            ) == Some(n@),
            None => first_missing(
                e@,
                strings_view(module@).to_set(),
                strings_view(bound@).to_set(),
                strings_view(locals@).to_set(),
            ) is None,
        },
    decreases e,
{
    match e {
        Expr::Ident(n) => {
            if !contains_name(bound, n) && !contains_name(module, n) && !contains_name(locals, n) {
                proof {
                    assert(strings_view(bound@).to_set().contains(n@) == strings_view(bound@).contains(n@));
                }
                Some(n.clone())
            } else {
                None
            }
        },
        Expr::Number(_) => None,
        Expr::Apply { func, arg } => match first_missing_exec(func, module, bound, locals) {
            Some(n) => Some(n),
            None => first_missing_exec(arg, module, bound, locals),
        },
        Expr::Lambda { params, body } => {
            let nb = concat_names(bound, params);
            first_missing_exec(body, module, &nb, locals)
        },
        Expr::Infix { left, right, .. } => match first_missing_exec(left, module, bound, locals) {
            Some(n) => Some(n),
            None => first_missing_exec(right, module, bound, locals),
        },
        Expr::Prefix { expr, .. } => first_missing_exec(expr, module, bound, locals),
        Expr::Access { target, .. } => first_missing_exec(target, module, bound, locals),
        Expr::Record(_) => None,
    }
}

/// The operations that compute `e`, with the names `locals` bound and the
/// names of `module` at module level.
pub fn expression_ops(e: &Expr, module: &Vec<(String, ModuleBinding)>, locals: &Vec<String>) -> (r:
    Result<Vec<JitOp>, String>)
    ensures
        ops_result_view(r) == spec_expression_ops(
            e@,
            module_view(module@),
            strings_view(locals@).to_set(),
        ),
    decreases e,
{
    match e {
        Expr::Number(text) => match number_constant(text) {
            Ok(n) => single(JitOp::Const(n, TAG_NUMBER)),
            Err(m) => Err(m),
        },
        Expr::Ident(name) => match module_lookup(module, name) {
            Some(b) => Err(unapplied_module_name(name, b)),
            None => {
                proof {
                    assert(strings_view(locals@).to_set().contains(name@) == strings_view(locals@).contains(name@));
                }
                if contains_name(locals, name) {
                    single(JitOp::Local(name.clone()))
                } else {
                    Err(undefined_identifier(name))
                }
            },
        },
        Expr::Apply { func, arg } => {
            let callee = match &**func {
                Expr::Ident(n) => {
                    assert(func@ == SpecExpr::Ident(n@));
                    module_lookup(module, n)
                },
                _ => None,
            };
            assert(callee == match func@ {
                SpecExpr::Ident(n) => module_find(module_view(module@), n),
                _ => None,
            });
            match callee {
                Some(ModuleBinding::TypeConstructor) => expression_ops(arg, module, locals),
                Some(ModuleBinding::Function) => {
                    let name = match &**func {
                        Expr::Ident(n) => n.clone(),
                        _ => String::new(),
                    };
                    push_exec(expression_ops(arg, module, locals), JitOp::CallImport(name))
                },
                None => {
                    let f = expression_ops(func, module, locals);
                    let a = expression_ops(arg, module, locals);
                    push_exec(then_exec(f, a), JitOp::ApplyClosure)
                },
            }
        },
        Expr::Infix { op, left, right } => {
            let l = expression_ops(left, module, locals);
            let rt = expression_ops(right, module, locals);
            push_exec(then_exec(l, rt), JitOp::Infix(*op))
        },
        Expr::Lambda { params, body } => {
            if params.len() == 0 {
                return Err(String::from_str("lambda must have at least one parameter"));
            }
            let names = module_name_list(module);
            let free = free_variables(body, &names, params);
            let inner = concat_names(params, &free);
            match expression_ops(body, module, &inner) {
                Err(m) => Err(m),
                Ok(b) => {
                    let bound = crate::value::clone_strings(params);
                    match first_missing_exec(body, &names, &bound, locals) {
                        Some(n) => Err(missing_message(&n)),
                        None => {
                            let ghost (pv, fv, bv) = (params@, free@, b@);
                            let ps = crate::value::clone_strings(params);
                            let o = JitOp::Lambda(ps, free, b);
                            assert(op_view(o) == SpecJitOp::Lambda(
                                strings_view(pv),
                                strings_view(fv).to_set(),
                                ops_view(bv),
                            ));
                            single(o)
                        },
                    }
                },
            }
        },
        _ => Err(String::from_str("unsupported expression in JIT")),
    }
}


proof fn lemma_bindings_skip(bs: Seq<Binding>, i: int)
    requires
        0 <= i < bs.len(),
    ensures
        bindings_view(bs.skip(i)).len() > 0,
        bindings_view(bs.skip(i))[0] == (SpecBinding { name: bs[i].name@, value: bs[i].value@ }),
        bindings_view(bs.skip(i)).drop_first() == bindings_view(bs.skip(i + 1)),
{
    let t = bs.skip(i);
    assert(t[0] == bs[i]);
    assert(t.drop_first() =~= bs.skip(i + 1));
    let head = seq![SpecBinding { name: t[0].name@, value: expr_view(t[0].value) }];
    assert((head + bindings_view(t.drop_first())).drop_first() =~= bindings_view(t.drop_first()));
}

/// The operations of the bindings `bs[i..]`: each value with the names
/// bound so far, then bound itself.
fn bindings_ops_from(
    bs: &Vec<Binding>,
    i: usize,
    module: &Vec<(String, ModuleBinding)>,
    locals: &mut Vec<String>,
) -> (r: Result<Vec<JitOp>, String>)
    requires
        i <= bs@.len(),
    ensures
        ops_result_view(r) == spec_bindings_ops(
            bindings_view(bs@.skip(i as int)),
            module_view(module@),
            strings_view(old(locals)@).to_set(),
        ).0,
        r is Ok ==> strings_view(final(locals)@).to_set() == spec_bindings_ops(
            bindings_view(bs@.skip(i as int)),
            module_view(module@),
            strings_view(old(locals)@).to_set(),
        ).1,
    decreases bs@.len() - i,
{
    if i == bs.len() {
        proof {
            assert(bs@.skip(i as int) =~= Seq::<Binding>::empty());
            assert(ops_view(Seq::<JitOp>::empty()) =~= Seq::<SpecJitOp>::empty());
        }
        return Ok(Vec::new());
    }
    proof {
        lemma_bindings_skip(bs@, i as int);
    }
    let first = expression_ops(&bs[i].value, module, locals);
    let first = push_exec(first, JitOp::Bind(bs[i].name.clone()));
    if first.is_err() {
        return first;
    }
    let ghost before = locals@;
    locals.push(bs[i].name.clone());
    proof {
        lemma_strings_view_push(before, bs@[i as int].name);
        lemma_push_to_set(strings_view(before), bs@[i as int].name@);
    }
    let rest = bindings_ops_from(bs, i + 1, module, locals);
    then_exec(first, rest)
}

/// The operations of the blocks `blocks[i..]`: each block with a body binds
/// its names, then sets the program's value to its body's.
fn blocks_ops_from(
    blocks: &Vec<Block>,
    i: usize,
    module: &Vec<(String, ModuleBinding)>,
    locals: &mut Vec<String>,
) -> (r: Result<Vec<JitOp>, String>)
    requires
        i <= blocks@.len(),
    ensures
        ops_result_view(r) == spec_blocks_ops(
            blocks@.map_values(|b: Block| b@).skip(i as int),
            module_view(module@),
            strings_view(old(locals)@).to_set(),
        ),
    decreases blocks@.len() - i,
{
    let ghost bv = blocks@.map_values(|b: Block| b@);
    let ghost l0 = strings_view(locals@).to_set();
    if i == blocks.len() {
        proof {
            assert(bv.skip(i as int) =~= Seq::<SpecBlock>::empty());
            assert(ops_view(Seq::<JitOp>::empty()) =~= Seq::<SpecJitOp>::empty());
        }
        return Ok(Vec::new());
    }
    proof {
        assert(bv.skip(i as int)[0] == blocks@[i as int]@);
        assert(bv.skip(i as int).drop_first() =~= bv.skip(i + 1));
    }
    let (bindings, body) = match &blocks[i] {
        Block::Let(b) => (&b.bindings, &b.body),
        Block::ExprWhere(b) => (&b.bindings, &b.body),
        _ => {
            return blocks_ops_from(blocks, i + 1, module, locals);
        },
    };
    proof {
        assert(bindings@.skip(0) =~= bindings@);
    }
    let first = bindings_ops_from(bindings, 0, module, locals);
    if first.is_err() {
        return first;
    }
    let value = expression_ops(body, module, locals);
    let first = push_exec(then_exec(first, value), JitOp::SetResult);
    if first.is_err() {
        return first;
    }
    let rest = blocks_ops_from(blocks, i + 1, module, locals);
    then_exec(first, rest)
}

/// The operations of a program's main function. Its value starts as `()`
/// and each block with a body sets it; a binding's value sees the names
/// bound before it, and each body sees all of them.
pub fn program_ops(ast: &Ast) -> (r: Result<Vec<JitOp>, String>)
    ensures
        ops_result_view(r) == spec_program_ops(ast@),
{
    let module = match module_bindings(ast) {
        Ok(m) => m,
        Err(e) => return Err(e),
    };
    let mut locals: Vec<String> = Vec::new();
    proof {
        assert(ast.0@.map_values(|b: Block| b@).skip(0) =~= ast@);
        assert(strings_view(locals@).to_set() =~= Set::<Seq<char>>::empty());
    }
    blocks_ops_from(&ast.0, 0, &module, &mut locals)
}

} // verus!
