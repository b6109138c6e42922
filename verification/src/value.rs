//! Runtime values, environments, and how a value is written out.
use vstd::prelude::*;

use crate::ast::{bindings_view, strings_view, Binding, Expr, SpecExpr};
use crate::text::{chars_of, decimal, push_decimal, string_from_chars};

verus! {

/// A function that the runtime provides.
#[derive(Clone, Copy, Debug, PartialEq, Eq, Structural)]
pub enum Builtin {
    /// Writes its argument on a line of its own and gives back `()`.
    Echo,
}

#[derive(Debug, PartialEq)]
pub enum Value {
    Number(i64),
    Unit,
    TypeConstructor(String),
    TypeInstance(String, Box<Value>),
    Closure { params: Vec<String>, body: Expr, env: Env },
    Builtin(Builtin),
    Record(Vec<(String, Value)>),
}

/// The names in scope, oldest first; a later binding hides an earlier one of
/// the same name.
#[derive(Debug, PartialEq)]
pub struct Env {
    pub bindings: Vec<(String, Value)>,
}

pub enum SpecValue {
    Number(i64),
    Unit,
    TypeConstructor(Seq<char>),
    TypeInstance(Seq<char>, Box<SpecValue>),
    Closure(Seq<Seq<char>>, SpecExpr, Seq<(Seq<char>, SpecValue)>),
    Builtin(Builtin),
    Record(Seq<(Seq<char>, SpecValue)>),
}

/// An environment: name and value pairs, oldest first.
pub type SpecEnv = Seq<(Seq<char>, SpecValue)>;

pub open spec fn value_view(v: Value) -> SpecValue
    decreases v,
{
    match v {
        Value::Number(n) => SpecValue::Number(n),
        Value::Unit => SpecValue::Unit,
        Value::TypeConstructor(n) => SpecValue::TypeConstructor(n@),
        Value::TypeInstance(n, inner) => SpecValue::TypeInstance(n@, Box::new(value_view(*inner))),
        Value::Closure { params, body, env } => SpecValue::Closure(
            strings_view(params@),
            body@,
            pairs_view(env.bindings@),
        ),
        Value::Builtin(b) => SpecValue::Builtin(b),
        Value::Record(fields) => SpecValue::Record(pairs_view(fields@)),
    }
}

pub open spec fn pairs_view(ps: Seq<(String, Value)>) -> SpecEnv
    decreases ps,
{
    if ps.len() == 0 {
        Seq::empty()
    } else {
        seq![(ps[0].0@, value_view(ps[0].1))] + pairs_view(ps.drop_first())
    }
}

impl View for Value {
    type V = SpecValue;

    open spec fn view(&self) -> SpecValue {
        value_view(*self)
    }
}

impl View for Env {
    type V = SpecEnv;

    open spec fn view(&self) -> SpecEnv {
        pairs_view(self.bindings@)
    }
}

/// The most recent value bound to `name`.
pub open spec fn lookup(env: SpecEnv, name: Seq<char>) -> Option<SpecValue>
    decreases env.len(),
{
    if env.len() == 0 {
        None
    } else if env.last().0 == name {
        Some(env.last().1)
    } else {
        lookup(env.drop_last(), name)
    }
}

/// The value of the first field named `name`.
pub open spec fn field_of(fields: Seq<(Seq<char>, SpecValue)>, name: Seq<char>) -> Option<
    SpecValue,
>
    decreases fields.len(),
{
    if fields.len() == 0 {
        None
    } else if fields[0].0 == name {
        Some(fields[0].1)
    } else {
        field_of(fields.drop_first(), name)
    }
}

/// How a value is written out.
pub open spec fn display(v: SpecValue) -> Seq<char>
    decreases v,
{
    match v {
        SpecValue::Number(n) => decimal(n),
        SpecValue::Unit => "()"@,
        SpecValue::TypeConstructor(n) => "<type "@ + n + ">"@,
        SpecValue::TypeInstance(_, inner) => display(*inner),
        SpecValue::Closure(..) => "<closure>"@,
        SpecValue::Builtin(Builtin::Echo) => "<builtin echo>"@,
        SpecValue::Record(fields) => "{ "@ + fields_text(fields) + " }"@,
    }
}

/// `name = value` for each field, separated by `, `.
pub open spec fn fields_text(fields: Seq<(Seq<char>, SpecValue)>) -> Seq<char>
    decreases fields,
{
    if fields.len() == 0 {
        Seq::empty()
    } else {
        let first = fields[0].0 + " = "@ + display(fields[0].1);
        if fields.len() == 1 {
            first
        } else {
            first + ", "@ + fields_text(fields.drop_first())
        }
    }
}

proof fn lemma_pairs_view_prepend(p: (String, Value), s: Seq<(String, Value)>)
    ensures
        pairs_view(seq![p] + s) == seq![(p.0@, p.1@)] + pairs_view(s),
{
    assert((seq![p] + s).drop_first() =~= s);
    assert((seq![p] + s)[0] == p);
}

pub proof fn lemma_pairs_view_push(s: Seq<(String, Value)>, p: (String, Value))
    ensures
        pairs_view(s.push(p)) == pairs_view(s).push((p.0@, p.1@)),
    decreases s.len(),
{
    if s.len() == 0 {
        assert(s.push(p).drop_first() =~= s);
        assert(pairs_view(s) =~= Seq::<(Seq<char>, SpecValue)>::empty());
        assert(pairs_view(s.push(p)) =~= seq![(p.0@, p.1@)]);
    } else {
        lemma_pairs_view_push(s.drop_first(), p);
        assert(s.push(p).drop_first() =~= s.drop_first().push(p));
        assert(pairs_view(s.push(p)) =~= pairs_view(s).push((p.0@, p.1@)));
    }
}

pub proof fn lemma_pairs_view_len(s: Seq<(String, Value)>)
    ensures
        pairs_view(s).len() == s.len(),
    decreases s.len(),
{
    if s.len() > 0 {
        lemma_pairs_view_len(s.drop_first());
    }
}

pub proof fn lemma_pairs_view_index(s: Seq<(String, Value)>, i: int)
    requires
        0 <= i < s.len(),
    ensures
        pairs_view(s)[i] == (s[i].0@, s[i].1@),
    decreases s.len(),
{
    lemma_pairs_view_len(s);
    if i > 0 {
        lemma_pairs_view_index(s.drop_first(), i - 1);
    }
}

pub proof fn lemma_pairs_view_skip(s: Seq<(String, Value)>, i: int)
    requires
        0 <= i <= s.len(),
    ensures
        pairs_view(s.skip(i)) == pairs_view(s).skip(i),
    decreases i,
{
    lemma_pairs_view_len(s);
    if i > 0 {
        lemma_pairs_view_skip(s.drop_first(), i - 1);
        assert(s.drop_first().skip(i - 1) =~= s.skip(i));
        assert(pairs_view(s).drop_first().skip(i - 1) =~= pairs_view(s).skip(i));
        assert(pairs_view(s).drop_first() =~= pairs_view(s.drop_first()));
    } else {
        assert(s.skip(0) =~= s);
        assert(pairs_view(s).skip(0) =~= pairs_view(s));
    }
}

pub proof fn lemma_pairs_view_take(s: Seq<(String, Value)>, i: int)
    requires
        0 <= i <= s.len(),
    ensures
        pairs_view(s.take(i)) == pairs_view(s).take(i),
    decreases i,
{
    lemma_pairs_view_len(s);
    if i > 0 {
        lemma_pairs_view_take(s, i - 1);
        assert(s.take(i) =~= s.take(i - 1).push(s[i - 1]));
        lemma_pairs_view_push(s.take(i - 1), s[i - 1]);
        lemma_pairs_view_index(s, i - 1);
        assert(pairs_view(s).take(i) =~= pairs_view(s).take(i - 1).push(pairs_view(s)[i - 1]));
    } else {
        assert(s.take(0) =~= Seq::<(String, Value)>::empty());
        assert(pairs_view(s).take(0) =~= Seq::<(Seq<char>, SpecValue)>::empty());
    }
}

// ---------------------------------------------------------------------------
// Copies.
// ---------------------------------------------------------------------------

pub fn clone_strings(v: &Vec<String>) -> (r: Vec<String>)
    ensures
        r@ == v@,
{
    let mut r: Vec<String> = Vec::new();
    for i in 0..v.len()
        invariant
            r@ == v@.take(i as int),
    {
        r.push(v[i].clone());
        assert(v@.take(i + 1) =~= v@.take(i as int).push(v@[i as int]));
    }
    assert(v@.take(v@.len() as int) =~= v@);
    r
}

pub fn clone_expr(e: &Expr) -> (r: Expr)
    ensures
        r@ == e@,
    decreases e,
{
    match e {
        Expr::Ident(n) => Expr::Ident(n.clone()),
        Expr::Number(n) => Expr::Number(n.clone()),
        Expr::Apply { func, arg } => Expr::Apply {
            func: Box::new(clone_expr(func)),
            arg: Box::new(clone_expr(arg)),
        },
        Expr::Lambda { params, body } => Expr::Lambda {
            params: clone_strings(params),
            body: Box::new(clone_expr(body)),
        },
        Expr::Access { target, field, kind } => Expr::Access {
            target: Box::new(clone_expr(target)),
            field: field.clone(),
            kind: *kind,
        },
        Expr::Prefix { op, expr } => Expr::Prefix { op: *op, expr: Box::new(clone_expr(expr)) },
        Expr::Infix { op, left, right } => Expr::Infix {
            op: *op,
            left: Box::new(clone_expr(left)),
            right: Box::new(clone_expr(right)),
        },
        Expr::Record(fields) => Expr::Record(clone_bindings(fields)),
    }
}

pub fn clone_bindings(v: &Vec<Binding>) -> (r: Vec<Binding>)
    ensures
        bindings_view(r@) == bindings_view(v@),
    decreases v,
{
    let mut r: Vec<Binding> = Vec::new();
    let mut i: usize = v.len();
    while i > 0
        invariant
            i <= v@.len(),
            bindings_view(r@) == bindings_view(v@.skip(i as int)),
        decreases i,
    {
        i = i - 1;
        assert(decreases_to!(v => v@[i as int].value));
        let b = Binding { name: v[i].name.clone(), value: clone_expr(&v[i].value) };
        let ghost old_r = r@;
        r.insert(0, b);
        proof {
            assert(r@ =~= seq![b] + old_r);
            assert((seq![b] + old_r).drop_first() =~= old_r);
            assert(v@.skip(i as int).drop_first() =~= v@.skip(i + 1));
            assert(v@.skip(i as int)[0] == v@[i as int]);
        }
    }
    assert(v@.skip(0) =~= v@);
    r
}

pub fn clone_value(v: &Value) -> (r: Value)
    ensures
        r@ == v@,
    decreases v,
{
    match v {
        Value::Number(n) => Value::Number(*n),
        Value::Unit => Value::Unit,
        Value::TypeConstructor(n) => Value::TypeConstructor(n.clone()),
        Value::TypeInstance(n, inner) => Value::TypeInstance(n.clone(), Box::new(clone_value(inner))),
        Value::Closure { params, body, env } => Value::Closure {
            params: clone_strings(params),
            body: clone_expr(body),
            env: Env { bindings: clone_pairs(&env.bindings) },
        },
        Value::Builtin(b) => Value::Builtin(*b),
        Value::Record(fields) => Value::Record(clone_pairs(fields)),
    }
}

pub fn clone_pairs(v: &Vec<(String, Value)>) -> (r: Vec<(String, Value)>)
    ensures
        pairs_view(r@) == pairs_view(v@),
    decreases v,
{
    let mut r: Vec<(String, Value)> = Vec::new();
    let mut i: usize = v.len();
    while i > 0
        invariant
            i <= v@.len(),
            pairs_view(r@) == pairs_view(v@.skip(i as int)),
        decreases i,
    {
        i = i - 1;
        assert(decreases_to!(v => v@[i as int].1));
        let p = (v[i].0.clone(), clone_value(&v[i].1));
        let ghost old_r = r@;
        r.insert(0, p);
        proof {
            assert(r@ =~= seq![p] + old_r);
            lemma_pairs_view_prepend(p, old_r);
            assert(v@.skip(i as int).drop_first() =~= v@.skip(i + 1));
            assert(v@.skip(i as int)[0] == v@[i as int]);
        }
    }
    assert(v@.skip(0) =~= v@);
    r
}

impl Env {
    /// The empty environment.
    pub fn new() -> (env: Env)
        ensures
            env@ == Seq::<(Seq<char>, SpecValue)>::empty(),
    {
        Env { bindings: Vec::new() }
    }

    /// A copy of the most recent value bound to `name`.
    pub fn get(&self, name: &String) -> (r: Option<Value>)
        ensures
            match r {
                Some(v) => lookup(self@, name@) == Some(v@),
                None => lookup(self@, name@) is None,
            },
    {
        let mut i = self.bindings.len();
        proof {
            lemma_pairs_view_take(self.bindings@, i as int);
            assert(self.bindings@.take(i as int) =~= self.bindings@);
        }
        while i > 0
            invariant
                i <= self.bindings@.len(),
                lookup(self@, name@) == lookup(pairs_view(self.bindings@.take(i as int)), name@),
            decreases i,
        {
            let ghost pre = pairs_view(self.bindings@.take(i as int));
            proof {
                lemma_pairs_view_take(self.bindings@, i as int);
                lemma_pairs_view_take(self.bindings@, i - 1);
                lemma_pairs_view_len(self.bindings@);
                lemma_pairs_view_index(self.bindings@, i - 1);
                assert(pre.last() == (self.bindings@[i - 1].0@, self.bindings@[i - 1].1@));
                assert(pre.drop_last() =~= pairs_view(self.bindings@.take(i - 1)));
            }
            if self.bindings[i - 1].0 == *name {
                return Some(clone_value(&self.bindings[i - 1].1));
            }
            i = i - 1;
        }
        None
    }

    /// This environment with `name` bound to `value`.
    pub fn define(self, name: String, value: Value) -> (env: Env)
        ensures
            env@ == self@.push((name@, value@)),
    {
        let ghost before = self.bindings@;
        let mut bindings = self.bindings;
        let pair = (name, value);
        bindings.push(pair);
        proof {
            lemma_pairs_view_push(before, pair);
        }
        Env { bindings }
    }

    /// A deep copy of this environment.
    pub fn copy(&self) -> (env: Env)
        ensures
            env@ == self@,
    {
        Env { bindings: clone_pairs(&self.bindings) }
    }
}

// ---------------------------------------------------------------------------
// Writing values out.
// ---------------------------------------------------------------------------

pub fn push_str(out: &mut Vec<char>, s: &str)
    ensures
        final(out)@ == old(out)@ + s@,
{
    let cs = chars_of(s);
    for i in 0..cs.len()
        invariant
            out@ == old(out)@ + cs@.take(i as int),
    {
        out.push(cs[i]);
        assert(cs@.take(i + 1) =~= cs@.take(i as int).push(cs@[i as int]));
    }
    assert(cs@.take(cs@.len() as int) =~= cs@);
}

fn push_chars(out: &mut Vec<char>, s: &String)
    ensures
        final(out)@ == old(out)@ + s@,
{
    push_str(out, s.as_str());
}

fn display_into(v: &Value, out: &mut Vec<char>)
    ensures
        final(out)@ == old(out)@ + display(v@),
    decreases v,
{
    match v {
        Value::Number(n) => push_decimal(*n, out),
        Value::Unit => push_str(out, "()"),
        Value::TypeConstructor(n) => {
            push_str(out, "<type ");
            push_chars(out, n);
            push_str(out, ">");
            assert(old(out)@ + display(v@) =~= old(out)@ + "<type "@ + n@ + ">"@);
        },
        Value::TypeInstance(_, inner) => display_into(inner, out),
        Value::Closure { .. } => push_str(out, "<closure>"),
        Value::Builtin(Builtin::Echo) => push_str(out, "<builtin echo>"),
        Value::Record(fields) => {
            push_str(out, "{ ");
            fields_into(fields, 0, out);
            push_str(out, " }");
            proof {
                assert(fields@.skip(0) =~= fields@);
                assert(old(out)@ + display(v@) =~= old(out)@ + "{ "@ + fields_text(
                    pairs_view(fields@),
                ) + " }"@);
            }
        },
    }
}

fn fields_into(fields: &Vec<(String, Value)>, i: usize, out: &mut Vec<char>)
    requires
        i <= fields@.len(),
    ensures
        final(out)@ == old(out)@ + fields_text(pairs_view(fields@.skip(i as int))),
    decreases fields, fields@.len() - i,
{
    proof {
        lemma_pairs_view_skip(fields@, i as int);
        lemma_pairs_view_len(fields@);
    }
    if i >= fields.len() {
        assert(pairs_view(fields@).skip(i as int) =~= Seq::<(Seq<char>, SpecValue)>::empty());
        assert(old(out)@ + Seq::<char>::empty() =~= old(out)@);
        return;
    }
    let ghost fs = pairs_view(fields@.skip(i as int));
    proof {
        lemma_pairs_view_index(fields@, i as int);
        assert(fs[0] == (fields@[i as int].0@, fields@[i as int].1@));
        assert(fs.drop_first() =~= pairs_view(fields@.skip(i + 1))) by {
            lemma_pairs_view_skip(fields@, i + 1);
        }
    }
    push_chars(out, &fields[i].0);
    push_str(out, " = ");
    assert(decreases_to!(fields => fields@[i as int].1));
    display_into(&fields[i].1, out);
    if i + 1 < fields.len() {
        push_str(out, ", ");
        let ghost mid = out@;
        fields_into(fields, i + 1, out);
        assert(old(out)@ + fields_text(fs) =~= old(out)@ + fields@[i as int].0@ + " = "@ + display(
            fields@[i as int].1@,
        ) + ", "@ + fields_text(pairs_view(fields@.skip(i + 1))));
    } else {
        assert(old(out)@ + fields_text(fs) =~= old(out)@ + fields@[i as int].0@ + " = "@ + display(
            fields@[i as int].1@,
        ));
    }
}

impl Value {
    /// The text that writing this value out gives.
    pub fn display(&self) -> (s: String)
        ensures
            s@ == display(self@),
    {
        let mut out: Vec<char> = Vec::new();
        display_into(self, &mut out);
        assert(Seq::<char>::empty() + display(self@) =~= display(self@));
        string_from_chars(out.as_slice())
    }
}

} // verus!
