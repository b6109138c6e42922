//! The abstract syntax tree of a script.
use vstd::prelude::*;

use crate::ast::strings_view;
use crate::script::math::{target_view, Math, MathSign, SpecMathTarget};

verus! {

/// A script: `let … in` bindings around an expression, or an expression.
#[derive(Debug, PartialEq)]
pub enum Ast {
    LetIn(LetIn),
    Expression(Expression),
}

#[derive(Debug, PartialEq)]
pub struct LetIn {
    pub assignments: Vec<Assignment>,
    pub expression: Box<Expression>,
}

/// `{ name = value … }`
#[derive(Debug, PartialEq)]
pub struct MapLiteral {
    pub assignments: Vec<Assignment>,
}

/// `+ { … }`
#[derive(Debug, PartialEq)]
pub struct Product {
    pub assignments: Vec<Assignment>,
}

/// `* { … }`
#[derive(Debug, PartialEq)]
pub struct Sum {
    pub assignments: Vec<Assignment>,
}

/// `(name: Type …) => body`
#[derive(Debug, PartialEq)]
pub struct Lambda {
    pub params: Vec<String>,
    pub body: Box<Expression>,
}

/// `function(argument)` or `function { … }`
#[derive(Debug, PartialEq)]
pub struct Call {
    pub function: Box<Expression>,
    pub argument: Box<Expression>,
}

#[derive(Debug, PartialEq)]
pub enum Expression {
    MapLiteral(MapLiteral),
    Product(Product),
    Sum(Sum),
    Call(Call),
    Lambda(Lambda),
    Int(isize),
    Boolean(bool),
    String(String),
    Reference(String),
    Math(Math),
    /// `!True` or `!False`
    Not(Box<Expression>),
}

/// `name = value`; no syntax gives it an annotation yet.
#[derive(Debug, PartialEq)]
pub struct Assignment {
    pub name: String,
    pub annotation: Option<()>,
    pub value: Box<Ast>,
}

// ---------------------------------------------------------------------------
// The mathematical model: names and texts are character sequences, lists are
// sequences.
// ---------------------------------------------------------------------------

pub enum SpecAst {
    LetIn(Seq<SpecAssignment>, Box<SpecExpression>),
    Expression(SpecExpression),
}

pub enum SpecExpression {
    MapLiteral(Seq<SpecAssignment>),
    Product(Seq<SpecAssignment>),
    Sum(Seq<SpecAssignment>),
    Call(Box<SpecExpression>, Box<SpecExpression>),
    Lambda(Seq<Seq<char>>, Box<SpecExpression>),
    Int(isize),
    Boolean(bool),
    String(Seq<char>),
    Reference(Seq<char>),
    Math(MathSign, SpecMathTarget, SpecMathTarget),
    Not(Box<SpecExpression>),
}

pub struct SpecAssignment {
    pub name: Seq<char>,
    pub annotation: Option<()>,
    pub value: Box<SpecAst>,
}

pub open spec fn ast_view(a: Ast) -> SpecAst
    decreases a,
{
    match a {
        Ast::LetIn(l) => SpecAst::LetIn(
            assignments_view(l.assignments@),
            Box::new(expression_view(*l.expression)),
        ),
        Ast::Expression(e) => SpecAst::Expression(expression_view(e)),
    }
}

pub open spec fn expression_view(e: Expression) -> SpecExpression
    decreases e,
{
    match e {
        Expression::MapLiteral(m) => SpecExpression::MapLiteral(assignments_view(m.assignments@)),
        Expression::Product(m) => SpecExpression::Product(assignments_view(m.assignments@)),
        Expression::Sum(m) => SpecExpression::Sum(assignments_view(m.assignments@)),
        Expression::Call(c) => SpecExpression::Call(
            Box::new(expression_view(*c.function)),
            Box::new(expression_view(*c.argument)),
        ),
        Expression::Lambda(l) => SpecExpression::Lambda(
            strings_view(l.params@),
            Box::new(expression_view(*l.body)),
        ),
        Expression::Int(n) => SpecExpression::Int(n),
        Expression::Boolean(b) => SpecExpression::Boolean(b),
        Expression::String(s) => SpecExpression::String(s@),
        Expression::Reference(s) => SpecExpression::Reference(s@),
        Expression::Math(m) => SpecExpression::Math(m.sign, target_view(m.left), target_view(m.right)),
        Expression::Not(b) => SpecExpression::Not(Box::new(expression_view(*b))),
    }
}

pub open spec fn assignments_view(s: Seq<Assignment>) -> Seq<SpecAssignment>
    decreases s,
{
    if s.len() == 0 {
        Seq::empty()
    } else {
        seq![
            SpecAssignment {
                name: s[0].name@,
                annotation: s[0].annotation,
                value: Box::new(ast_view(*s[0].value)),
            },
        ] + assignments_view(s.drop_first())
    }
}

impl View for Ast {
    type V = SpecAst;

    open spec fn view(&self) -> SpecAst {
        ast_view(*self)
    }
}

impl View for Expression {
    type V = SpecExpression;

    open spec fn view(&self) -> SpecExpression {
        expression_view(*self)
    }
}

impl View for Assignment {
    type V = SpecAssignment;

    open spec fn view(&self) -> SpecAssignment {
        SpecAssignment { name: self.name@, annotation: self.annotation, value: Box::new(ast_view(*self.value)) }
    }
}

pub proof fn lemma_assignments_view_prepend(a: Assignment, s: Seq<Assignment>)
    ensures
        assignments_view(seq![a] + s) == seq![a@] + assignments_view(s),
{
    assert((seq![a] + s).drop_first() =~= s);
    assert((seq![a] + s)[0] == a);
}

} // verus!
