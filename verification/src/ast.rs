//! The abstract syntax tree of a Bilda program, and its mathematical model.
use vstd::prelude::*;

verus! {

/// A whole program: blocks, evaluated in order.
#[derive(Debug, PartialEq)]
pub struct Ast(pub Vec<Block>);

#[derive(Debug, PartialEq)]
pub enum Block {
    /// `vars` bindings `expr` body.
    Let(LetBlock),
    /// A body with the bindings that it uses.
    ExprWhere(ExprWhereBlock),
    /// Names brought in from modules.
    Use(UseBlock),
    /// Type constructors.
    Type(TypeBlock),
}

#[derive(Debug, PartialEq)]
pub struct LetBlock {
    pub bindings: Vec<Binding>,
    pub body: Box<Expr>,
}

#[derive(Debug, PartialEq)]
pub struct ExprWhereBlock {
    pub body: Box<Expr>,
    pub bindings: Vec<Binding>,
}

#[derive(Debug, PartialEq)]
pub struct UseBlock {
    pub imports: Vec<Import>,
}

/// `names` brought in from `module`.
#[derive(Debug, PartialEq)]
pub struct Import {
    pub module: String,
    pub names: Vec<String>,
}

#[derive(Debug, PartialEq)]
pub struct TypeBlock {
    pub bindings: Vec<Binding>,
}

#[derive(Debug, PartialEq)]
pub struct Binding {
    pub name: String,
    pub value: Expr,
}

#[derive(Debug, PartialEq)]
pub enum Expr {
    Ident(String),
    Number(String),
    Apply { func: Box<Expr>, arg: Box<Expr> },
    Lambda { params: Vec<String>, body: Box<Expr> },
    Access { target: Box<Expr>, field: String, kind: AccessKind },
    Prefix { op: PrefixOp, expr: Box<Expr> },
    Infix { op: InfixOp, left: Box<Expr>, right: Box<Expr> },
    Record(Vec<Binding>),
}

/// `target::field` (a type) or `target.field` (a value).
#[derive(Clone, Copy, Debug, PartialEq, Eq, Structural)]
pub enum AccessKind {
    Type,
    Value,
}

/// `~` (annotation), `+` (sum), `*` (product), `-` (difference).
#[derive(Clone, Copy, Debug, PartialEq, Eq, Structural)]
pub enum PrefixOp {
    Annotation,
    Sum,
    Product,
    Difference,
}

#[derive(Clone, Copy, Debug, PartialEq, Eq, Structural)]
pub enum InfixOp {
    Add,
    Sub,
    Mul,
}

// ---------------------------------------------------------------------------
// The mathematical model: names and texts are character sequences, lists are
// sequences.
// ---------------------------------------------------------------------------

pub enum SpecExpr {
    Ident(Seq<char>),
    Number(Seq<char>),
    Apply(Box<SpecExpr>, Box<SpecExpr>),
    Lambda(Seq<Seq<char>>, Box<SpecExpr>),
    Access(Box<SpecExpr>, Seq<char>, AccessKind),
    Prefix(PrefixOp, Box<SpecExpr>),
    Infix(InfixOp, Box<SpecExpr>, Box<SpecExpr>),
    Record(Seq<SpecBinding>),
}

pub struct SpecBinding {
    pub name: Seq<char>,
    pub value: SpecExpr,
}

pub enum SpecBlock {
    Let(Seq<SpecBinding>, SpecExpr),
    ExprWhere(SpecExpr, Seq<SpecBinding>),
    Use(Seq<(Seq<char>, Seq<Seq<char>>)>),
    Type(Seq<SpecBinding>),
}

/// The views of a sequence of strings.
pub open spec fn strings_view(ss: Seq<String>) -> Seq<Seq<char>> {
    ss.map_values(|s: String| s@)
}

pub open spec fn expr_view(e: Expr) -> SpecExpr
    decreases e,
{
    match e {
        Expr::Ident(n) => SpecExpr::Ident(n@),
        Expr::Number(n) => SpecExpr::Number(n@),
        Expr::Apply { func, arg } => SpecExpr::Apply(
            Box::new(expr_view(*func)),
            Box::new(expr_view(*arg)),
        ),
        Expr::Lambda { params, body } => SpecExpr::Lambda(
            strings_view(params@),
            Box::new(expr_view(*body)),
        ),
        Expr::Access { target, field, kind } => SpecExpr::Access(
            Box::new(expr_view(*target)),
            field@,
            kind,
        ),
        Expr::Prefix { op, expr } => SpecExpr::Prefix(op, Box::new(expr_view(*expr))),
        Expr::Infix { op, left, right } => SpecExpr::Infix(
            op,
            Box::new(expr_view(*left)),
            Box::new(expr_view(*right)),
        ),
        Expr::Record(fields) => SpecExpr::Record(bindings_view(fields@)),
    }
}

pub open spec fn bindings_view(bs: Seq<Binding>) -> Seq<SpecBinding>
    decreases bs,
{
    if bs.len() == 0 {
        Seq::empty()
    } else {
        seq![SpecBinding { name: bs[0].name@, value: expr_view(bs[0].value) }] + bindings_view(
            bs.drop_first(),
        )
    }
}

impl View for Expr {
    type V = SpecExpr;

    open spec fn view(&self) -> SpecExpr {
        expr_view(*self)
    }
}

impl View for Binding {
    type V = SpecBinding;

    open spec fn view(&self) -> SpecBinding {
        SpecBinding { name: self.name@, value: self.value@ }
    }
}

impl View for Block {
    type V = SpecBlock;

    open spec fn view(&self) -> SpecBlock {
        match self {
            Block::Let(b) => SpecBlock::Let(bindings_view(b.bindings@), (*b.body)@),
            Block::ExprWhere(b) => SpecBlock::ExprWhere((*b.body)@, bindings_view(b.bindings@)),
            Block::Use(b) => SpecBlock::Use(
                b.imports@.map_values(|i: Import| (i.module@, strings_view(i.names@))),
            ),
            Block::Type(b) => SpecBlock::Type(bindings_view(b.bindings@)),
        }
    }
}

impl View for Ast {
    type V = Seq<SpecBlock>;

    open spec fn view(&self) -> Seq<SpecBlock> {
        self.0@.map_values(|b: Block| b@)
    }
}

} // verus!
