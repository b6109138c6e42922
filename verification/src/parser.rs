//! The parser: groups tokens into an abstract syntax tree, following the
//! grammar in [`crate::grammar`].
use vstd::prelude::*;

use crate::ast::{
    bindings_view, strings_view, AccessKind, Ast, Binding, Block, Expr, InfixOp, LetBlock,
    PrefixOp, SpecBinding, SpecBlock,
};
use crate::grammar::{
    application, arguments, atom, block, blocks, declaration, declarations, expr, field, fields,
    ident_at, infix_op, is_at, more_blocks, more_declarations, names, newlines, operand,
    operators, prefix_op, spec_parse,
};
use crate::lexer::{remaining, tokens_view, SpecToken, Token};

verus! {

/// The tokens after the last block that the parser took; `position` is the
/// index of the first token left over.
#[derive(Debug, PartialEq)]
pub struct ParseError {
    pub position: usize,
}

pub open spec fn tv(t: &[Token]) -> Seq<SpecToken> {
    tokens_view(t@)
}

fn is_newline(k: &Token) -> (b: bool)
    ensures
        b == (k@ == SpecToken::Newline),
{
    match k {
        Token::Newline => true,
        _ => false,
    }
}

/// Whether the token at `p` is the punctuation or keyword `k`.
fn is_at_exec(t: &[Token], p: usize, k: &Token) -> (b: bool)
    requires
        !(k@ is Ident) && !(k@ is Number),
    ensures
        b == is_at(tv(t), p as int, k@),
{
    if p >= t.len() {
        return false;
    }
    let x = &t[p];
    match (x, k) {
        (Token::Let, Token::Let) => true,
        (Token::Expr, Token::Expr) => true,
        (Token::Vars, Token::Vars) => true,
        (Token::AngleLeft, Token::AngleLeft) => true,
        (Token::AngleRight, Token::AngleRight) => true,
        (Token::BracketLeft, Token::BracketLeft) => true,
        (Token::BracketRight, Token::BracketRight) => true,
        (Token::Comma, Token::Comma) => true,
        (Token::CurlyLeft, Token::CurlyLeft) => true,
        (Token::CurlyRight, Token::CurlyRight) => true,
        (Token::DotSingle, Token::DotSingle) => true,
        (Token::DoubleColon, Token::DoubleColon) => true,
        (Token::Colon, Token::Colon) => true,
        (Token::Arrow, Token::Arrow) => true,
        (Token::Equal, Token::Equal) => true,
        (Token::Minus, Token::Minus) => true,
        (Token::Plus, Token::Plus) => true,
        (Token::SquareLeft, Token::SquareLeft) => true,
        (Token::SquareRight, Token::SquareRight) => true,
        (Token::Star, Token::Star) => true,
        (Token::Tilde, Token::Tilde) => true,
        (Token::Newline, Token::Newline) => true,
        _ => false,
    }
}

fn ident_at_exec(t: &[Token], p: usize) -> (r: Option<String>)
    ensures
        match r {
            Some(s) => ident_at(tv(t), p as int) == Some(s@),
            None => ident_at(tv(t), p as int) is None,
        },
{
    if p >= t.len() {
        return None;
    }
    match &t[p] {
        Token::Ident(s) => Some(s.clone()),
        _ => None,
    }
}

fn prefix_op_exec(k: &Token) -> (r: Option<PrefixOp>)
    ensures
        r == prefix_op(k@),
{
    match k {
        Token::Tilde => Some(PrefixOp::Annotation),
        Token::Plus => Some(PrefixOp::Sum),
        Token::Star => Some(PrefixOp::Product),
        Token::Minus => Some(PrefixOp::Difference),
        _ => None,
    }
}

fn infix_op_exec(k: &Token) -> (r: Option<(InfixOp, u8, u8)>)
    ensures
        match r {
            Some((op, lp, rp)) => infix_op(k@) == Some((op, lp as int, rp as int)),
            None => infix_op(k@) is None,
        },
{
    match k {
        Token::Star => Some((InfixOp::Mul, 4, 5)),
        Token::Plus => Some((InfixOp::Add, 2, 3)),
        Token::Minus => Some((InfixOp::Sub, 2, 3)),
        _ => None,
    }
}

/// The number of line breaks from `p` on.
fn newlines_exec(t: &[Token], p: usize) -> (n: usize)
    requires
        p <= t.len(),
    ensures
        n == newlines(tv(t), p as int),
        p + n <= t.len(),
{
    let mut i = p;
    while i < t.len() && is_newline(&t[i])
        invariant
            p <= i <= t.len(),
            newlines(tv(t), p as int) == (i - p) + newlines(tv(t), i as int),
        decreases t.len() - i,
    {
        i = i + 1;
    }
    i - p
}

/// The names from `p` on.
fn names_exec(t: &[Token], p: usize) -> (v: Vec<String>)
    requires
        p <= t.len(),
    ensures
        strings_view(v@) == names(tv(t), p as int),
        p + v@.len() <= t.len(),
{
    let mut v: Vec<String> = Vec::new();
    let mut i = p;
    while i < t.len()
        invariant
            p <= i <= t.len(),
            i - p == v@.len(),
            names(tv(t), p as int) == strings_view(v@) + names(tv(t), i as int),
        decreases t.len() - i,
    {
        match ident_at_exec(t, i) {
            Some(s) => {
                proof {
                    assert(strings_view(v@.push(s)) =~= strings_view(v@) + seq![s@]);
                    assert(seq![s@] + names(tv(t), i + 1) == names(tv(t), i as int));
                    assert(strings_view(v@) + names(tv(t), i as int) =~= strings_view(v@.push(s))
                        + names(tv(t), i + 1));
                }
                v.push(s);
                i = i + 1;
            },
            None => {
                assert(strings_view(v@) + Seq::<Seq<char>>::empty() =~= strings_view(v@));
                return v;
            },
        }
    }
    assert(strings_view(v@) + Seq::<Seq<char>>::empty() =~= strings_view(v@));
    v
}

proof fn lemma_bindings_view_prepend(b: Binding, s: Seq<Binding>)
    ensures
        bindings_view(seq![b] + s) == seq![b@] + bindings_view(s),
{
    assert((seq![b] + s).drop_first() =~= s);
    assert((seq![b] + s)[0] == b);
}

/// An operand with binding power at least `min`.
fn operand_exec(t: &[Token], p: usize, min: u8) -> (r: Option<(Expr, usize)>)
    requires
        p <= t.len(),
    ensures
        match r {
            Some((e, k)) => operand(tv(t), p as int, min as int) == Some((e@, k as nat)) && p + 1
                + k <= t.len(),
            None => operand(tv(t), p as int, min as int) is None,
        },
    decreases remaining(t@.len() as int, p as int), 3nat,
{
    if p >= t.len() {
        return None;
    }
    let head = match prefix_op_exec(&t[p]) {
        Some(op) => match operand_exec(t, p + 1, 6) {
            Some((rhs, k)) => Some((Expr::Prefix { op, expr: Box::new(rhs) }, k + 1)),
            None => atom_exec(t, p),
        },
        None => atom_exec(t, p),
    };
    match head {
        Some((lhs, k)) => {
            let (e, m) = operators_exec(t, lhs, p + 1 + k, min);
            Some((e, k + m))
        },
        None => None,
    }
}

/// The postfix and infix operators that follow `lhs` from `q` on.
fn operators_exec(t: &[Token], lhs: Expr, q: usize, min: u8) -> (r: (Expr, usize))
    requires
        q <= t.len(),
    ensures
        operators(tv(t), lhs@, q as int, min as int) == (r.0@, r.1 as nat),
        q + r.1 <= t.len(),
    decreases remaining(t@.len() as int, q as int), 4nat,
{
    if q >= t.len() {
        return (lhs, 0);
    }
    if is_at_exec(t, q, &Token::DotSingle) {
        if let Some(f) = ident_at_exec(t, q + 1) {
            let target = Expr::Access { target: Box::new(lhs), field: f, kind: AccessKind::Value };
            let (e, m) = operators_exec(t, target, q + 2, min);
            return (e, m + 2);
        }
    }
    if is_at_exec(t, q, &Token::DoubleColon) {
        if let Some(f) = ident_at_exec(t, q + 1) {
            let target = Expr::Access { target: Box::new(lhs), field: f, kind: AccessKind::Type };
            let (e, m) = operators_exec(t, target, q + 2, min);
            return (e, m + 2);
        }
    }
    match infix_op_exec(&t[q]) {
        Some((op, lp, rp)) => {
            if lp >= min {
                match operand_exec(t, q + 1, rp) {
                    Some((rhs, k)) => {
                        let combined = Expr::Infix {
                            op,
                            left: Box::new(lhs),
                            right: Box::new(rhs),
                        };
                        let (e, m) = operators_exec(t, combined, q + 2 + k, min);
                        (e, k + 2 + m)
                    },
                    None => (lhs, 0),
                }
            } else {
                (lhs, 0)
            }
        },
        None => (lhs, 0),
    }
}

/// An atom: a record, a number, a name or an operand in brackets.
fn atom_exec(t: &[Token], p: usize) -> (r: Option<(Expr, usize)>)
    requires
        p <= t.len(),
    ensures
        match r {
            Some((e, k)) => atom(tv(t), p as int) == Some((e@, k as nat)) && p + 1 + k <= t.len(),
            None => atom(tv(t), p as int) is None,
        },
    decreases remaining(t@.len() as int, p as int), 2nat,
{
    if p >= t.len() {
        return None;
    }
    match &t[p] {
        Token::CurlyLeft => {
            let n1 = newlines_exec(t, p + 1);
            let (fs, j) = fields_exec(t, p + 1 + n1);
            let n2 = newlines_exec(t, p + 1 + n1 + j);
            if is_at_exec(t, p + 1 + n1 + j + n2, &Token::CurlyRight) {
                Some((Expr::Record(fs), n1 + j + n2 + 1))
            } else {
                None
            }
        },
        Token::Number(n) => Some((Expr::Number(n.clone()), 0)),
        Token::Ident(n) => Some((Expr::Ident(n.clone()), 0)),
        Token::BracketLeft => match operand_exec(t, p + 1, 0) {
            Some((e, k)) => {
                if is_at_exec(t, p + 2 + k, &Token::BracketRight) {
                    Some((e, k + 2))
                } else {
                    None
                }
            },
            None => None,
        },
        _ => None,
    }
}

/// The record fields from `a` on.
fn fields_exec(t: &[Token], a: usize) -> (r: (Vec<Binding>, usize))
    requires
        a <= t.len(),
    ensures
        fields(tv(t), a as int) == (bindings_view(r.0@), r.1 as nat),
        a + r.1 <= t.len(),
    decreases remaining(t@.len() as int, a as int), 1nat,
{
    if a >= t.len() {
        return (Vec::new(), 0);
    }
    match field_exec(t, a) {
        Some((b, k)) => {
            let (mut rest, m) = fields_exec(t, a + 1 + k);
            let ghost old_rest = rest@;
            rest.insert(0, b);
            proof {
                assert(rest@ =~= seq![b] + old_rest);
                lemma_bindings_view_prepend(b, old_rest);
            }
            (rest, k + 1 + m)
        },
        None => (Vec::new(), 0),
    }
}

/// A record field.
fn field_exec(t: &[Token], a: usize) -> (r: Option<(Binding, usize)>)
    requires
        a <= t.len(),
    ensures
        match r {
            Some((b, k)) => field(tv(t), a as int) == Some((b@, k as nat)) && a + 1 + k <= t.len(),
            None => field(tv(t), a as int) is None,
        },
    decreases remaining(t@.len() as int, a as int), 0nat,
{
    match ident_at_exec(t, a) {
        Some(name) => {
            if is_at_exec(t, a + 1, &Token::Equal) {
                match operand_exec(t, a + 2, 0) {
                    Some((v, k)) => {
                        return Some((Binding { name, value: v }, k + 2));
                    },
                    None => {},
                }
            }
            let value = Expr::Ident(name.clone());
            Some((Binding { name, value }, 0))
        },
        None => None,
    }
}

/// Further operands applied to `f` from `q` on.
fn arguments_exec(t: &[Token], f: Expr, q: usize) -> (r: (Expr, usize))
    requires
        q <= t.len(),
    ensures
        arguments(tv(t), f@, q as int) == (r.0@, r.1 as nat),
        q + r.1 <= t.len(),
    decreases remaining(t@.len() as int, q as int),
{
    if q >= t.len() {
        return (f, 0);
    }
    match operand_exec(t, q, 0) {
        Some((a, k)) => {
            let applied = Expr::Apply { func: Box::new(f), arg: Box::new(a) };
            let (e, m) = arguments_exec(t, applied, q + 1 + k);
            (e, k + 1 + m)
        },
        None => (f, 0),
    }
}

fn application_exec(t: &[Token], p: usize) -> (r: Option<(Expr, usize)>)
    requires
        p <= t.len(),
    ensures
        match r {
            Some((e, k)) => application(tv(t), p as int) == Some((e@, k as nat)) && p + 1 + k
                <= t.len(),
            None => application(tv(t), p as int) is None,
        },
{
    match operand_exec(t, p, 0) {
        Some((f, k)) => {
            let (e, m) = arguments_exec(t, f, p + 1 + k);
            Some((e, k + m))
        },
        None => None,
    }
}

/// An expression: a lambda or an application.
fn expr_exec(t: &[Token], p: usize) -> (r: Option<(Expr, usize)>)
    requires
        p <= t.len(),
    ensures
        match r {
            Some((e, k)) => expr(tv(t), p as int) == Some((e@, k as nat)) && p + 1 + k <= t.len(),
            None => expr(tv(t), p as int) is None,
        },
    decreases remaining(t@.len() as int, p as int),
{
    let params = names_exec(t, p);
    let n = params.len();
    proof {
        assert(strings_view(params@).len() == params@.len());
    }
    if n >= 1 && is_at_exec(t, p + n, &Token::Arrow) {
        match expr_exec(t, p + n + 1) {
            Some((body, k)) => {
                return Some((Expr::Lambda { params, body: Box::new(body) }, n + k + 1));
            },
            None => {},
        }
    }
    application_exec(t, p)
}

fn declaration_exec(t: &[Token], p: usize) -> (r: Option<(Binding, usize)>)
    requires
        p <= t.len(),
    ensures
        match r {
            Some((b, k)) => declaration(tv(t), p as int) == Some((b@, k as nat)) && p + 1 + k
                <= t.len(),
            None => declaration(tv(t), p as int) is None,
        },
{
    match ident_at_exec(t, p) {
        Some(name) => {
            if is_at_exec(t, p + 1, &Token::Equal) {
                match expr_exec(t, p + 2) {
                    Some((value, k)) => Some((Binding { name, value }, k + 2)),
                    None => None,
                }
            } else {
                None
            }
        },
        None => None,
    }
}

fn more_declarations_exec(t: &[Token], q: usize) -> (r: (Vec<Binding>, usize))
    requires
        q <= t.len(),
    ensures
        more_declarations(tv(t), q as int) == (bindings_view(r.0@), r.1 as nat),
        q + r.1 <= t.len(),
    decreases remaining(t@.len() as int, q as int),
{
    let n = newlines_exec(t, q);
    if n == 0 || q >= t.len() {
        return (Vec::new(), 0);
    }
    match declaration_exec(t, q + n) {
        Some((d, k)) => {
            let (mut rest, m) = more_declarations_exec(t, q + n + 1 + k);
            let ghost old_rest = rest@;
            rest.insert(0, d);
            proof {
                assert(rest@ =~= seq![d] + old_rest);
                lemma_bindings_view_prepend(d, old_rest);
            }
            (rest, n + k + 1 + m)
        },
        None => (Vec::new(), n),
    }
}

fn declarations_exec(t: &[Token], p: usize) -> (r: (Vec<Binding>, usize))
    requires
        p <= t.len(),
    ensures
        declarations(tv(t), p as int) == (bindings_view(r.0@), r.1 as nat),
        p + r.1 <= t.len(),
{
    match declaration_exec(t, p) {
        Some((d, k)) => {
            let (mut rest, m) = more_declarations_exec(t, p + 1 + k);
            let ghost old_rest = rest@;
            rest.insert(0, d);
            proof {
                assert(rest@ =~= seq![d] + old_rest);
                lemma_bindings_view_prepend(d, old_rest);
            }
            (rest, k + 1 + m)
        },
        None => (Vec::new(), 0),
    }
}

fn block_exec(t: &[Token], p: usize) -> (r: Option<(Block, usize)>)
    requires
        p <= t.len(),
    ensures
        match r {
            Some((b, k)) => block(tv(t), p as int) == Some((b@, k as nat)) && p + 1 + k <= t.len(),
            None => block(tv(t), p as int) is None,
        },
{
    if !is_at_exec(t, p, &Token::Vars) {
        return None;
    }
    let n1 = newlines_exec(t, p + 1);
    if n1 < 1 {
        return None;
    }
    let a = p + 1 + n1;
    let (ds, j) = declarations_exec(t, a);
    let b = a + j + newlines_exec(t, a + j);
    if !is_at_exec(t, b, &Token::Expr) {
        return None;
    }
    let n3 = newlines_exec(t, b + 1);
    if n3 < 1 {
        return None;
    }
    match expr_exec(t, b + 1 + n3) {
        Some((e, k)) => {
            let blk = Block::Let(LetBlock { bindings: ds, body: Box::new(e) });
            Some((blk, b + 1 + n3 + k - p))
        },
        None => None,
    }
}

proof fn lemma_blocks_view_prepend(b: Block, s: Seq<Block>)
    ensures
        (seq![b] + s).map_values(|x: Block| x@) == seq![b@] + s.map_values(|x: Block| x@),
{
    assert((seq![b] + s).map_values(|x: Block| x@) =~= seq![b@] + s.map_values(|x: Block| x@));
}

fn more_blocks_exec(t: &[Token], q: usize) -> (r: (Vec<Block>, usize))
    requires
        q <= t.len(),
    ensures
        more_blocks(tv(t), q as int) == (r.0@.map_values(|x: Block| x@), r.1 as nat),
        q + r.1 <= t.len(),
    decreases remaining(t@.len() as int, q as int),
{
    let n = newlines_exec(t, q);
    if n == 0 || q >= t.len() {
        proof {
            assert(Seq::<Block>::empty().map_values(|x: Block| x@) =~= Seq::<SpecBlock>::empty());
        }
        return (Vec::new(), 0);
    }
    match block_exec(t, q + n) {
        Some((b, k)) => {
            let (mut rest, m) = more_blocks_exec(t, q + n + 1 + k);
            let ghost old_rest = rest@;
            rest.insert(0, b);
            proof {
                assert(rest@ =~= seq![b] + old_rest);
                lemma_blocks_view_prepend(b, old_rest);
            }
            (rest, n + k + 1 + m)
        },
        None => {
            proof {
                assert(Seq::<Block>::empty().map_values(|x: Block| x@) =~= Seq::<
                    SpecBlock,
                >::empty());
            }
            (Vec::new(), n)
        },
    }
}

fn blocks_exec(t: &[Token]) -> (r: (Vec<Block>, usize))
    ensures
        blocks(tv(t)) == (r.0@.map_values(|x: Block| x@), r.1 as nat),
        r.1 <= t.len(),
{
    match block_exec(t, 0) {
        Some((b, k)) => {
            let (mut rest, m) = more_blocks_exec(t, 1 + k);
            let ghost old_rest = rest@;
            rest.insert(0, b);
            proof {
                assert(rest@ =~= seq![b] + old_rest);
                lemma_blocks_view_prepend(b, old_rest);
            }
            (rest, k + 1 + m)
        },
        None => {
            proof {
                assert(Seq::<Block>::empty().map_values(|x: Block| x@) =~= Seq::<SpecBlock>::empty());
            }
            (Vec::new(), 0)
        },
    }
}

/// Parses a whole program.
///
/// Succeeds exactly when the grammar's blocks take all of `tokens`; otherwise
/// the error holds the index of the first token that they leave over.
pub fn parse(tokens: &[Token]) -> (r: Result<Ast, ParseError>)
    ensures
        match r {
            Ok(ast) => spec_parse(tv(tokens)) == Some(ast@),
            Err(e) => spec_parse(tv(tokens)) is None && blocks(tv(tokens)).1 == e.position,
        },
{
    let (bs, n) = blocks_exec(tokens);
    if n == tokens.len() {
        Ok(Ast(bs))
    } else {
        Err(ParseError { position: n })
    }
}

} // verus!
