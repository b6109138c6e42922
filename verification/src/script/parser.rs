//! The parser of scripts, following [`crate::script::grammar`].
use vstd::prelude::*;

use crate::ast::strings_view;
use crate::script::ast::{
    SpecExpression, assignments_view, lemma_assignments_view_prepend, Assignment, Ast, Call, Expression, Lambda,
    LetIn, MapLiteral, Product, Sum,
};
use crate::script::grammar::{
    argument, arguments, assignments, atom, call, expression, fields, identifier_at, lambda, let_in, map_fields,
    math_expression, negation, params, script, script_end, spec_parse_script, tagged_map, type_name_at,
};
use crate::script::lexer::{remaining, SpecToken, Token};
use crate::script::math::{is_at, math_expr_exec, tv, MathTarget};

verus! {

/// The script does not take all the tokens; `position` is the index of the
/// first token that it leaves over (zero where no script starts at all).
#[derive(Debug, PartialEq)]
pub struct ParseError {
    pub position: usize,
}

fn identifier_at_exec(t: &[Token], p: usize) -> (r: Option<String>)
    ensures
        match r {
            Some(s) => identifier_at(tv(t), p as int) == Some(s@),
            None => identifier_at(tv(t), p as int) is None,
        },
{
    if p >= t.len() {
        return None;
    }
    match &t[p] {
        Token::Identifier(s) => Some(s.clone()),
        _ => None,
    }
}

fn type_name_at_exec(t: &[Token], p: usize) -> (b: bool)
    ensures
        b == type_name_at(tv(t), p as int) is Some,
{
    if p >= t.len() {
        return false;
    }
    match &t[p] {
        Token::Identifier(_) => true,
        Token::Int => true,
        Token::String => true,
        _ => false,
    }
}

/// A script.
fn script_exec(t: &[Token], p: usize) -> (r: Option<(Ast, usize)>)
    requires
        p <= t.len(),
    ensures
        match r {
            Some((a, k)) => script(tv(t), p as int) == Some((a@, k as nat)) && p + 1 + k <= t.len(),
            None => script(tv(t), p as int) is None,
        },
    decreases remaining(t@.len() as int, p as int), 9nat,
{
    if p >= t.len() {
        return None;
    }
    match let_in_exec(t, p) {
        Some(r) => Some(r),
        None => match expression_exec(t, p) {
            Some((e, k)) => Some((Ast::Expression(e), k)),
            None => None,
        },
    }
}

fn let_in_exec(t: &[Token], p: usize) -> (r: Option<(Ast, usize)>)
    requires
        p <= t.len(),
    ensures
        match r {
            Some((a, k)) => let_in(tv(t), p as int) == Some((a@, k as nat)) && p + 1 + k <= t.len(),
            None => let_in(tv(t), p as int) is None,
        },
    decreases remaining(t@.len() as int, p as int), 8nat,
{
    if !(p < t.len() && matches!(t[p], Token::Let)) {
        return None;
    }
    let (asg, j) = assignments_exec(t, p + 1);
    if asg.len() == 0 || !(p + 1 + j < t.len() && matches!(t[p + 1 + j], Token::In)) {
        return None;
    }
    match expression_exec(t, p + 2 + j) {
        Some((e, k)) => Some((Ast::LetIn(LetIn { assignments: asg, expression: Box::new(e) }), j + 2 + k)),
        None => None,
    }
}

fn assignments_exec(t: &[Token], a: usize) -> (r: (Vec<Assignment>, usize))
    requires
        a <= t.len(),
    ensures
        assignments(tv(t), a as int) == (assignments_view(r.0@), r.1 as nat),
        a + r.1 <= t.len(),
    decreases remaining(t@.len() as int, a as int), 1nat,
{
    if a >= t.len() {
        return (Vec::new(), 0);
    }
    match identifier_at_exec(t, a) {
        Some(n) => {
            if a + 1 < t.len() && matches!(t[a + 1], Token::Equal) {
                match script_exec(t, a + 2) {
                    Some((v, k)) => {
                        let (mut rest, m) = assignments_exec(t, a + 3 + k);
                        let item = Assignment { name: n, annotation: None, value: Box::new(v) };
                        let ghost old_rest = rest@;
                        rest.insert(0, item);
                        proof {
                            assert(rest@ =~= seq![item] + old_rest);
                            lemma_assignments_view_prepend(item, old_rest);
                        }
                        (rest, k + 3 + m)
                    },
                    None => (Vec::new(), 0),
                }
            } else {
                (Vec::new(), 0)
            }
        },
        None => (Vec::new(), 0),
    }
}

fn expression_exec(t: &[Token], p: usize) -> (r: Option<(Expression, usize)>)
    requires
        p <= t.len(),
    ensures
        match r {
            Some((e, k)) => expression(tv(t), p as int) == Some((e@, k as nat)) && p + 1 + k
                <= t.len(),
            None => expression(tv(t), p as int) is None,
        },
    decreases remaining(t@.len() as int, p as int), 7nat,
{
    if p >= t.len() {
        return None;
    }
    if let Some(r) = call_exec(t, p) {
        return Some(r);
    }
    if let Some(r) = tagged_map_exec(t, p) {
        return Some(r);
    }
    if let Some(r) = lambda_exec(t, p) {
        return Some(r);
    }
    if let Some(r) = math_expression_exec(t, p) {
        return Some(r);
    }
    if let Some(r) = negation_exec(t, p) {
        return Some(r);
    }
    atom_exec(t, p)
}

fn argument_exec(t: &[Token], p: usize) -> (r: Option<(Expression, usize)>)
    requires
        p <= t.len(),
    ensures
        match r {
            Some((e, k)) => argument(tv(t), p as int) == Some((e@, k as nat)) && p + 1 + k
                <= t.len(),
            None => argument(tv(t), p as int) is None,
        },
    decreases remaining(t@.len() as int, p as int), 6nat,
{
    if p >= t.len() {
        return None;
    }
    let mut bracketed: Option<(Expression, usize)> = None;
    if matches!(t[p], Token::RoundBracketLeft) {
        if let Some((e, k)) = expression_exec(t, p + 1) {
            if p + 2 + k < t.len() && matches!(t[p + 2 + k], Token::RoundBracketRight) {
                bracketed = Some((e, k + 2));
            }
        }
    }
    match bracketed {
        Some(r) => Some(r),
        None => match map_fields_exec(t, p) {
            Some((fs, k)) => Some((Expression::MapLiteral(MapLiteral { assignments: fs }), k)),
            None => None,
        },
    }
}

fn arguments_exec(t: &[Token], p: usize, f: Expression) -> (r: (Expression, usize))
    requires
        p <= t.len(),
    ensures
        arguments(tv(t), p as int, f@) == (r.0@, r.1 as nat),
        p + r.1 <= t.len(),
    decreases remaining(t@.len() as int, p as int), 7nat,
{
    if p >= t.len() {
        return (f, 0);
    }
    match argument_exec(t, p) {
        Some((e, k)) => {
            let ghost (fv, ev) = (f@, e@);
            let applied = Expression::Call(Call { function: Box::new(f), argument: Box::new(e) });
            assert(applied@ == SpecExpression::Call(Box::new(fv), Box::new(ev)));
            let (g, m) = arguments_exec(t, p + 1 + k, applied);
            (g, k + 1 + m)
        },
        None => (f, 0),
    }
}

fn call_exec(t: &[Token], p: usize) -> (r: Option<(Expression, usize)>)
    requires
        p <= t.len(),
    ensures
        match r {
            Some((e, k)) => call(tv(t), p as int) == Some((e@, k as nat)) && p + 1 + k <= t.len(),
            None => call(tv(t), p as int) is None,
        },
    decreases remaining(t@.len() as int, p as int), 6nat,
{
    let n = match identifier_at_exec(t, p) {
        Some(n) => n,
        None => return None,
    };
    match argument_exec(t, p + 1) {
        Some((e, k)) => {
            let f = Expression::Reference(n);
            let ghost (fv, ev) = (f@, e@);
            assert(fv == SpecExpression::Reference(n@));
            let first = Expression::Call(Call { function: Box::new(f), argument: Box::new(e) });
            assert(first@ == SpecExpression::Call(Box::new(fv), Box::new(ev)));
            let (g, m) = arguments_exec(t, p + 2 + k, first);
            Some((g, k + 1 + m))
        },
        None => None,
    }
}

fn tagged_map_exec(t: &[Token], p: usize) -> (r: Option<(Expression, usize)>)
    requires
        p <= t.len(),
    ensures
        match r {
            Some((e, k)) => tagged_map(tv(t), p as int) == Some((e@, k as nat)) && p + 1 + k
                <= t.len(),
            None => tagged_map(tv(t), p as int) is None,
        },
    decreases remaining(t@.len() as int, p as int), 6nat,
{
    if p < t.len() && matches!(t[p], Token::Asterisk) {
        match map_fields_exec(t, p + 1) {
            Some((fs, k)) => Some((Expression::Sum(Sum { assignments: fs }), k + 1)),
            None => None,
        }
    } else if p < t.len() && matches!(t[p], Token::Plus) {
        match map_fields_exec(t, p + 1) {
            Some((fs, k)) => Some((Expression::Product(Product { assignments: fs }), k + 1)),
            None => None,
        }
    } else {
        None
    }
}

fn params_exec(t: &[Token], a: usize) -> (r: (Vec<String>, usize))
    requires
        a <= t.len(),
    ensures
        params(tv(t), a as int) == (strings_view(r.0@), r.1 as nat),
        a + r.1 <= t.len(),
    decreases remaining(t@.len() as int, a as int),
{
    if a >= t.len() {
        return (Vec::new(), 0);
    }
    match identifier_at_exec(t, a) {
        Some(n) => {
            if a + 1 < t.len() && matches!(t[a + 1], Token::Colon) && type_name_at_exec(t, a + 2) {
                let (mut rest, m) = params_exec(t, a + 3);
                let ghost old_rest = rest@;
                rest.insert(0, n);
                proof {
                    assert(strings_view(rest@) =~= seq![n@] + strings_view(old_rest));
                }
                (rest, m + 3)
            } else {
                (Vec::new(), 0)
            }
        },
        None => (Vec::new(), 0),
    }
}

fn lambda_exec(t: &[Token], p: usize) -> (r: Option<(Expression, usize)>)
    requires
        p <= t.len(),
    ensures
        match r {
            Some((e, k)) => lambda(tv(t), p as int) == Some((e@, k as nat)) && p + 1 + k <= t.len(),
            None => lambda(tv(t), p as int) is None,
        },
    decreases remaining(t@.len() as int, p as int), 6nat,
{
    if !(p < t.len() && matches!(t[p], Token::RoundBracketLeft)) {
        return None;
    }
    let (ps, j) = params_exec(t, p + 1);
    if p + 1 + j < t.len() && p + 2 + j < t.len() && matches!(t[p + 1 + j], Token::RoundBracketRight) && matches!(
        t[p + 2 + j],
        Token::Arrow
    ) {
        match expression_exec(t, p + 3 + j) {
            Some((b, k)) => Some(
                (Expression::Lambda(Lambda { params: ps, body: Box::new(b) }), j + 3 + k),
            ),
            None => None,
        }
    } else {
        None
    }
}

fn math_expression_exec(t: &[Token], p: usize) -> (r: Option<(Expression, usize)>)
    requires
        p <= t.len(),
    ensures
        match r {
            Some((e, k)) => math_expression(tv(t), p as int) == Some((e@, k as nat)) && p + 1 + k
                <= t.len(),
            None => math_expression(tv(t), p as int) is None,
        },
{
    match math_expr_exec(t, p, 0) {
        Some((MathTarget::Number(n), k)) => Some((Expression::Int(n), k)),
        Some((MathTarget::Reference(r), k)) => Some((Expression::Reference(r), k)),
        Some((MathTarget::Math(m), k)) => Some((Expression::Math(*m), k)),
        None => None,
    }
}

fn negation_exec(t: &[Token], p: usize) -> (r: Option<(Expression, usize)>)
    requires
        p <= t.len(),
    ensures
        match r {
            Some((e, k)) => negation(tv(t), p as int) == Some((e@, k as nat)) && p + 1 + k <= t.len(),
            None => negation(tv(t), p as int) is None,
        },
{
    if p < t.len() && p + 1 < t.len() && matches!(t[p], Token::Exclamation) {
        let b = match &t[p + 1] {
            Token::True => true,
            Token::False => false,
            _ => return None,
        };
        let inner = Expression::Boolean(b);
        let ghost iv = inner@;
        assert(iv == SpecExpression::Boolean(b));
        let e = Expression::Not(Box::new(inner));
        assert(e@ == SpecExpression::Not(Box::new(iv)));
        Some((e, 1))
    } else {
        None
    }
}

fn atom_exec(t: &[Token], p: usize) -> (r: Option<(Expression, usize)>)
    requires
        p <= t.len(),
    ensures
        match r {
            Some((e, k)) => atom(tv(t), p as int) == Some((e@, k as nat)) && p + 1 + k <= t.len(),
            None => atom(tv(t), p as int) is None,
        },
    decreases remaining(t@.len() as int, p as int), 6nat,
{
    if p >= t.len() {
        return None;
    }
    match &t[p] {
        Token::StringLiteral(s) => Some((Expression::String(s.clone()), 0)),
        Token::True => Some((Expression::Boolean(true), 0)),
        Token::False => Some((Expression::Boolean(false), 0)),
        _ => match map_fields_exec(t, p) {
            Some((fs, k)) => Some((Expression::MapLiteral(MapLiteral { assignments: fs }), k)),
            None => None,
        },
    }
}

fn map_fields_exec(t: &[Token], p: usize) -> (r: Option<(Vec<Assignment>, usize)>)
    requires
        p <= t.len(),
    ensures
        match r {
            Some((fs, k)) => map_fields(tv(t), p as int) == Some((assignments_view(fs@), k as nat))
                && p + 1 + k <= t.len(),
            None => map_fields(tv(t), p as int) is None,
        },
    decreases remaining(t@.len() as int, p as int), 5nat,
{
    if !(p < t.len() && matches!(t[p], Token::CurlyBracketLeft)) {
        return None;
    }
    let (fs, j) = fields_exec(t, p + 1);
    if p + 1 + j < t.len() && matches!(t[p + 1 + j], Token::CurlyBracketRight) {
        Some((fs, j + 1))
    } else {
        None
    }
}

fn fields_exec(t: &[Token], a: usize) -> (r: (Vec<Assignment>, usize))
    requires
        a <= t.len(),
    ensures
        fields(tv(t), a as int) == (assignments_view(r.0@), r.1 as nat),
        a + r.1 <= t.len(),
    decreases remaining(t@.len() as int, a as int), 1nat,
{
    if a >= t.len() {
        return (Vec::new(), 0);
    }
    match identifier_at_exec(t, a) {
        Some(n) => {
            let mut full: Option<(Assignment, usize)> = None;
            if a + 1 < t.len() && matches!(t[a + 1], Token::Equal) {
                if let Some((v, k)) = script_exec(t, a + 2) {
                    full = Some((Assignment { name: n.clone(), annotation: None, value: Box::new(v) }, k + 2));
                }
            }
            let (f, k) = match full {
                Some(r) => r,
                None => {
                    let value = Ast::Expression(Expression::Reference(n.clone()));
                    (Assignment { name: n, annotation: None, value: Box::new(value) }, 0)
                },
            };
            let (mut rest, m) = fields_exec(t, a + 1 + k);
            let ghost old_rest = rest@;
            rest.insert(0, f);
            proof {
                assert(rest@ =~= seq![f] + old_rest);
                lemma_assignments_view_prepend(f, old_rest);
            }
            (rest, k + 1 + m)
        },
        None => (Vec::new(), 0),
    }
}

/// Parses the whole of `tokens` as a script.
pub fn parse(tokens: &[Token]) -> (r: Result<Ast, ParseError>)
    ensures
        match r {
            Ok(a) => spec_parse_script(tv(tokens)) == Some(a@),
            Err(e) => spec_parse_script(tv(tokens)) is None && e.position == script_end(tv(tokens)),
        },
{
    match script_exec(tokens, 0) {
        Some((a, k)) => {
            if k + 1 == tokens.len() {
                Ok(a)
            } else {
                Err(ParseError { position: k + 1 })
            }
        },
        None => Err(ParseError { position: 0 }),
    }
}

} // verus!
