//! The grammar of scripts, as functions on token sequences.
//!
//! Each function reads the tokens from a position on and gives what it
//! recognises there with the number of tokens it takes. Alternatives are
//! tried in order and a failed alternative gives back what it read; a
//! repetition stops at the first item that does not parse.
//!
//! ```text
//! script     = let_in | expression
//! let_in     = "let" assignment+ "in" expression
//! assignment = identifier "=" script
//! expression = call | "*" map | "+" map | lambda | math | not | atom
//! not        = "!" ("True" | "False")
//! call       = identifier argument+
//! argument   = "(" expression ")" | map
//! lambda     = "(" (identifier ":" type_name)* ")" "=>" expression
//! type_name  = identifier | "Int" | "String"
//! atom       = string | "True" | "False" | map
//! map        = "{" (identifier "=" script | identifier)* "}"
//! ```
//! `* { … }` is a sum and `+ { … }` a product; a field written as a bare
//! name stands for that name.
use vstd::prelude::*;

use crate::script::ast::{SpecAssignment, SpecAst, SpecExpression};
use crate::script::lexer::{remaining, SpecToken};
use crate::script::math::{
    is_at, law_bracketed_math_reads_back, lemma_render_len, math_expr, render_bracketed,
    SpecMathTarget,
};

verus! {

pub open spec fn identifier_at(t: Seq<SpecToken>, p: int) -> Option<Seq<char>> {
    if 0 <= p < t.len() {
        match t[p] {
            SpecToken::Identifier(n) => Some(n),
            _ => None,
        }
    } else {
        None
    }
}

/// A type name: an identifier, `Int` or `String`.
pub open spec fn type_name_at(t: Seq<SpecToken>, p: int) -> Option<Seq<char>> {
    if 0 <= p < t.len() {
        match t[p] {
            SpecToken::Identifier(n) => Some(n),
            SpecToken::Int => Some(seq!['I', 'n', 't']),
            SpecToken::String => Some(seq!['S', 't', 'r', 'i', 'n', 'g']),
            _ => None,
        }
    } else {
        None
    }
}

pub open spec fn assignment_of(name: Seq<char>, value: SpecAst) -> SpecAssignment {
    SpecAssignment { name, annotation: None, value: Box::new(value) }
}

/// A script; `Some((a, k))` takes `k + 1` tokens.
pub open spec fn script(t: Seq<SpecToken>, p: int) -> Option<(SpecAst, nat)>
    decreases remaining(t.len() as int, p), 9nat,
{
    if p < 0 || p >= t.len() {
        None
    } else {
        match let_in(t, p) {
            Some(r) => Some(r),
            None => match expression(t, p) {
                Some((e, k)) => Some((SpecAst::Expression(e), k)),
                None => None,
            },
        }
    }
}

/// `let` assignments `in` expression; `Some((a, k))` takes `k + 1` tokens.
pub open spec fn let_in(t: Seq<SpecToken>, p: int) -> Option<(SpecAst, nat)>
    decreases remaining(t.len() as int, p), 8nat,
{
    if !is_at(t, p, SpecToken::Let) {
        None
    } else {
        let (asg, j) = assignments(t, p + 1);
        if asg.len() == 0 || !is_at(t, p + 1 + j, SpecToken::In) {
            None
        } else {
            match expression(t, p + 2 + j) {
                Some((e, k)) => Some((SpecAst::LetIn(asg, Box::new(e)), j + 2 + k)),
                None => None,
            }
        }
    }
}

/// The assignments from `a` on; takes the returned number of tokens.
pub open spec fn assignments(t: Seq<SpecToken>, a: int) -> (Seq<SpecAssignment>, nat)
    decreases remaining(t.len() as int, a), 1nat,
{
    if a < 0 || a >= t.len() {
        (Seq::empty(), 0)
    } else {
        match identifier_at(t, a) {
            Some(n) => if is_at(t, a + 1, SpecToken::Equal) {
                match script(t, a + 2) {
                    Some((v, k)) => {
                        let (rest, m) = assignments(t, a + 3 + k);
                        (seq![assignment_of(n, v)] + rest, k + 3 + m)
                    },
                    None => (Seq::empty(), 0),
                }
            } else {
                (Seq::empty(), 0)
            },
            None => (Seq::empty(), 0),
        }
    }
}

/// An expression; `Some((e, k))` takes `k + 1` tokens.
pub open spec fn expression(t: Seq<SpecToken>, p: int) -> Option<(SpecExpression, nat)>
    decreases remaining(t.len() as int, p), 7nat,
{
    if p < 0 || p >= t.len() {
        None
    } else {
        match call(t, p) {
            Some(r) => Some(r),
            None => match tagged_map(t, p) {
                Some(r) => Some(r),
                None => match lambda(t, p) {
                    Some(r) => Some(r),
                    None => match math_expression(t, p) {
                        Some(r) => Some(r),
                        None => match negation(t, p) {
                            Some(r) => Some(r),
                            None => atom(t, p),
                        },
                    },
                },
            },
        }
    }
}

/// One argument of a call: `(expression)` or a map; `Some((e, k))` takes
/// `k + 1` tokens.
pub open spec fn argument(t: Seq<SpecToken>, p: int) -> Option<(SpecExpression, nat)>
    decreases remaining(t.len() as int, p), 6nat,
{
    if p < 0 || p >= t.len() {
        None
    } else {
        let bracketed = if is_at(t, p, SpecToken::RoundBracketLeft) {
            match expression(t, p + 1) {
                Some((e, k)) => if is_at(t, p + 2 + k, SpecToken::RoundBracketRight) {
                    Some((e, k + 2))
                } else {
                    None
                },
                None => None,
            }
        } else {
            None
        };
        match bracketed {
            Some(r) => Some(r),
            None => match map_fields(t, p) {
                Some((fs, k)) => Some((SpecExpression::MapLiteral(fs), k)),
                None => None,
            },
        }
    }
}

/// `f` applied to each argument from `p` on, in turn; takes the returned
/// number of tokens.
pub open spec fn arguments(t: Seq<SpecToken>, p: int, f: SpecExpression) -> (SpecExpression, nat)
    decreases remaining(t.len() as int, p), 7nat,
{
    if p < 0 || p >= t.len() {
        (f, 0)
    } else {
        match argument(t, p) {
            Some((e, k)) => {
                let (g, m) = arguments(
                    t,
                    p + 1 + k,
                    SpecExpression::Call(Box::new(f), Box::new(e)),
                );
                (g, k + 1 + m)
            },
            None => (f, 0),
        }
    }
}

/// A name applied to one argument or more; `Some((e, k))` takes `k + 1`
/// tokens.
pub open spec fn call(t: Seq<SpecToken>, p: int) -> Option<(SpecExpression, nat)>
    decreases remaining(t.len() as int, p), 6nat,
{
    match identifier_at(t, p) {
        Some(n) => match argument(t, p + 1) {
            Some((e, k)) => {
                let first = SpecExpression::Call(
                    Box::new(SpecExpression::Reference(n)),
                    Box::new(e),
                );
                let (g, m) = arguments(t, p + 2 + k, first);
                Some((g, k + 1 + m))
            },
            None => None,
        },
        None => None,
    }
}

/// `* { … }` (a sum) or `+ { … }` (a product); `Some((e, k))` takes `k + 1`
/// tokens.
pub open spec fn tagged_map(t: Seq<SpecToken>, p: int) -> Option<(SpecExpression, nat)>
    decreases remaining(t.len() as int, p), 6nat,
{
    if is_at(t, p, SpecToken::Asterisk) {
        match map_fields(t, p + 1) {
            Some((fs, k)) => Some((SpecExpression::Sum(fs), k + 1)),
            None => None,
        }
    } else if is_at(t, p, SpecToken::Plus) {
        match map_fields(t, p + 1) {
            Some((fs, k)) => Some((SpecExpression::Product(fs), k + 1)),
            None => None,
        }
    } else {
        None
    }
}

/// The typed parameters from `a` on, three tokens each; takes the returned
/// number of tokens.
pub open spec fn params(t: Seq<SpecToken>, a: int) -> (Seq<Seq<char>>, nat)
    decreases remaining(t.len() as int, a),
{
    if a < 0 || a >= t.len() {
        (Seq::empty(), 0)
    } else {
        match identifier_at(t, a) {
            Some(n) => if is_at(t, a + 1, SpecToken::Colon) && type_name_at(t, a + 2) is Some {
                let (rest, m) = params(t, a + 3);
                (seq![n] + rest, m + 3)
            } else {
                (Seq::empty(), 0)
            },
            None => (Seq::empty(), 0),
        }
    }
}

/// `(params) => body`; `Some((e, k))` takes `k + 1` tokens.
pub open spec fn lambda(t: Seq<SpecToken>, p: int) -> Option<(SpecExpression, nat)>
    decreases remaining(t.len() as int, p), 6nat,
{
    if !is_at(t, p, SpecToken::RoundBracketLeft) {
        None
    } else {
        let (ps, j) = params(t, p + 1);
        if is_at(t, p + 1 + j, SpecToken::RoundBracketRight) && is_at(
            t,
            p + 2 + j,
            SpecToken::Arrow,
        ) {
            match expression(t, p + 3 + j) {
                Some((b, k)) => Some((SpecExpression::Lambda(ps, Box::new(b)), j + 3 + k)),
                None => None,
            }
        } else {
            None
        }
    }
}

/// Arithmetic, as an expression: a lone number is an `Int`, a lone name a
/// reference.
pub open spec fn math_expression(t: Seq<SpecToken>, p: int) -> Option<(SpecExpression, nat)> {
    match math_expr(t, p, 0) {
        Some((SpecMathTarget::Number(n), k)) => Some((SpecExpression::Int(n), k)),
        Some((SpecMathTarget::Reference(r), k)) => Some((SpecExpression::Reference(r), k)),
        Some((SpecMathTarget::Math(s, l, r), k)) => Some((SpecExpression::Math(s, *l, *r), k)),
        None => None,
    }
}

pub open spec fn boolean_at(t: Seq<SpecToken>, p: int) -> Option<bool> {
    if 0 <= p < t.len() {
        match t[p] {
            SpecToken::True => Some(true),
            SpecToken::False => Some(false),
            _ => None,
        }
    } else {
        None
    }
}

/// `!` before a boolean; takes two tokens.
pub open spec fn negation(t: Seq<SpecToken>, p: int) -> Option<(SpecExpression, nat)> {
    if is_at(t, p, SpecToken::Exclamation) && boolean_at(t, p + 1) is Some {
        Some(
            (
                SpecExpression::Not(Box::new(SpecExpression::Boolean(boolean_at(t, p + 1)->0))),
                1nat,
            ),
        )
    } else {
        None
    }
}

/// A string, a boolean or a map; `Some((e, k))` takes `k + 1` tokens.
pub open spec fn atom(t: Seq<SpecToken>, p: int) -> Option<(SpecExpression, nat)>
    decreases remaining(t.len() as int, p), 6nat,
{
    if p < 0 || p >= t.len() {
        None
    } else {
        match t[p] {
            SpecToken::StringLiteral(s) => Some((SpecExpression::String(s), 0)),
            SpecToken::True => Some((SpecExpression::Boolean(true), 0)),
            SpecToken::False => Some((SpecExpression::Boolean(false), 0)),
            _ => match map_fields(t, p) {
                Some((fs, k)) => Some((SpecExpression::MapLiteral(fs), k)),
                None => None,
            },
        }
    }
}

/// `{ fields }`; `Some((fs, k))` takes `k + 1` tokens.
pub open spec fn map_fields(t: Seq<SpecToken>, p: int) -> Option<(Seq<SpecAssignment>, nat)>
    decreases remaining(t.len() as int, p), 5nat,
{
    if !is_at(t, p, SpecToken::CurlyBracketLeft) {
        None
    } else {
        let (fs, j) = fields(t, p + 1);
        if is_at(t, p + 1 + j, SpecToken::CurlyBracketRight) {
            Some((fs, j + 1))
        } else {
            None
        }
    }
}

/// The fields of a map from `a` on; takes the returned number of tokens.
pub open spec fn fields(t: Seq<SpecToken>, a: int) -> (Seq<SpecAssignment>, nat)
    decreases remaining(t.len() as int, a), 1nat,
{
    if a < 0 || a >= t.len() {
        (Seq::empty(), 0)
    } else {
        match identifier_at(t, a) {
            Some(n) => {
                let full = if is_at(t, a + 1, SpecToken::Equal) {
                    match script(t, a + 2) {
                        Some((v, k)) => Some((assignment_of(n, v), k + 2)),
                        None => None,
                    }
                } else {
                    None
                };
                let (f, k) = match full {
                    Some(r) => r,
                    None => (
                        assignment_of(n, SpecAst::Expression(SpecExpression::Reference(n))),
                        0nat,
                    ),
                };
                let (rest, m) = fields(t, a + 1 + k);
                (seq![f] + rest, k + 1 + m)
            },
            None => (Seq::empty(), 0),
        }
    }
}

/// The script that all of `t` spells.
pub open spec fn spec_parse_script(t: Seq<SpecToken>) -> Option<SpecAst> {
    match script(t, 0) {
        Some((a, k)) => if k + 1 == t.len() {
            Some(a)
        } else {
            None
        },
        None => None,
    }
}

/// Where parsing stops: the first token that the script does not take.
pub open spec fn script_end(t: Seq<SpecToken>) -> nat {
    match script(t, 0) {
        Some((_, k)) => k + 1,
        None => 0,
    }
}

/// The expression that arithmetic stands for.
pub open spec fn math_as_expression(e: SpecMathTarget) -> SpecExpression {
    match e {
        SpecMathTarget::Number(n) => SpecExpression::Int(n),
        SpecMathTarget::Reference(r) => SpecExpression::Reference(r),
        SpecMathTarget::Math(s, l, r) => SpecExpression::Math(s, *l, *r),
    }
}

/// A script that is arithmetic, with every computation in brackets, reads
/// as that arithmetic.
pub proof fn law_arithmetic_script_reads_as_arithmetic(e: SpecMathTarget)
    ensures
        spec_parse_script(render_bracketed(e)) == Some(SpecAst::Expression(math_as_expression(e))),
{
    let t = render_bracketed(e);
    lemma_render_len(e);
    law_bracketed_math_reads_back(e);
    assert(math_expression(t, 0) == Some((math_as_expression(e), (t.len() - 1) as nat)));
    assert(let_in(t, 0) is None);
    match e {
        SpecMathTarget::Math(sign, l, r) => {
            lemma_render_len(*l);
            let rl = render_bracketed(*l);
            assert(t[1] == rl[0]);
            assert(rl[0] != SpecToken::RoundBracketRight) by {
                match *l {
                    SpecMathTarget::Math(_, _, _) => {},
                    _ => {},
                }
            }
            assert(identifier_at(t, 0) is None);
            assert(lambda(t, 0) is None);
        },
        _ => {
            assert(t.len() == 1);
            assert(call(t, 0) is None);
        },
    }
    assert(tagged_map(t, 0) is None);
    assert(call(t, 0) is None);
    assert(expression(t, 0) == Some((math_as_expression(e), (t.len() - 1) as nat)));
}

} // verus!
