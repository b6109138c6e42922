//! The grammar of Bilda, as functions on token sequences.
//!
//! Each function reads the tokens from a position on and gives what it
//! recognises there with the number of tokens it takes. Alternatives are
//! tried in order and a failed alternative gives back what it read; a
//! repetition stops at the first item that does not parse.
//!
//! ```text
//! expr        = ident+ "=>" expr | operand+            (application)
//! operand     = prefix* atom (postfix | infix)*        (precedence climbing)
//! prefix      = "~" | "+" | "*" | "-"                  binds tighter than infix
//! postfix     = "." ident | "::" ident                 binds tightest
//! infix       = "*" (left, high) | "+" | "-" (left, low)
//! atom        = "{" NL* field* NL* "}" | number | ident | "(" operand ")"
//! field       = ident ("=" operand)?
//! declaration = ident "=" expr
//! block       = "vars" NL+ declarations NL* "expr" NL+ expr
//! program     = blocks, then the end of the tokens
//! ```
//! `declarations` and `blocks` are separated by one or more line breaks and
//! may end with a trailing separator.
use vstd::prelude::*;

use crate::ast::{AccessKind, InfixOp, PrefixOp, SpecBinding, SpecBlock, SpecExpr};
use crate::lexer::{remaining, SpecToken};

verus! {

/// The weakest binding power: every operator may follow.
pub open spec fn power_lowest() -> int {
    0
}

/// The binding power that a prefix operator's operand is parsed with.
pub open spec fn power_prefix() -> int {
    6
}

pub open spec fn prefix_op(t: SpecToken) -> Option<PrefixOp> {
    match t {
        SpecToken::Tilde => Some(PrefixOp::Annotation),
        SpecToken::Plus => Some(PrefixOp::Sum),
        SpecToken::Star => Some(PrefixOp::Product),
        SpecToken::Minus => Some(PrefixOp::Difference),
        _ => None,
    }
}

/// An infix operator with its left and right binding powers.
pub open spec fn infix_op(t: SpecToken) -> Option<(InfixOp, int, int)> {
    match t {
        SpecToken::Star => Some((InfixOp::Mul, 4, 5)),
        SpecToken::Plus => Some((InfixOp::Add, 2, 3)),
        SpecToken::Minus => Some((InfixOp::Sub, 2, 3)),
        _ => None,
    }
}

pub open spec fn ident_at(t: Seq<SpecToken>, p: int) -> Option<Seq<char>> {
    if 0 <= p < t.len() {
        match t[p] {
            SpecToken::Ident(n) => Some(n),
            _ => None,
        }
    } else {
        None
    }
}

pub open spec fn is_at(t: Seq<SpecToken>, p: int, k: SpecToken) -> bool {
    0 <= p < t.len() && t[p] == k
}

/// The number of line breaks from `p` on.
pub open spec fn newlines(t: Seq<SpecToken>, p: int) -> nat
    decreases t.len() - p,
{
    if 0 <= p < t.len() && t[p] == SpecToken::Newline {
        1 + newlines(t, p + 1)
    } else {
        0
    }
}

/// The names from `p` on, up to the first token that is not a name.
pub open spec fn names(t: Seq<SpecToken>, p: int) -> Seq<Seq<char>>
    decreases t.len() - p,
{
    match ident_at(t, p) {
        Some(n) => seq![n] + names(t, p + 1),
        None => Seq::empty(),
    }
}

/// An operand with binding power at least `min`; `Some((e, k))` takes
/// `k + 1` tokens.
pub open spec fn operand(t: Seq<SpecToken>, p: int, min: int) -> Option<(SpecExpr, nat)>
    decreases remaining(t.len() as int, p), 3nat,
{
    if p < 0 || p >= t.len() {
        None
    } else {
        let head = match prefix_op(t[p]) {
            Some(op) => match operand(t, p + 1, power_prefix()) {
                Some((rhs, k)) => Some((SpecExpr::Prefix(op, Box::new(rhs)), k + 1)),
                None => atom(t, p),
            },
            None => atom(t, p),
        };
        match head {
            Some((lhs, k)) => {
                let (e, m) = operators(t, lhs, p + 1 + k, min);
                Some((e, k + m))
            },
            None => None,
        }
    }
}

/// The postfix and infix operators that follow `lhs` from `q` on; takes the
/// returned number of tokens.
pub open spec fn operators(t: Seq<SpecToken>, lhs: SpecExpr, q: int, min: int) -> (SpecExpr, nat)
    decreases remaining(t.len() as int, q), 4nat,
{
    if q < 0 || q >= t.len() {
        (lhs, 0)
    } else if t[q] == SpecToken::DotSingle && ident_at(t, q + 1) is Some {
        let f = ident_at(t, q + 1)->0;
        let (e, m) = operators(
            t,
            SpecExpr::Access(Box::new(lhs), f, AccessKind::Value),
            q + 2,
            min,
        );
        (e, m + 2)
    } else if t[q] == SpecToken::DoubleColon && ident_at(t, q + 1) is Some {
        let f = ident_at(t, q + 1)->0;
        let (e, m) = operators(t, SpecExpr::Access(Box::new(lhs), f, AccessKind::Type), q + 2, min);
        (e, m + 2)
    } else {
        match infix_op(t[q]) {
            Some((op, lp, rp)) => if lp >= min {
                match operand(t, q + 1, rp) {
                    Some((rhs, k)) => {
                        let (e, m) = operators(
                            t,
                            SpecExpr::Infix(op, Box::new(lhs), Box::new(rhs)),
                            q + 2 + k,
                            min,
                        );
                        (e, k + 2 + m)
                    },
                    None => (lhs, 0),
                }
            } else {
                (lhs, 0)
            },
            None => (lhs, 0),
        }
    }
}

/// An atom; `Some((e, k))` takes `k + 1` tokens.
pub open spec fn atom(t: Seq<SpecToken>, p: int) -> Option<(SpecExpr, nat)>
    decreases remaining(t.len() as int, p), 2nat,
{
    if p < 0 || p >= t.len() {
        None
    } else {
        match t[p] {
            SpecToken::CurlyLeft => {
                let n1 = newlines(t, p + 1);
                let (fs, j) = fields(t, p + 1 + n1);
                let n2 = newlines(t, p + 1 + n1 + j);
                if is_at(t, p + 1 + n1 + j + n2, SpecToken::CurlyRight) {
                    Some((SpecExpr::Record(fs), n1 + j + n2 + 1))
                } else {
                    None
                }
            },
            SpecToken::Number(n) => Some((SpecExpr::Number(n), 0)),
            SpecToken::Ident(n) => Some((SpecExpr::Ident(n), 0)),
            SpecToken::BracketLeft => match operand(t, p + 1, power_lowest()) {
                Some((e, k)) => if is_at(t, p + 2 + k, SpecToken::BracketRight) {
                    Some((e, k + 2))
                } else {
                    None
                },
                None => None,
            },
            _ => None,
        }
    }
}

/// The record fields from `a` on; takes the returned number of tokens.
pub open spec fn fields(t: Seq<SpecToken>, a: int) -> (Seq<SpecBinding>, nat)
    decreases remaining(t.len() as int, a), 1nat,
{
    if a < 0 || a >= t.len() {
        (Seq::empty(), 0)
    } else {
        match field(t, a) {
            Some((b, k)) => {
                let (rest, m) = fields(t, a + 1 + k);
                (seq![b] + rest, k + 1 + m)
            },
            None => (Seq::empty(), 0),
        }
    }
}

/// A record field; a bare name stands for `name = name`. `Some((b, k))`
/// takes `k + 1` tokens.
pub open spec fn field(t: Seq<SpecToken>, a: int) -> Option<(SpecBinding, nat)>
    decreases remaining(t.len() as int, a), 0nat,
{
    match ident_at(t, a) {
        Some(name) => {
            let shorthand = Some((SpecBinding { name, value: SpecExpr::Ident(name) }, 0nat));
            if is_at(t, a + 1, SpecToken::Equal) {
                match operand(t, a + 2, power_lowest()) {
                    Some((v, k)) => Some((SpecBinding { name, value: v }, k + 2)),
                    None => shorthand,
                }
            } else {
                shorthand
            }
        },
        None => None,
    }
}

/// Further operands applied to `f` from `q` on; takes the returned number of
/// tokens.
pub open spec fn arguments(t: Seq<SpecToken>, f: SpecExpr, q: int) -> (SpecExpr, nat)
    decreases remaining(t.len() as int, q),
{
    if q < 0 || q >= t.len() {
        (f, 0)
    } else {
        match operand(t, q, power_lowest()) {
            Some((a, k)) => {
                let (e, m) = arguments(t, SpecExpr::Apply(Box::new(f), Box::new(a)), q + 1 + k);
                (e, k + 1 + m)
            },
            None => (f, 0),
        }
    }
}

/// One or more operands, applied left to right; `Some((e, k))` takes
/// `k + 1` tokens.
pub open spec fn application(t: Seq<SpecToken>, p: int) -> Option<(SpecExpr, nat)> {
    match operand(t, p, power_lowest()) {
        Some((f, k)) => {
            let (e, m) = arguments(t, f, p + 1 + k);
            Some((e, k + m))
        },
        None => None,
    }
}

/// An expression: a lambda or an application. `Some((e, k))` takes `k + 1`
/// tokens.
pub open spec fn expr(t: Seq<SpecToken>, p: int) -> Option<(SpecExpr, nat)>
    decreases remaining(t.len() as int, p),
{
    let ps = names(t, p);
    let n = ps.len();
    if n >= 1 && is_at(t, p + n, SpecToken::Arrow) && expr(t, p + n + 1) is Some {
        let (body, k) = expr(t, p + n + 1)->0;
        Some((SpecExpr::Lambda(ps, Box::new(body)), n + k + 1))
    } else {
        application(t, p)
    }
}

/// `name = expr`; `Some((b, k))` takes `k + 1` tokens.
pub open spec fn declaration(t: Seq<SpecToken>, p: int) -> Option<(SpecBinding, nat)> {
    match ident_at(t, p) {
        Some(name) => if is_at(t, p + 1, SpecToken::Equal) {
            match expr(t, p + 2) {
                Some((v, k)) => Some((SpecBinding { name, value: v }, k + 2)),
                None => None,
            }
        } else {
            None
        },
        None => None,
    }
}

/// Declarations after the first, each after one or more line breaks; a
/// trailing run of line breaks is taken too.
pub open spec fn more_declarations(t: Seq<SpecToken>, q: int) -> (Seq<SpecBinding>, nat)
    decreases remaining(t.len() as int, q),
{
    let n = newlines(t, q);
    if n == 0 || q < 0 || q >= t.len() {
        (Seq::empty(), 0)
    } else {
        match declaration(t, q + n) {
            Some((d, k)) => {
                let (rest, m) = more_declarations(t, q + n + 1 + k);
                (seq![d] + rest, n + k + 1 + m)
            },
            None => (Seq::empty(), n),
        }
    }
}

/// Zero or more declarations separated by line breaks.
pub open spec fn declarations(t: Seq<SpecToken>, p: int) -> (Seq<SpecBinding>, nat) {
    match declaration(t, p) {
        Some((d, k)) => {
            let (rest, m) = more_declarations(t, p + 1 + k);
            (seq![d] + rest, k + 1 + m)
        },
        None => (Seq::empty(), 0),
    }
}

/// `vars` declarations `expr` body; `Some((b, k))` takes `k + 1` tokens.
pub open spec fn block(t: Seq<SpecToken>, p: int) -> Option<(SpecBlock, nat)> {
    if is_at(t, p, SpecToken::Vars) && newlines(t, p + 1) >= 1 {
        let a = p + 1 + newlines(t, p + 1);
        let (ds, j) = declarations(t, a);
        let b = a + j + newlines(t, a + j);
        if is_at(t, b, SpecToken::Expr) && newlines(t, b + 1) >= 1 {
            match expr(t, b + 1 + newlines(t, b + 1)) {
                Some((e, k)) => Some((SpecBlock::Let(ds, e), (b + 1 + newlines(t, b + 1) + k - p) as nat)),
                None => None,
            }
        } else {
            None
        }
    } else {
        None
    }
}

/// Blocks after the first, each after one or more line breaks; a trailing
/// run of line breaks is taken too.
pub open spec fn more_blocks(t: Seq<SpecToken>, q: int) -> (Seq<SpecBlock>, nat)
    decreases remaining(t.len() as int, q),
{
    let n = newlines(t, q);
    if n == 0 || q < 0 || q >= t.len() {
        (Seq::empty(), 0)
    } else {
        match block(t, q + n) {
            Some((b, k)) => {
                let (rest, m) = more_blocks(t, q + n + 1 + k);
                (seq![b] + rest, n + k + 1 + m)
            },
            None => (Seq::empty(), n),
        }
    }
}

/// Zero or more blocks separated by line breaks.
pub open spec fn blocks(t: Seq<SpecToken>) -> (Seq<SpecBlock>, nat) {
    match block(t, 0) {
        Some((b, k)) => {
            let (rest, m) = more_blocks(t, 1 + k as int);
            (seq![b] + rest, k + 1 + m)
        },
        None => (Seq::empty(), 0),
    }
}

/// The program that the tokens `t` spell, if the blocks take all of them.
pub open spec fn spec_parse(t: Seq<SpecToken>) -> Option<Seq<SpecBlock>> {
    let (bs, n) = blocks(t);
    if n == t.len() {
        Some(bs)
    } else {
        None
    }
}

/// The operand that a single number or name stands for.
pub open spec fn simple_operand(t: SpecToken) -> Option<SpecExpr> {
    match t {
        SpecToken::Number(n) => Some(SpecExpr::Number(n)),
        SpecToken::Ident(n) => Some(SpecExpr::Ident(n)),
        _ => None,
    }
}

/// Two infix operators between three numbers or names: the second takes the
/// middle operand when it binds tighter than the first (`*` against `+` or
/// `-`); otherwise the first goes first (all infix operators associate to
/// the left).
pub proof fn law_infix_follows_precedence(
    x: SpecToken,
    s1: SpecToken,
    y: SpecToken,
    s2: SpecToken,
    z: SpecToken,
)
    requires
        simple_operand(x) is Some,
        simple_operand(y) is Some,
        simple_operand(z) is Some,
        infix_op(s1) is Some,
        infix_op(s2) is Some,
    ensures
        ({
            let (o1, lp1, _) = infix_op(s1)->0;
            let (o2, lp2, _) = infix_op(s2)->0;
            let (a, b, c) = (simple_operand(x)->0, simple_operand(y)->0, simple_operand(z)->0);
            operand(seq![x, s1, y, s2, z], 0, power_lowest()) == Some(
                (
                    if lp2 > lp1 {
                        SpecExpr::Infix(
                            o1,
                            Box::new(a),
                            Box::new(SpecExpr::Infix(o2, Box::new(b), Box::new(c))),
                        )
                    } else {
                        SpecExpr::Infix(
                            o2,
                            Box::new(SpecExpr::Infix(o1, Box::new(a), Box::new(b))),
                            Box::new(c),
                        )
                    },
                    4nat,
                ),
            )
        }),
{
    let t = seq![x, s1, y, s2, z];
    let (o1, lp1, rp1) = infix_op(s1)->0;
    let (o2, lp2, rp2) = infix_op(s2)->0;
    let (a, b, c) = (simple_operand(x)->0, simple_operand(y)->0, simple_operand(z)->0);
    assert(t[0] == x && t[1] == s1 && t[2] == y && t[3] == s2 && t[4] == z);
    assert(atom(t, 0) == Some((a, 0nat)));
    assert(atom(t, 2) == Some((b, 0nat)));
    assert(atom(t, 4) == Some((c, 0nat)));
    assert(operators(t, c, 5, rp2) == (c, 0nat));
    assert(operand(t, 4, rp2) == Some((c, 0nat)));
    if lp2 > lp1 {
        let bc = SpecExpr::Infix(o2, Box::new(b), Box::new(c));
        assert(operators(t, bc, 5, rp1) == (bc, 0nat));
        assert(operators(t, b, 3, rp1) == (bc, 2nat));
        assert(operand(t, 2, rp1) == Some((bc, 2nat)));
        let abc = SpecExpr::Infix(o1, Box::new(a), Box::new(bc));
        assert(operators(t, abc, 5, 0) == (abc, 0nat));
        assert(operators(t, a, 1, 0) == (abc, 4nat));
    } else {
        assert(operators(t, b, 3, rp1) == (b, 0nat));
        assert(operand(t, 2, rp1) == Some((b, 0nat)));
        let ab = SpecExpr::Infix(o1, Box::new(a), Box::new(b));
        let abc = SpecExpr::Infix(o2, Box::new(ab), Box::new(c));
        assert(operators(t, abc, 5, 0) == (abc, 0nat));
        assert(operators(t, ab, 3, 0) == (abc, 2nat));
        assert(operators(t, a, 1, 0) == (abc, 4nat));
    }
}

} // verus!
