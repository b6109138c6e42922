//! Arithmetic over numbers and names.
//!
//! ```text
//! math   = atom (sign atom)*     precedence climbing, every sign left-associative
//! sign   = "*" | "/"             binds tighter
//!        | "+" | "-"
//! atom   = "(" math ")" | number | identifier | "String" | "Int"
//! ```
//! A sign whose right operand does not parse is left unread.
use vstd::prelude::*;

use crate::script::lexer::{SpecToken, Token, remaining};

verus! {

#[derive(Clone, Copy, Debug, PartialEq, Eq, Structural)]
pub enum MathSign {
    Subtraction,
    Addition,
    Multiplication,
    Division,
}

/// An operand: a number, a name, or a computation.
#[derive(Debug, PartialEq)]
pub enum MathTarget {
    Number(isize),
    Reference(String),
    Math(Box<Math>),
}

/// `left sign right`.
#[derive(Debug, PartialEq)]
pub struct Math {
    pub sign: MathSign,
    pub left: MathTarget,
    pub right: MathTarget,
}

/// The mathematical model of a [`MathTarget`].
pub enum SpecMathTarget {
    Number(isize),
    Reference(Seq<char>),
    Math(MathSign, Box<SpecMathTarget>, Box<SpecMathTarget>),
}

pub open spec fn target_view(t: MathTarget) -> SpecMathTarget
    decreases t,
{
    match t {
        MathTarget::Number(n) => SpecMathTarget::Number(n),
        MathTarget::Reference(r) => SpecMathTarget::Reference(r@),
        MathTarget::Math(m) => SpecMathTarget::Math(
            m.sign,
            Box::new(target_view(m.left)),
            Box::new(target_view(m.right)),
        ),
    }
}

impl View for MathTarget {
    type V = SpecMathTarget;

    open spec fn view(&self) -> SpecMathTarget {
        target_view(*self)
    }
}

// ---------------------------------------------------------------------------
// The grammar.
// ---------------------------------------------------------------------------

/// A sign with its left and right binding powers.
pub open spec fn sign_of(t: SpecToken) -> Option<(MathSign, int, int)> {
    match t {
        SpecToken::Asterisk => Some((MathSign::Multiplication, 4, 5)),
        SpecToken::ForwardSlash => Some((MathSign::Division, 4, 5)),
        SpecToken::Plus => Some((MathSign::Addition, 2, 3)),
        SpecToken::Minus => Some((MathSign::Subtraction, 2, 3)),
        _ => None,
    }
}

/// The operand that a single token stands for.
pub open spec fn target_of(t: SpecToken) -> Option<SpecMathTarget> {
    match t {
        SpecToken::Number(n) => Some(SpecMathTarget::Number(n)),
        SpecToken::Identifier(r) => Some(SpecMathTarget::Reference(r)),
        SpecToken::String => Some(SpecMathTarget::Reference(seq!['S', 't', 'r', 'i', 'n', 'g'])),
        SpecToken::Int => Some(SpecMathTarget::Reference(seq!['I', 'n', 't'])),
        _ => None,
    }
}

pub open spec fn is_at(t: Seq<SpecToken>, p: int, k: SpecToken) -> bool {
    0 <= p < t.len() && t[p] == k
}

/// Arithmetic from `p` on whose signs have binding power at least `min`;
/// `Some((e, k))` takes `k + 1` tokens.
pub open spec fn math_expr(t: Seq<SpecToken>, p: int, min: int) -> Option<(SpecMathTarget, nat)>
    decreases remaining(t.len() as int, p), 2nat,
{
    if p < 0 || p >= t.len() {
        None
    } else {
        match math_atom(t, p) {
        Some((lhs, k)) => {
            let (e, m) = math_signs(t, lhs, p + 1 + k, min);
            Some((e, k + m))
            },
            None => None,
        }
    }
}

/// The signs and operands that follow `lhs` from `q` on; takes the returned
/// number of tokens.
pub open spec fn math_signs(t: Seq<SpecToken>, lhs: SpecMathTarget, q: int, min: int) -> (
    SpecMathTarget,
    nat,
)
    decreases remaining(t.len() as int, q), 3nat,
{
    if q < 0 || q >= t.len() {
        (lhs, 0)
    } else {
        match sign_of(t[q]) {
            Some((sign, lp, rp)) => if lp >= min {
                match math_expr(t, q + 1, rp) {
                    Some((rhs, k)) => {
                        let (e, m) = math_signs(
                            t,
                            SpecMathTarget::Math(sign, Box::new(lhs), Box::new(rhs)),
                            q + 2 + k,
                            min,
                        );
                        (e, k + 2 + m)
                    },
                    None => (lhs, 0),
                }
            } else {
                (lhs, 0)
            },
            None => (lhs, 0),
        }
    }
}

/// An operand in brackets, or a single-token operand; `Some((e, k))` takes
/// `k + 1` tokens.
pub open spec fn math_atom(t: Seq<SpecToken>, p: int) -> Option<(SpecMathTarget, nat)>
    decreases remaining(t.len() as int, p), 1nat,
{
    if p < 0 || p >= t.len() {
        None
    } else if t[p] == SpecToken::RoundBracketLeft {
        match math_expr(t, p + 1, 0) {
            Some((e, k)) => if is_at(t, p + 2 + k, SpecToken::RoundBracketRight) {
                Some((e, k + 2))
            } else {
                None
            },
            None => None,
        }
    } else {
        match target_of(t[p]) {
            Some(e) => Some((e, 0)),
            None => None,
        }
    }
}

/// The views of a slice of tokens.
pub open spec fn tv(t: &[Token]) -> Seq<SpecToken> {
    t@.map_values(|x: Token| x@)
}

// ---------------------------------------------------------------------------
// The parser.
// ---------------------------------------------------------------------------

fn sign_exec(t: &Token) -> (r: Option<(MathSign, u8, u8)>)
    ensures
        match r {
            Some((s, lp, rp)) => sign_of(t@) == Some((s, lp as int, rp as int)),
            None => sign_of(t@) is None,
        },
{
    match t {
        Token::Asterisk => Some((MathSign::Multiplication, 4, 5)),
        Token::ForwardSlash => Some((MathSign::Division, 4, 5)),
        Token::Plus => Some((MathSign::Addition, 2, 3)),
        Token::Minus => Some((MathSign::Subtraction, 2, 3)),
        _ => None,
    }
}

/// The operand that the single token `t` stands for: a number, a name, or
/// the type names `String` and `Int`.
pub fn math_target(t: &Token) -> (r: Option<MathTarget>)
    ensures
        match r {
            Some(e) => target_of(t@) == Some(e@),
            None => target_of(t@) is None,
        },
{
    match t {
        Token::Number(n) => {
            let e = MathTarget::Number(*n);
            assert(e@ == SpecMathTarget::Number(*n));
            Some(e)
        },
        Token::Identifier(r) => Some(MathTarget::Reference(r.clone())),
        Token::String => {
            let r = String::from_str("String");
            proof {
                reveal_strlit("String");
            }
            assert(r@ == seq!['S', 't', 'r', 'i', 'n', 'g']);
            Some(MathTarget::Reference(r))
        },
        Token::Int => {
            let r = String::from_str("Int");
            proof {
                reveal_strlit("Int");
            }
            assert(r@ == seq!['I', 'n', 't']);
            Some(MathTarget::Reference(r))
        },
        _ => None,
    }
}

pub(crate) fn math_expr_exec(t: &[Token], p: usize, min: u8) -> (r: Option<(MathTarget, usize)>)
    requires
        p <= t.len(),
    ensures
        match r {
            Some((e, k)) => math_expr(tv(t), p as int, min as int) == Some((e@, k as nat)) && p
                + 1 + k <= t.len(),
            None => math_expr(tv(t), p as int, min as int) is None,
        },
    decreases remaining(t@.len() as int, p as int), 2nat,
{
    match math_atom_exec(t, p) {
        Some((lhs, k)) => {
            let (e, m) = math_signs_exec(t, lhs, p + 1 + k, min);
            Some((e, k + m))
        },
        None => None,
    }
}

fn math_signs_exec(t: &[Token], lhs: MathTarget, q: usize, min: u8) -> (r: (MathTarget, usize))
    requires
        q <= t.len(),
    ensures
        math_signs(tv(t), lhs@, q as int, min as int) == (r.0@, r.1 as nat),
        q + r.1 <= t.len(),
    decreases remaining(t@.len() as int, q as int), 3nat,
{
    if q >= t.len() {
        return (lhs, 0);
    }
    match sign_exec(&t[q]) {
        Some((sign, lp, rp)) => {
            if lp >= min {
                match math_expr_exec(t, q + 1, rp) {
                    Some((rhs, k)) => {
                        let combined = MathTarget::Math(Box::new(Math { sign, left: lhs, right: rhs }));
                        let (e, m) = math_signs_exec(t, combined, q + 2 + k, min);
                        (e, k + 2 + m)
                    },
                    None => (lhs, 0),
                }
            } else {
                (lhs, 0)
            }
        },
        None => (lhs, 0),
    }
}

fn math_atom_exec(t: &[Token], p: usize) -> (r: Option<(MathTarget, usize)>)
    requires
        p <= t.len(),
    ensures
        match r {
            Some((e, k)) => math_atom(tv(t), p as int) == Some((e@, k as nat)) && p + 1 + k <= t.len(),
            None => math_atom(tv(t), p as int) is None,
        },
    decreases remaining(t@.len() as int, p as int), 1nat,
{
    if p >= t.len() {
        return None;
    }
    if let Token::RoundBracketLeft = &t[p] {
        match math_expr_exec(t, p + 1, 0) {
            Some((e, k)) => {
                if p + 2 + k < t.len() && matches!(t[p + 2 + k], Token::RoundBracketRight) {
                    Some((e, k + 2))
                } else {
                    None
                }
            },
            None => None,
        }
    } else {
        match math_target(&t[p]) {
            Some(e) => Some((e, 0)),
            None => None,
        }
    }
}

/// Reads arithmetic from the front of `tokens`: `Some((e, n))` where the
/// first `n` tokens spell `e`, `None` where the first token starts no
/// operand.
pub fn math(tokens: &[Token]) -> (r: Option<(MathTarget, usize)>)
    ensures
        match r {
            Some((e, n)) => n >= 1 && math_expr(tv(tokens), 0, 0) == Some((e@, (n - 1) as nat)),
            None => math_expr(tv(tokens), 0, 0) is None,
        },
{
    match math_expr_exec(tokens, 0, 0) {
        Some((e, k)) => Some((e, k + 1)),
        None => None,
    }
}

// ---------------------------------------------------------------------------
// Laws.
// ---------------------------------------------------------------------------

/// The token of a sign.
pub open spec fn sign_token(s: MathSign) -> SpecToken {
    match s {
        MathSign::Subtraction => SpecToken::Minus,
        MathSign::Addition => SpecToken::Plus,
        MathSign::Multiplication => SpecToken::Asterisk,
        MathSign::Division => SpecToken::ForwardSlash,
    }
}

/// The tokens of `e` with every computation in brackets.
pub open spec fn render_bracketed(e: SpecMathTarget) -> Seq<SpecToken>
    decreases e,
{
    match e {
        SpecMathTarget::Number(n) => seq![SpecToken::Number(n)],
        SpecMathTarget::Reference(r) => seq![SpecToken::Identifier(r)],
        SpecMathTarget::Math(sign, l, r) => seq![SpecToken::RoundBracketLeft] + render_bracketed(*l)
            + seq![sign_token(sign)] + render_bracketed(*r) + seq![SpecToken::RoundBracketRight],
    }
}

pub(crate) proof fn lemma_render_len(e: SpecMathTarget)
    ensures
        render_bracketed(e).len() >= 1,
    decreases e,
{
    if let SpecMathTarget::Math(_, l, r) = e {
        lemma_render_len(*l);
        lemma_render_len(*r);
    }
}

/// Wherever a bracketed rendering stands, an atom reads it back whole.
proof fn lemma_atom_reads_rendering(t: Seq<SpecToken>, p: int, e: SpecMathTarget)
    requires
        0 <= p,
        p + render_bracketed(e).len() <= t.len(),
        t.subrange(p, p + render_bracketed(e).len()) == render_bracketed(e),
    ensures
        math_atom(t, p) == Some((e, (render_bracketed(e).len() - 1) as nat)),
    decreases e,
{
    let re = render_bracketed(e);
    assert(t[p] == re[0]) by {
        assert(t.subrange(p, p + re.len())[0] == t[p]);
    }
    match e {
        SpecMathTarget::Number(n) => {},
        SpecMathTarget::Reference(r) => {},
        SpecMathTarget::Math(sign, l, r) => {
            let rl = render_bracketed(*l);
            let rr = render_bracketed(*r);
            lemma_render_len(*l);
            lemma_render_len(*r);
            let a = rl.len() as int;
            let b = rr.len() as int;
            assert(re.len() == a + b + 3);
            assert(t.subrange(p + 1, p + 1 + a) =~= rl) by {
                assert forall|i: int| 0 <= i < a implies t.subrange(p + 1, p + 1 + a)[i] == rl[i] by {
                    assert(t.subrange(p, p + re.len())[1 + i] == re[1 + i]);
                }
            }
            assert(t.subrange(p + 2 + a, p + 2 + a + b) =~= rr) by {
                assert forall|i: int| 0 <= i < b implies t.subrange(p + 2 + a, p + 2 + a + b)[i]
                    == rr[i] by {
                    assert(t.subrange(p, p + re.len())[2 + a + i] == re[2 + a + i]);
                }
            }
            assert(t[p + 1 + a] == sign_token(sign)) by {
                assert(t.subrange(p, p + re.len())[1 + a] == re[1 + a]);
            }
            assert(t[p + 2 + a + b] == SpecToken::RoundBracketRight) by {
                assert(t.subrange(p, p + re.len())[2 + a + b] == re[2 + a + b]);
            }
            lemma_atom_reads_rendering(t, p + 1, *l);
            lemma_atom_reads_rendering(t, p + 2 + a, *r);
            let (_, lp, rp) = sign_of(sign_token(sign))->0;
            assert(math_signs(t, *r, p + 2 + a + b, rp) == (*r, 0nat));
            assert(math_expr(t, p + 2 + a, rp) == Some((*r, (b - 1) as nat)));
            let m = SpecMathTarget::Math(sign, l, r);
            assert(math_signs(t, m, p + 2 + a + b, 0) == (m, 0nat));
            assert(math_signs(t, *l, p + 1 + a, 0) == (m, (b + 1) as nat));
            assert(math_expr(t, p + 1, 0) == Some((m, (a + b) as nat)));
        },
    }
}

/// Arithmetic with every computation in brackets reads back as itself.
pub proof fn law_bracketed_math_reads_back(e: SpecMathTarget)
    ensures
        math_expr(render_bracketed(e), 0, 0) == Some((e, (render_bracketed(e).len() - 1) as nat)),
{
    let t = render_bracketed(e);
    lemma_render_len(e);
    assert(t.subrange(0, t.len() as int) =~= t);
    lemma_atom_reads_rendering(t, 0, e);
}

/// Two signs between three operands: the second sign takes the middle
/// operand when it binds tighter than the first; otherwise the first sign
/// goes first (all signs associate to the left).
pub proof fn law_signs_follow_precedence(
    x: SpecToken,
    s1: SpecToken,
    y: SpecToken,
    s2: SpecToken,
    z: SpecToken,
)
    requires
        target_of(x) is Some,
        target_of(y) is Some,
        target_of(z) is Some,
        sign_of(s1) is Some,
        sign_of(s2) is Some,
    ensures
        ({
            let (o1, lp1, _) = sign_of(s1)->0;
            let (o2, lp2, _) = sign_of(s2)->0;
            let (a, b, c) = (target_of(x)->0, target_of(y)->0, target_of(z)->0);
            math_expr(seq![x, s1, y, s2, z], 0, 0) == Some(
                (
                    if lp2 > lp1 {
                        SpecMathTarget::Math(
                            o1,
                            Box::new(a),
                            Box::new(SpecMathTarget::Math(o2, Box::new(b), Box::new(c))),
                        )
                    } else {
                        SpecMathTarget::Math(
                            o2,
                            Box::new(SpecMathTarget::Math(o1, Box::new(a), Box::new(b))),
                            Box::new(c),
                        )
                    },
                    4nat,
                ),
            )
        }),
{
    let t = seq![x, s1, y, s2, z];
    let (o1, lp1, rp1) = sign_of(s1)->0;
    let (o2, lp2, rp2) = sign_of(s2)->0;
    let (a, b, c) = (target_of(x)->0, target_of(y)->0, target_of(z)->0);
    assert(t[0] == x && t[1] == s1 && t[2] == y && t[3] == s2 && t[4] == z);
    assert(math_atom(t, 0) == Some((a, 0nat)));
    assert(math_atom(t, 2) == Some((b, 0nat)));
    assert(math_atom(t, 4) == Some((c, 0nat)));
    assert(math_signs(t, c, 5, rp2) == (c, 0nat));
    assert(math_expr(t, 4, rp2) == Some((c, 0nat)));
    if lp2 > lp1 {
        let bc = SpecMathTarget::Math(o2, Box::new(b), Box::new(c));
        assert(math_signs(t, bc, 5, rp1) == (bc, 0nat));
        assert(math_signs(t, b, 3, rp1) == (bc, 2nat));
        assert(math_expr(t, 2, rp1) == Some((bc, 2nat)));
        let abc = SpecMathTarget::Math(o1, Box::new(a), Box::new(bc));
        assert(math_signs(t, abc, 5, 0) == (abc, 0nat));
        assert(math_signs(t, a, 1, 0) == (abc, 4nat));
    } else {
        assert(math_signs(t, b, 3, rp1) == (b, 0nat));
        assert(math_expr(t, 2, rp1) == Some((b, 0nat)));
        let ab = SpecMathTarget::Math(o1, Box::new(a), Box::new(b));
        let abc = SpecMathTarget::Math(o2, Box::new(ab), Box::new(c));
        assert(math_signs(t, abc, 5, 0) == (abc, 0nat));
        assert(math_signs(t, ab, 3, 0) == (abc, 2nat));
        assert(math_signs(t, a, 1, 0) == (abc, 4nat));
    }
}

} // verus!
