//! The lexer: groups characters into tokens.
//!
//! Blanks (space, tab, carriage return, form feed) and comments (`#` up to the
//! end of the line) are skipped; a line break is a token of its own. At each
//! position the longest match wins, and a keyword wins over an identifier of
//! the same text.
use vstd::prelude::*;

use crate::text::{chars_of, string_from_chars};
use vstd::slice::slice_subrange;

verus! {

/// A token of the Bilda language.
#[derive(Debug, PartialEq)]
pub enum Token {
    Let,
    Expr,
    Vars,
    AngleLeft,
    AngleRight,
    BracketLeft,
    BracketRight,
    Comma,
    CurlyLeft,
    CurlyRight,
    DotSingle,
    DoubleColon,
    Colon,
    Arrow,
    Equal,
    Minus,
    Plus,
    SquareLeft,
    SquareRight,
    Star,
    Tilde,
    Newline,
    Number(String),
    Ident(String),
}

/// The mathematical model of a [`Token`]: texts are character sequences.
pub enum SpecToken {
    Let,
    Expr,
    Vars,
    AngleLeft,
    AngleRight,
    BracketLeft,
    BracketRight,
    Comma,
    CurlyLeft,
    CurlyRight,
    DotSingle,
    DoubleColon,
    Colon,
    Arrow,
    Equal,
    Minus,
    Plus,
    SquareLeft,
    SquareRight,
    Star,
    Tilde,
    Newline,
    Number(Seq<char>),
    Ident(Seq<char>),
}

impl View for Token {
    type V = SpecToken;

    open spec fn view(&self) -> SpecToken {
        match self {
            Token::Let => SpecToken::Let,
            Token::Expr => SpecToken::Expr,
            Token::Vars => SpecToken::Vars,
            Token::AngleLeft => SpecToken::AngleLeft,
            Token::AngleRight => SpecToken::AngleRight,
            Token::BracketLeft => SpecToken::BracketLeft,
            Token::BracketRight => SpecToken::BracketRight,
            Token::Comma => SpecToken::Comma,
            Token::CurlyLeft => SpecToken::CurlyLeft,
            Token::CurlyRight => SpecToken::CurlyRight,
            Token::DotSingle => SpecToken::DotSingle,
            Token::DoubleColon => SpecToken::DoubleColon,
            Token::Colon => SpecToken::Colon,
            Token::Arrow => SpecToken::Arrow,
            Token::Equal => SpecToken::Equal,
            Token::Minus => SpecToken::Minus,
            Token::Plus => SpecToken::Plus,
            Token::SquareLeft => SpecToken::SquareLeft,
            Token::SquareRight => SpecToken::SquareRight,
            Token::Star => SpecToken::Star,
            Token::Tilde => SpecToken::Tilde,
            Token::Newline => SpecToken::Newline,
            Token::Number(s) => SpecToken::Number(s@),
            Token::Ident(s) => SpecToken::Ident(s@),
        }
    }
}

/// The views of a sequence of tokens.
pub open spec fn tokens_view(ts: Seq<Token>) -> Seq<SpecToken> {
    ts.map_values(|t: Token| t@)
}

/// The lexer found a character where no token starts.
#[derive(Debug, PartialEq)]
pub enum LexerError {
    InvalidToken,
}

pub open spec fn is_alpha(c: char) -> bool {
    ('a' <= c && c <= 'z') || ('A' <= c && c <= 'Z')
}

pub open spec fn is_digit(c: char) -> bool {
    '0' <= c && c <= '9'
}

/// First character of an identifier: `[a-zA-Z_]`.
pub open spec fn is_ident_start(c: char) -> bool {
    is_alpha(c) || c == '_'
}

/// Later characters of an identifier: `[a-zA-Z0-9_]`.
pub open spec fn is_ident_char(c: char) -> bool {
    is_ident_start(c) || is_digit(c)
}

/// Characters skipped between tokens: `[ \t\r\f]`.
pub open spec fn is_blank(c: char) -> bool {
    c == ' ' || c == '\t' || c == '\r' || c == '\x0C'
}

/// The classes of characters that a token or a comment runs over.
pub enum CharClass {
    /// `[a-zA-Z0-9_]`
    IdentChar,
    /// `[0-9]`
    Digit,
    /// anything but a line break
    NotNewline,
}

pub open spec fn in_class(k: CharClass, c: char) -> bool {
    match k {
        CharClass::IdentChar => is_ident_char(c),
        CharClass::Digit => is_digit(c),
        CharClass::NotNewline => c != '\n',
    }
}

/// The number of characters of `s` from `p` on that are in class `k`, up to
/// the first that is not.
pub open spec fn run_len(s: Seq<char>, p: int, k: CharClass) -> nat
    decreases s.len() - p,
{
    if 0 <= p < s.len() && in_class(k, s[p]) {
        1 + run_len(s, p + 1, k)
    } else {
        0
    }
}

/// The token that a word (an identifier's text) stands for.
pub open spec fn word_token(w: Seq<char>) -> SpecToken {
    if w == seq!['l', 'e', 't'] {
        SpecToken::Let
    } else if w == seq!['e', 'x', 'p', 'r'] {
        SpecToken::Expr
    } else if w == seq!['v', 'a', 'r', 's'] {
        SpecToken::Vars
    } else {
        SpecToken::Ident(w)
    }
}

/// The token made of the single character `c`, if there is one.
pub open spec fn single_token(c: char) -> Option<SpecToken> {
    if c == '<' {
        Some(SpecToken::AngleLeft)
    } else if c == '>' {
        Some(SpecToken::AngleRight)
    } else if c == '(' {
        Some(SpecToken::BracketLeft)
    } else if c == ')' {
        Some(SpecToken::BracketRight)
    } else if c == ',' {
        Some(SpecToken::Comma)
    } else if c == '{' {
        Some(SpecToken::CurlyLeft)
    } else if c == '}' {
        Some(SpecToken::CurlyRight)
    } else if c == '.' {
        Some(SpecToken::DotSingle)
    } else if c == '-' {
        Some(SpecToken::Minus)
    } else if c == '+' {
        Some(SpecToken::Plus)
    } else if c == '[' {
        Some(SpecToken::SquareLeft)
    } else if c == ']' {
        Some(SpecToken::SquareRight)
    } else if c == '*' {
        Some(SpecToken::Star)
    } else if c == '~' {
        Some(SpecToken::Tilde)
    } else if c == '\n' {
        Some(SpecToken::Newline)
    } else {
        None
    }
}

/// The longest token that starts at `p` (which holds neither a blank nor `#`),
/// with the number of characters it takes, less one.
pub open spec fn token_at(s: Seq<char>, p: int) -> Option<(SpecToken, nat)> {
    let c = s[p];
    if is_ident_start(c) {
        let n = run_len(s, p + 1, CharClass::IdentChar);
        Some((word_token(s.subrange(p, p + 1 + n)), n))
    } else if is_digit(c) {
        let n = run_len(s, p + 1, CharClass::Digit);
        Some((SpecToken::Number(s.subrange(p, p + 1 + n)), n))
    } else if c == ':' {
        if p + 1 < s.len() && s[p + 1] == ':' {
            Some((SpecToken::DoubleColon, 1))
        } else {
            Some((SpecToken::Colon, 0))
        }
    } else if c == '=' {
        if p + 1 < s.len() && s[p + 1] == '>' {
            Some((SpecToken::Arrow, 1))
        } else {
            Some((SpecToken::Equal, 0))
        }
    } else {
        match single_token(c) {
            Some(t) => Some((t, 0)),
            None => None,
        }
    }
}

/// How far `p` is from the end of `s` (zero past the end).
pub open spec fn remaining(len: int, p: int) -> nat {
    if p <= len {
        (len - p) as nat
    } else {
        0
    }
}

/// The tokens of `s` from position `p` on, or `None` where some character
/// starts no token.
pub open spec fn lex_from(s: Seq<char>, p: int) -> Option<Seq<SpecToken>>
    decreases remaining(s.len() as int, p),
{
    if p < 0 || p >= s.len() {
        Some(Seq::empty())
    } else if is_blank(s[p]) {
        lex_from(s, p + 1)
    } else if s[p] == '#' {
        lex_from(s, p + 1 + run_len(s, p + 1, CharClass::NotNewline))
    } else {
        match token_at(s, p) {
            Some((t, n)) => match lex_from(s, p + 1 + n) {
                Some(rest) => Some(seq![t] + rest),
                None => None,
            },
            None => None,
        }
    }
}

/// The tokens of the whole text `s`.
pub open spec fn spec_lex(s: Seq<char>) -> Option<Seq<SpecToken>> {
    lex_from(s, 0)
}

proof fn lemma_run_len_bound(s: Seq<char>, p: int, k: CharClass)
    requires
        0 <= p <= s.len(),
    ensures
        p + run_len(s, p, k) <= s.len(),
    decreases s.len() - p,
{
    if p < s.len() && in_class(k, s[p]) {
        lemma_run_len_bound(s, p + 1, k);
    }
}

fn class_holds(k: &CharClass, c: char) -> (b: bool)
    ensures
        b == in_class(*k, c),
{
    match k {
        CharClass::IdentChar => ('a' <= c && c <= 'z') || ('A' <= c && c <= 'Z') || c == '_' || ('0'
            <= c && c <= '9'),
        CharClass::Digit => '0' <= c && c <= '9',
        CharClass::NotNewline => c != '\n',
    }
}

/// Counts the characters of `s` from `p` on that are in class `k`.
fn scan_run(s: &Vec<char>, p: usize, k: CharClass) -> (n: usize)
    requires
        p <= s@.len(),
    ensures
        n == run_len(s@, p as int, k),
        p + n <= s.len(),
{
    let mut i = p;
    while i < s.len()
        invariant
            p <= i <= s@.len(),
            run_len(s@, p as int, k) == (i - p) + run_len(s@, i as int, k),
        decreases s@.len() - i,
    {
        if !class_holds(&k, s[i]) {
            return i - p;
        }
        i = i + 1;
    }
    i - p
}

/// Whether `s[p..p + n]` spells `w`.
fn spells(s: &Vec<char>, p: usize, n: usize, w: &[char]) -> (b: bool)
    requires
        p + n <= s.len(),
    ensures
        b == (s@.subrange(p as int, p + n) == w@),
{
    if n != w.len() {
        return false;
    }
    let mut i: usize = 0;
    while i < n
        invariant
            i <= n,
            n == w@.len(),
            p + n <= s.len(),
            forall|j: int| 0 <= j < i ==> s@[p + j] == w@[j],
        decreases n - i,
    {
        if s[p + i] != w[i] {
            assert(s@.subrange(p as int, p + n)[i as int] != w@[i as int]);
            return false;
        }
        i = i + 1;
    }
    assert(s@.subrange(p as int, p + n) =~= w@);
    true
}

/// The token for the word `s[p..p + n]`.
fn word_token_exec(s: &Vec<char>, p: usize, n: usize) -> (t: Token)
    requires
        p + n <= s.len(),
    ensures
        t@ == word_token(s@.subrange(p as int, p + n)),
{
    let ghost w = s@.subrange(p as int, p + n);
    if spells(s, p, n, &['l', 'e', 't']) {
        assert(seq!['l', 'e', 't'] =~= ['l', 'e', 't']@);
        Token::Let
    } else if spells(s, p, n, &['e', 'x', 'p', 'r']) {
        assert(seq!['e', 'x', 'p', 'r'] =~= ['e', 'x', 'p', 'r']@);
        Token::Expr
    } else if spells(s, p, n, &['v', 'a', 'r', 's']) {
        assert(seq!['v', 'a', 'r', 's'] =~= ['v', 'a', 'r', 's']@);
        Token::Vars
    } else {
        proof {
            assert(seq!['l', 'e', 't'] =~= ['l', 'e', 't']@);
            assert(seq!['e', 'x', 'p', 'r'] =~= ['e', 'x', 'p', 'r']@);
            assert(seq!['v', 'a', 'r', 's'] =~= ['v', 'a', 'r', 's']@);
        }
        Token::Ident(string_from_chars(slice_subrange(s.as_slice(), p, p + n)))
    }
}

fn single_token_exec(c: char) -> (t: Option<Token>)
    ensures
        match t {
            Some(t) => single_token(c) == Some(t@),
            None => single_token(c) is None,
        },
{
    if c == '<' {
        Some(Token::AngleLeft)
    } else if c == '>' {
        Some(Token::AngleRight)
    } else if c == '(' {
        Some(Token::BracketLeft)
    } else if c == ')' {
        Some(Token::BracketRight)
    } else if c == ',' {
        Some(Token::Comma)
    } else if c == '{' {
        Some(Token::CurlyLeft)
    } else if c == '}' {
        Some(Token::CurlyRight)
    } else if c == '.' {
        Some(Token::DotSingle)
    } else if c == '-' {
        Some(Token::Minus)
    } else if c == '+' {
        Some(Token::Plus)
    } else if c == '[' {
        Some(Token::SquareLeft)
    } else if c == ']' {
        Some(Token::SquareRight)
    } else if c == '*' {
        Some(Token::Star)
    } else if c == '~' {
        Some(Token::Tilde)
    } else if c == '\n' {
        Some(Token::Newline)
    } else {
        None
    }
}

/// The longest token at `p`, with the number of characters it takes less one.
fn token_at_exec(s: &Vec<char>, p: usize) -> (r: Option<(Token, usize)>)
    requires
        p < s.len(),
    ensures
        match r {
            Some((t, n)) => token_at(s@, p as int) == Some((t@, n as nat)) && p + 1 + n <= s@.len(),
            None => token_at(s@, p as int) is None,
        },
{
    let c = s[p];
    if ('a' <= c && c <= 'z') || ('A' <= c && c <= 'Z') || c == '_' {
        let n = scan_run(s, p + 1, CharClass::IdentChar);
        Some((word_token_exec(s, p, n + 1), n))
    } else if '0' <= c && c <= '9' {
        let n = scan_run(s, p + 1, CharClass::Digit);
        let text = string_from_chars(slice_subrange(s.as_slice(), p, p + 1 + n));
        Some((Token::Number(text), n))
    } else if c == ':' {
        if p + 1 < s.len() && s[p + 1] == ':' {
            Some((Token::DoubleColon, 1))
        } else {
            Some((Token::Colon, 0))
        }
    } else if c == '=' {
        if p + 1 < s.len() && s[p + 1] == '>' {
            Some((Token::Arrow, 1))
        } else {
            Some((Token::Equal, 0))
        }
    } else {
        match single_token_exec(c) {
            Some(t) => Some((t, 0)),
            None => None,
        }
    }
}

/// Splits `source` into tokens.
///
/// Fails with [`LexerError::InvalidToken`] exactly where some character starts
/// no token.
pub fn lex(source: &str) -> (r: Result<Vec<Token>, LexerError>)
    ensures
        match r {
            Ok(ts) => spec_lex(source@) == Some(tokens_view(ts@)),
            Err(_) => spec_lex(source@) is None,
        },
{
    let s = chars_of(source);
    let mut out: Vec<Token> = Vec::new();
    let mut p: usize = 0;
    while p < s.len()
        invariant
            p <= s@.len(),
            s@ == source@,
            spec_lex(s@) == match lex_from(s@, p as int) {
                Some(rest) => Some(tokens_view(out@) + rest),
                None => None::<Seq<SpecToken>>,
            },
        decreases s@.len() - p,
    {
        let c = s[p];
        if c == ' ' || c == '\t' || c == '\r' || c == '\x0C' {
            p = p + 1;
        } else if c == '#' {
            let n = scan_run(&s, p + 1, CharClass::NotNewline);
            p = p + 1 + n;
        } else {
            match token_at_exec(&s, p) {
                Some((t, n)) => {
                    proof {
                        let ghost rest = lex_from(s@, p + 1 + n);
                        if let Some(r) = rest {
                            assert(tokens_view(out@.push(t)) =~= tokens_view(out@) + seq![t@]);
                            assert(tokens_view(out@) + (seq![t@] + r) =~= tokens_view(out@.push(t)) + r);
                        }
                    }
                    out.push(t);
                    p = p + 1 + n;
                },
                None => {
                    return Err(LexerError::InvalidToken);
                },
            }
        }
    }
    proof {
        assert(tokens_view(out@) + Seq::<SpecToken>::empty() =~= tokens_view(out@));
    }
    Ok(out)
}

// ---------------------------------------------------------------------------
// Rendering tokens back to text.
// ---------------------------------------------------------------------------

/// The text of a token.
pub open spec fn token_text(t: SpecToken) -> Seq<char> {
    match t {
        SpecToken::Let => seq!['l', 'e', 't'],
        SpecToken::Expr => seq!['e', 'x', 'p', 'r'],
        SpecToken::Vars => seq!['v', 'a', 'r', 's'],
        SpecToken::AngleLeft => seq!['<'],
        SpecToken::AngleRight => seq!['>'],
        SpecToken::BracketLeft => seq!['('],
        SpecToken::BracketRight => seq![')'],
        SpecToken::Comma => seq![','],
        SpecToken::CurlyLeft => seq!['{'],
        SpecToken::CurlyRight => seq!['}'],
        SpecToken::DotSingle => seq!['.'],
        SpecToken::DoubleColon => seq![':', ':'],
        SpecToken::Colon => seq![':'],
        SpecToken::Arrow => seq!['=', '>'],
        SpecToken::Equal => seq!['='],
        SpecToken::Minus => seq!['-'],
        SpecToken::Plus => seq!['+'],
        SpecToken::SquareLeft => seq!['['],
        SpecToken::SquareRight => seq![']'],
        SpecToken::Star => seq!['*'],
        SpecToken::Tilde => seq!['~'],
        SpecToken::Newline => seq!['\n'],
        SpecToken::Number(d) => d,
        SpecToken::Ident(w) => w,
    }
}

/// Whether the lexer can give the token `t` at all: a number is one or
/// more digits, a name is an identifier that is not a keyword.
pub open spec fn well_formed(t: SpecToken) -> bool {
    match t {
        SpecToken::Number(d) => d.len() >= 1 && forall|i: int| 0 <= i < d.len() ==> is_digit(
            #[trigger] d[i],
        ),
        SpecToken::Ident(w) => {
            &&& w.len() >= 1
            &&& is_ident_start(w[0])
            &&& forall|i: int| 0 <= i < w.len() ==> is_ident_char(#[trigger] w[i])
            &&& word_token(w) == SpecToken::Ident(w)
        },
        _ => true,
    }
}

/// The texts of the tokens, separated by single spaces.
pub open spec fn render(ts: Seq<SpecToken>) -> Seq<char>
    decreases ts.len(),
{
    if ts.len() == 0 {
        Seq::empty()
    } else if ts.len() == 1 {
        token_text(ts[0])
    } else {
        token_text(ts[0]) + seq![' '] + render(ts.drop_first())
    }
}

proof fn lemma_run_len_shift(a: Seq<char>, b: Seq<char>, i: int, k: CharClass)
    requires
        0 <= i <= b.len(),
    ensures
        run_len(a + b, a.len() + i, k) == run_len(b, i, k),
    decreases b.len() - i,
{
    if i < b.len() {
        assert((a + b)[a.len() + i] == b[i]);
        lemma_run_len_shift(a, b, i + 1, k);
    }
}

proof fn lemma_lex_shift(a: Seq<char>, b: Seq<char>, i: int)
    requires
        0 <= i <= b.len(),
    ensures
        lex_from(a + b, a.len() + i) == lex_from(b, i),
    decreases b.len() - i,
{
    let s = a + b;
    let p = a.len() + i;
    if i < b.len() {
        assert(s[p] == b[i]);
        if is_blank(b[i]) {
            lemma_lex_shift(a, b, i + 1);
        } else if b[i] == '#' {
            lemma_run_len_shift(a, b, i + 1, CharClass::NotNewline);
            lemma_run_len_bound(b, i + 1, CharClass::NotNewline);
            lemma_lex_shift(a, b, i + 1 + run_len(b, i + 1, CharClass::NotNewline));
        } else {
            if i + 1 < b.len() {
                assert(s[p + 1] == b[i + 1]);
            }
            lemma_run_len_shift(a, b, i + 1, CharClass::IdentChar);
            lemma_run_len_shift(a, b, i + 1, CharClass::Digit);
            lemma_run_len_bound(b, i + 1, CharClass::IdentChar);
            lemma_run_len_bound(b, i + 1, CharClass::Digit);
            let ni = run_len(b, i + 1, CharClass::IdentChar);
            let nd = run_len(b, i + 1, CharClass::Digit);
            assert(s.subrange(p, p + 1 + ni) =~= b.subrange(i, i + 1 + ni));
            assert(s.subrange(p, p + 1 + nd) =~= b.subrange(i, i + 1 + nd));
            assert(token_at(s, p) == token_at(b, i));
            match token_at(b, i) {
                Some((t, n)) => {
                    if i + 1 + n <= b.len() {
                        lemma_lex_shift(a, b, i + 1 + n);
                    }
                },
                None => {},
            }
        }
    } else {
        assert(p == s.len());
    }
}

/// `run_len` counts exactly a run that ends at a character outside the
/// class or at the end.
proof fn lemma_run_len_exact(s: Seq<char>, p: int, n: int, k: CharClass)
    requires
        0 <= p,
        0 <= n,
        p + n <= s.len(),
        forall|j: int| p <= j < p + n ==> in_class(k, #[trigger] s[j]),
        p + n == s.len() || !in_class(k, s[p + n]),
    ensures
        run_len(s, p, k) == n,
    decreases n,
{
    if n > 0 {
        assert(in_class(k, s[p]));
        lemma_run_len_exact(s, p + 1, n - 1, k);
    }
}

/// A rendered token followed by nothing or by a space lexes as that token.
proof fn lemma_token_at_rendered(t: SpecToken, rest: Seq<char>)
    requires
        well_formed(t),
        rest.len() == 0 || rest[0] == ' ',
    ensures
        token_at(token_text(t) + rest, 0) == Some((t, (token_text(t).len() - 1) as nat)),
        token_text(t).len() >= 1,
        !is_blank(token_text(t)[0]),
        token_text(t)[0] != '#',
{
    let w = token_text(t);
    let s = w + rest;
    assert(w.len() >= 1);
    assert(s[0] == w[0]);
    assert(w.len() < s.len() ==> s[w.len() as int] == ' ');
    assert forall|j: int| 0 <= j < w.len() implies s[j] == w[j] by {}
    match t {
        SpecToken::Ident(x) => {
            lemma_run_len_exact(s, 1, w.len() - 1, CharClass::IdentChar);
            assert(s.subrange(0, w.len() as int) =~= w);
        },
        SpecToken::Number(d) => {
            lemma_run_len_exact(s, 1, w.len() - 1, CharClass::Digit);
            assert(s.subrange(0, w.len() as int) =~= w);
        },
        SpecToken::Let => {
            lemma_run_len_exact(s, 1, 2, CharClass::IdentChar);
            assert(s.subrange(0, 3) =~= w);
        },
        SpecToken::Expr => {
            lemma_run_len_exact(s, 1, 3, CharClass::IdentChar);
            assert(s.subrange(0, 4) =~= w);
        },
        SpecToken::Vars => {
            lemma_run_len_exact(s, 1, 3, CharClass::IdentChar);
            assert(s.subrange(0, 4) =~= w);
        },
        _ => {},
    }
}

/// Spaces between tokens are irrelevant to the lexer, and every token can be
/// written down: the texts of well-formed tokens, separated by single
/// spaces, lex back to exactly those tokens.
pub proof fn law_lex_reads_back_rendered_tokens(ts: Seq<SpecToken>)
    requires
        forall|i: int| 0 <= i < ts.len() ==> well_formed(#[trigger] ts[i]),
    ensures
        spec_lex(render(ts)) == Some(ts),
    decreases ts.len(),
{
    if ts.len() == 0 {
        assert(render(ts) =~= Seq::<char>::empty());
        assert(ts =~= Seq::<SpecToken>::empty());
    } else {
        let t = ts[0];
        let w = token_text(t);
        let more = ts.drop_first();
        assert(well_formed(t));
        assert forall|i: int| 0 <= i < more.len() implies well_formed(#[trigger] more[i]) by {
            assert(more[i] == ts[i + 1]);
        }
        law_lex_reads_back_rendered_tokens(more);
        let rest = if ts.len() == 1 {
            Seq::<char>::empty()
        } else {
            seq![' '] + render(more)
        };
        assert(render(ts) =~= w + rest);
        lemma_token_at_rendered(t, rest);
        let s = w + rest;
        // After the token, lexing continues in `rest`.
        lemma_lex_shift(w, rest, 0);
        if ts.len() == 1 {
            assert(lex_from(rest, 0) == Some(Seq::<SpecToken>::empty()));
            assert(ts =~= seq![t]);
            assert(seq![t] + Seq::<SpecToken>::empty() =~= seq![t]);
        } else {
            assert(rest[0] == ' ');
            lemma_lex_shift(seq![' '], render(more), 0);
            assert(lex_from(rest, 1) == lex_from(render(more), 0));
            assert(lex_from(rest, 0) == lex_from(rest, 1));
            assert(seq![t] + more =~= ts);
        }
        assert(lex_from(s, 0) == match lex_from(s, 0 + 1 + (w.len() - 1)) {
            Some(r) => Some(seq![t] + r),
            None => None::<Seq<SpecToken>>,
        });
        assert(0 + 1 + (w.len() - 1) == w.len() + 0);
    }
}

} // verus!
