//! The tokens of a script.
//!
//! White space (Unicode's `White_Space`) and comments (`#` up to a line
//! break, form feed or vertical tab) are skipped. At each position the longest
//! match wins, and a keyword wins over an identifier of the same text.
//!
//! ```text
//! identifier  [a-zA-Z][a-zA-Z0-9_]*
//! number      [+-]?[0-9]+              read as an `isize`
//! float       [+-]?[0-9]+\.[0-9]+
//! file path   ([./]+[a-zA-Z0-9_.()]+)+
//! glob path   '[^\f\n\r\t\v]+'
//! string      "[^"]*"                  the text between the quotes
//! ```
use vstd::prelude::*;

use core::num::ParseIntError;
use core::str::FromStr;

use crate::text::{
    all_decimal_digits, chars_of, digit_char, digit_value, digits_value, is_decimal_digit,
    string_from_chars, unsigned_decimal,
};
use vstd::slice::slice_subrange;

verus! {

#[verifier::external_type_specification]
#[verifier::external_body]
pub struct ExParseIntError(ParseIntError);

/// A token of a script.
#[derive(Debug, PartialEq)]
pub enum Token {
    Let,
    Do,
    On,
    In,
    Rec,
    AngleBracketLeft,
    AngleBracketRight,
    RoundBracketLeft,
    RoundBracketRight,
    CurlyBracketLeft,
    CurlyBracketRight,
    SquareBracketLeft,
    SquareBracketRight,
    True,
    False,
    Int,
    String,
    DotSingle,
    Colon,
    Arrow,
    Equal,
    Minus,
    Plus,
    ForwardSlash,
    Asterisk,
    /// `\*`
    Star,
    Quotation,
    Ampersand,
    Pipe,
    Exclamation,
    Underscore,
    Identifier(String),
    Number(isize),
    /// A decimal fraction, as written.
    Float(String),
    FilePath(String),
    /// A glob between single quotes, quotes included.
    GlobPath(String),
    /// The text between double quotes.
    StringLiteral(String),
}

/// The mathematical model of a [`Token`]: texts are character sequences.
pub enum SpecToken {
    Let,
    Do,
    On,
    In,
    Rec,
    AngleBracketLeft,
    AngleBracketRight,
    RoundBracketLeft,
    RoundBracketRight,
    CurlyBracketLeft,
    CurlyBracketRight,
    SquareBracketLeft,
    SquareBracketRight,
    True,
    False,
    Int,
    String,
    DotSingle,
    Colon,
    Arrow,
    Equal,
    Minus,
    Plus,
    ForwardSlash,
    Asterisk,
    Star,
    Quotation,
    Ampersand,
    Pipe,
    Exclamation,
    Underscore,
    Identifier(Seq<char>),
    Number(isize),
    Float(Seq<char>),
    FilePath(Seq<char>),
    GlobPath(Seq<char>),
    StringLiteral(Seq<char>),
}

impl View for Token {
    type V = SpecToken;

    open spec fn view(&self) -> SpecToken {
        match self {
            Token::Let => SpecToken::Let,
            Token::Do => SpecToken::Do,
            Token::On => SpecToken::On,
            Token::In => SpecToken::In,
            Token::Rec => SpecToken::Rec,
            Token::AngleBracketLeft => SpecToken::AngleBracketLeft,
            Token::AngleBracketRight => SpecToken::AngleBracketRight,
            Token::RoundBracketLeft => SpecToken::RoundBracketLeft,
            Token::RoundBracketRight => SpecToken::RoundBracketRight,
            Token::CurlyBracketLeft => SpecToken::CurlyBracketLeft,
            Token::CurlyBracketRight => SpecToken::CurlyBracketRight,
            Token::SquareBracketLeft => SpecToken::SquareBracketLeft,
            Token::SquareBracketRight => SpecToken::SquareBracketRight,
            Token::True => SpecToken::True,
            Token::False => SpecToken::False,
            Token::Int => SpecToken::Int,
            Token::String => SpecToken::String,
            Token::DotSingle => SpecToken::DotSingle,
            Token::Colon => SpecToken::Colon,
            Token::Arrow => SpecToken::Arrow,
            Token::Equal => SpecToken::Equal,
            Token::Minus => SpecToken::Minus,
            Token::Plus => SpecToken::Plus,
            Token::ForwardSlash => SpecToken::ForwardSlash,
            Token::Asterisk => SpecToken::Asterisk,
            Token::Star => SpecToken::Star,
            Token::Quotation => SpecToken::Quotation,
            Token::Ampersand => SpecToken::Ampersand,
            Token::Pipe => SpecToken::Pipe,
            Token::Exclamation => SpecToken::Exclamation,
            Token::Underscore => SpecToken::Underscore,
            Token::Identifier(s) => SpecToken::Identifier(s@),
            Token::Number(n) => SpecToken::Number(*n),
            Token::Float(s) => SpecToken::Float(s@),
            Token::FilePath(s) => SpecToken::FilePath(s@),
            Token::GlobPath(s) => SpecToken::GlobPath(s@),
            Token::StringLiteral(s) => SpecToken::StringLiteral(s@),
        }
    }
}

/// The views of a sequence of tokens.
pub open spec fn tokens_view(ts: Seq<Token>) -> Seq<SpecToken> {
    ts.map_values(|t: Token| t@)
}

/// Why a text is not a sequence of tokens.
#[derive(Debug, PartialEq)]
pub enum LexerError {
    /// Some character starts no token.
    InvalidToken,
    /// A number does not fit in an `isize`.
    ParseInt(ParseIntError),
}

impl From<ParseIntError> for LexerError {
    fn from(value: ParseIntError) -> (r: LexerError) {
        LexerError::ParseInt(value)
    }
}

impl vstd::std_specs::convert::FromSpecImpl<ParseIntError> for LexerError {
    open spec fn obeys_from_spec() -> bool {
        true
    }

    open spec fn from_spec(v: ParseIntError) -> LexerError {
        LexerError::ParseInt(v)
    }
}

/// A [`LexerError`] without its payload.
pub enum LexFailure {
    InvalidToken,
    ParseInt,
}

// ---------------------------------------------------------------------------
// Characters.
// ---------------------------------------------------------------------------

/// Unicode's `White_Space`.
pub open spec fn is_space(c: char) -> bool {
    ('\t' <= c && c <= '\r') || c == ' ' || c == '\u{85}' || c == '\u{a0}' || c == '\u{1680}'
        || ('\u{2000}' <= c && c <= '\u{200a}') || c == '\u{2028}' || c == '\u{2029}' || c
        == '\u{202f}' || c == '\u{205f}' || c == '\u{3000}'
}

pub open spec fn is_letter(c: char) -> bool {
    ('a' <= c && c <= 'z') || ('A' <= c && c <= 'Z')
}

pub open spec fn is_digit(c: char) -> bool {
    '0' <= c && c <= '9'
}

/// The classes of characters that a token or a comment runs over.
pub enum ScriptClass {
    /// White space.
    Space,
    /// Anything but `\f`, `\n`, `\r`, `\v`.
    CommentChar,
    /// `[a-zA-Z0-9_]`
    IdentChar,
    /// `[0-9]`
    Digit,
    /// `[./a-zA-Z0-9_()]`
    PathChar,
    /// Anything but `\f`, `\n`, `\r`, `\t`, `\v`.
    GlobChar,
    /// Anything but `"`.
    StringChar,
}

pub open spec fn in_class(k: ScriptClass, c: char) -> bool {
    match k {
        ScriptClass::Space => is_space(c),
        ScriptClass::CommentChar => !(c == '\x0C' || c == '\n' || c == '\r' || c == '\x0B'),
        ScriptClass::IdentChar => is_letter(c) || is_digit(c) || c == '_',
        ScriptClass::Digit => is_digit(c),
        ScriptClass::PathChar => is_letter(c) || is_digit(c) || c == '_' || c == '.' || c == '/'
            || c == '(' || c == ')',
        ScriptClass::GlobChar => !(c == '\x0C' || c == '\n' || c == '\r' || c == '\t' || c
            == '\x0B'),
        ScriptClass::StringChar => c != '"',
    }
}

/// The number of characters of `s` from `p` on that are in class `k`, up to
/// the first that is not.
pub open spec fn run_len(s: Seq<char>, p: int, k: ScriptClass) -> nat
    decreases s.len() - p,
{
    if 0 <= p < s.len() && in_class(k, s[p]) {
        1 + run_len(s, p + 1, k)
    } else {
        0
    }
}

// ---------------------------------------------------------------------------
// Numbers.
// ---------------------------------------------------------------------------

/// The value of an optional `+` or `-` followed by one or more decimal
/// digits, if `s` is such a text.
pub open spec fn integer_value(s: Seq<char>) -> Option<int> {
    let signed = s.len() > 0 && (s[0] == '-' || s[0] == '+');
    let digits = if signed {
        s.drop_first()
    } else {
        s
    };
    if digits.len() == 0 || !all_decimal_digits(digits) {
        None
    } else if s[0] == '-' {
        Some(-digits_value(digits))
    } else {
        Some(digits_value(digits))
    }
}

/// What `isize::from_str` gives for the text `s`.
pub open spec fn spec_parse_isize(s: Seq<char>) -> Option<isize> {
    match integer_value(s) {
        Some(v) => if isize::MIN <= v <= isize::MAX {
            Some(v as isize)
        } else {
            None
        },
        None => None,
    }
}

/// Reads an integer with std's `isize::from_str`, which takes an optional `+`
/// or `-` followed by one or more ASCII digits whose value fits in an `isize`
/// and refuses anything else. Which error kind it reports is not stated.
#[verifier::external_body]
fn parse_isize(text: &str) -> (r: Result<isize, ParseIntError>)
    ensures
        match r {
            Ok(v) => spec_parse_isize(text@) == Some(v),
            Err(_) => spec_parse_isize(text@) is None,
        },
{
    isize::from_str(text)
}

// ---------------------------------------------------------------------------
// The longest match at a position.
// ---------------------------------------------------------------------------

/// What the lexer finds at a position.
pub enum Lexeme {
    /// White space or a comment.
    Skip,
    Token(SpecToken),
    /// The text of a number, to be read as an `isize`.
    Integer(Seq<char>),
}

/// The token that a word (an identifier's text) stands for.
pub open spec fn word_token(w: Seq<char>) -> SpecToken {
    if w == seq!['l', 'e', 't'] {
        SpecToken::Let
    } else if w == seq!['d', 'o'] {
        SpecToken::Do
    } else if w == seq!['o', 'n'] {
        SpecToken::On
    } else if w == seq!['i', 'n'] {
        SpecToken::In
    } else if w == seq!['r', 'e', 'c'] {
        SpecToken::Rec
    } else if w == seq!['T', 'r', 'u', 'e'] {
        SpecToken::True
    } else if w == seq!['F', 'a', 'l', 's', 'e'] {
        SpecToken::False
    } else if w == seq!['I', 'n', 't'] {
        SpecToken::Int
    } else if w == seq!['S', 't', 'r', 'i', 'n', 'g'] {
        SpecToken::String
    } else {
        SpecToken::Identifier(w)
    }
}

/// The token made of the single character `c` alone, if there is one.
pub open spec fn single_token(c: char) -> Option<SpecToken> {
    if c == '<' {
        Some(SpecToken::AngleBracketLeft)
    } else if c == '>' {
        Some(SpecToken::AngleBracketRight)
    } else if c == '(' {
        Some(SpecToken::RoundBracketLeft)
    } else if c == ')' {
        Some(SpecToken::RoundBracketRight)
    } else if c == '{' {
        Some(SpecToken::CurlyBracketLeft)
    } else if c == '}' {
        Some(SpecToken::CurlyBracketRight)
    } else if c == '[' {
        Some(SpecToken::SquareBracketLeft)
    } else if c == ']' {
        Some(SpecToken::SquareBracketRight)
    } else if c == ':' {
        Some(SpecToken::Colon)
    } else if c == '-' {
        Some(SpecToken::Minus)
    } else if c == '+' {
        Some(SpecToken::Plus)
    } else if c == '*' {
        Some(SpecToken::Asterisk)
    } else if c == '&' {
        Some(SpecToken::Ampersand)
    } else if c == '|' {
        Some(SpecToken::Pipe)
    } else if c == '!' {
        Some(SpecToken::Exclamation)
    } else if c == '_' {
        Some(SpecToken::Underscore)
    } else {
        None
    }
}

/// The length of the longest file path in `s[p..p + m]` that starts at `p`:
/// the largest length of at least two that ends in something other than `/`,
/// or zero.
pub open spec fn path_end(s: Seq<char>, p: int, m: nat) -> nat
    decreases m,
{
    if m < 2 {
        0
    } else if s[p + m - 1] != '/' {
        m
    } else {
        path_end(s, p, (m - 1) as nat)
    }
}

/// The length of the longest glob path in `s[p..p + m]` that starts at `p`:
/// the largest length of at least three that ends in `'`, or zero.
pub open spec fn glob_end(s: Seq<char>, p: int, m: nat) -> nat
    decreases m,
{
    if m < 3 {
        0
    } else if s[p + m - 1] == '\'' {
        m
    } else {
        glob_end(s, p, (m - 1) as nat)
    }
}

/// Whether a number starts at `p`: a digit, or a sign right before a digit.
pub open spec fn number_starts(s: Seq<char>, p: int) -> bool {
    is_digit(s[p]) || ((s[p] == '+' || s[p] == '-') && p + 1 < s.len() && is_digit(s[p + 1]))
}

/// The longest match at `p < s.len()` with the number of characters it
/// takes, or `None` where no token starts.
pub open spec fn scan_at(s: Seq<char>, p: int) -> Option<(Lexeme, nat)> {
    let c = s[p];
    if is_space(c) {
        Some((Lexeme::Skip, 1 + run_len(s, p + 1, ScriptClass::Space)))
    } else if c == '#' {
        Some((Lexeme::Skip, 1 + run_len(s, p + 1, ScriptClass::CommentChar)))
    } else if is_letter(c) {
        let n = 1 + run_len(s, p + 1, ScriptClass::IdentChar);
        Some((Lexeme::Token(word_token(s.subrange(p, p + n))), n))
    } else if number_starts(s, p) {
        let sign: nat = if is_digit(c) {
            0
        } else {
            1
        };
        let q = p + sign + run_len(s, p + sign, ScriptClass::Digit);
        if q < s.len() && q + 1 < s.len() && s[q] == '.' && is_digit(s[q + 1]) {
            let n = (q + 1 + run_len(s, q + 1, ScriptClass::Digit) - p) as nat;
            Some((Lexeme::Token(SpecToken::Float(s.subrange(p, p + n))), n))
        } else {
            Some((Lexeme::Integer(s.subrange(p, q)), (q - p) as nat))
        }
    } else if c == '.' || c == '/' {
        let n = path_end(s, p, 1 + run_len(s, p + 1, ScriptClass::PathChar));
        if n >= 2 {
            Some((Lexeme::Token(SpecToken::FilePath(s.subrange(p, p + n))), n))
        } else if c == '.' {
            Some((Lexeme::Token(SpecToken::DotSingle), 1))
        } else {
            Some((Lexeme::Token(SpecToken::ForwardSlash), 1))
        }
    } else if c == '\'' {
        let n = glob_end(s, p, 1 + run_len(s, p + 1, ScriptClass::GlobChar));
        if n >= 3 {
            Some((Lexeme::Token(SpecToken::GlobPath(s.subrange(p, p + n))), n))
        } else {
            None
        }
    } else if c == '"' {
        let n = run_len(s, p + 1, ScriptClass::StringChar);
        if p + 1 + n < s.len() {
            Some((Lexeme::Token(SpecToken::StringLiteral(s.subrange(p + 1, p + 1 + n))), n + 2))
        } else {
            Some((Lexeme::Token(SpecToken::Quotation), 1))
        }
    } else if c == '=' {
        if p + 1 < s.len() && s[p + 1] == '>' {
            Some((Lexeme::Token(SpecToken::Arrow), 2))
        } else {
            Some((Lexeme::Token(SpecToken::Equal), 1))
        }
    } else if c == '\\' {
        if p + 1 < s.len() && s[p + 1] == '*' {
            Some((Lexeme::Token(SpecToken::Star), 2))
        } else {
            None
        }
    } else {
        match single_token(c) {
            Some(t) => Some((Lexeme::Token(t), 1)),
            None => None,
        }
    }
}

/// How far `p` is from the end of `s` (zero past the end).
pub open spec fn remaining(len: int, p: int) -> nat {
    if p <= len {
        (len - p) as nat
    } else {
        0
    }
}

/// The tokens of `s` from position `p` on, or the first failure.
pub open spec fn lex_from(s: Seq<char>, p: int) -> Result<Seq<SpecToken>, LexFailure>
    decreases remaining(s.len() as int, p),
{
    if p < 0 || p >= s.len() {
        Ok(Seq::empty())
    } else {
        match scan_at(s, p) {
            None => Err(LexFailure::InvalidToken),
            Some((l, n)) => if n == 0 {
                Err(LexFailure::InvalidToken)
            } else {
                match l {
                    Lexeme::Skip => lex_from(s, p + n),
                    Lexeme::Token(t) => match lex_from(s, p + n) {
                        Ok(rest) => Ok(seq![t] + rest),
                        Err(e) => Err(e),
                    },
                    Lexeme::Integer(text) => match spec_parse_isize(text) {
                        Some(v) => match lex_from(s, p + n) {
                            Ok(rest) => Ok(seq![SpecToken::Number(v)] + rest),
                            Err(e) => Err(e),
                        },
                        None => Err(LexFailure::ParseInt),
                    },
                }
            },
        }
    }
}

/// The tokens of the whole text `s`.
pub open spec fn spec_lex(s: Seq<char>) -> Result<Seq<SpecToken>, LexFailure> {
    lex_from(s, 0)
}

// ---------------------------------------------------------------------------
// The lexer.
// ---------------------------------------------------------------------------

proof fn lemma_run_len_bound(s: Seq<char>, p: int, k: ScriptClass)
    requires
        0 <= p <= s.len(),
    ensures
        p + run_len(s, p, k) <= s.len(),
    decreases s.len() - p,
{
    if p < s.len() && in_class(k, s[p]) {
        lemma_run_len_bound(s, p + 1, k);
    }
}

proof fn lemma_path_end_bound(s: Seq<char>, p: int, m: nat)
    ensures
        path_end(s, p, m) <= m,
        path_end(s, p, m) == 0 || path_end(s, p, m) >= 2,
    decreases m,
{
    if m >= 2 && s[p + m - 1] == '/' {
        lemma_path_end_bound(s, p, (m - 1) as nat);
    }
}

proof fn lemma_glob_end_bound(s: Seq<char>, p: int, m: nat)
    ensures
        glob_end(s, p, m) <= m,
        glob_end(s, p, m) == 0 || glob_end(s, p, m) >= 3,
    decreases m,
{
    if m >= 3 && s[p + m - 1] != '\'' {
        lemma_glob_end_bound(s, p, (m - 1) as nat);
    }
}

fn is_space_exec(c: char) -> (b: bool)
    ensures
        b == is_space(c),
{
    ('\t' <= c && c <= '\r') || c == ' ' || c == '\u{85}' || c == '\u{a0}' || c == '\u{1680}'
        || ('\u{2000}' <= c && c <= '\u{200a}') || c == '\u{2028}' || c == '\u{2029}' || c
        == '\u{202f}' || c == '\u{205f}' || c == '\u{3000}'
}

fn class_holds(k: &ScriptClass, c: char) -> (b: bool)
    ensures
        b == in_class(*k, c),
{
    match k {
        ScriptClass::Space => is_space_exec(c),
        ScriptClass::CommentChar => !(c == '\x0C' || c == '\n' || c == '\r' || c == '\x0B'),
        ScriptClass::IdentChar => ('a' <= c && c <= 'z') || ('A' <= c && c <= 'Z') || ('0' <= c
            && c <= '9') || c == '_',
        ScriptClass::Digit => '0' <= c && c <= '9',
        ScriptClass::PathChar => ('a' <= c && c <= 'z') || ('A' <= c && c <= 'Z') || ('0' <= c
            && c <= '9') || c == '_' || c == '.' || c == '/' || c == '(' || c == ')',
        ScriptClass::GlobChar => !(c == '\x0C' || c == '\n' || c == '\r' || c == '\t' || c
            == '\x0B'),
        ScriptClass::StringChar => c != '"',
    }
}

/// Counts the characters of `s` from `p` on that are in class `k`.
fn scan_run(s: &Vec<char>, p: usize, k: ScriptClass) -> (n: usize)
    requires
        p <= s@.len(),
    ensures
        n == run_len(s@, p as int, k),
        p + n <= s.len(),
{
    let mut i = p;
    while i < s.len()
        invariant
            p <= i <= s@.len(),
            run_len(s@, p as int, k) == (i - p) + run_len(s@, i as int, k),
        decreases s@.len() - i,
    {
        if !class_holds(&k, s[i]) {
            return i - p;
        }
        i = i + 1;
    }
    i - p
}

fn path_end_exec(s: &Vec<char>, p: usize, m: usize) -> (n: usize)
    requires
        p + m <= s.len(),
    ensures
        n == path_end(s@, p as int, m as nat),
{
    let mut j = m;
    while j >= 2
        invariant
            j <= m,
            p + m <= s.len(),
            path_end(s@, p as int, m as nat) == path_end(s@, p as int, j as nat),
        decreases j,
    {
        if s[p + j - 1] != '/' {
            return j;
        }
        j = j - 1;
    }
    0
}

fn glob_end_exec(s: &Vec<char>, p: usize, m: usize) -> (n: usize)
    requires
        p + m <= s.len(),
    ensures
        n == glob_end(s@, p as int, m as nat),
{
    let mut j = m;
    while j >= 3
        invariant
            j <= m,
            p + m <= s.len(),
            glob_end(s@, p as int, m as nat) == glob_end(s@, p as int, j as nat),
        decreases j,
    {
        if s[p + j - 1] == '\'' {
            return j;
        }
        j = j - 1;
    }
    0
}

/// Whether `s[p..p + n]` spells `w`.
fn spells(s: &Vec<char>, p: usize, n: usize, w: &[char]) -> (b: bool)
    requires
        p + n <= s.len(),
    ensures
        b == (s@.subrange(p as int, p + n) == w@),
{
    if n != w.len() {
        return false;
    }
    let mut i: usize = 0;
    while i < n
        invariant
            i <= n,
            n == w@.len(),
            p + n <= s.len(),
            forall|j: int| 0 <= j < i ==> s@[p + j] == w@[j],
        decreases n - i,
    {
        if s[p + i] != w[i] {
            assert(s@.subrange(p as int, p + n)[i as int] != w@[i as int]);
            return false;
        }
        i = i + 1;
    }
    assert(s@.subrange(p as int, p + n) =~= w@);
    true
}

/// The text `s[p..q]`.
fn text_of(s: &Vec<char>, p: usize, q: usize) -> (t: String)
    requires
        p <= q <= s@.len(),
    ensures
        t@ == s@.subrange(p as int, q as int),
{
    string_from_chars(slice_subrange(s.as_slice(), p, q))
}

/// The token for the word `s[p..p + n]`.
fn word_token_exec(s: &Vec<char>, p: usize, n: usize) -> (t: Token)
    requires
        p + n <= s.len(),
    ensures
        t@ == word_token(s@.subrange(p as int, p + n)),
{
    proof {
        assert(seq!['l', 'e', 't'] =~= ['l', 'e', 't']@);
        assert(seq!['d', 'o'] =~= ['d', 'o']@);
        assert(seq!['o', 'n'] =~= ['o', 'n']@);
        assert(seq!['i', 'n'] =~= ['i', 'n']@);
        assert(seq!['r', 'e', 'c'] =~= ['r', 'e', 'c']@);
        assert(seq!['T', 'r', 'u', 'e'] =~= ['T', 'r', 'u', 'e']@);
        assert(seq!['F', 'a', 'l', 's', 'e'] =~= ['F', 'a', 'l', 's', 'e']@);
        assert(seq!['I', 'n', 't'] =~= ['I', 'n', 't']@);
        assert(seq!['S', 't', 'r', 'i', 'n', 'g'] =~= ['S', 't', 'r', 'i', 'n', 'g']@);
    }
    if spells(s, p, n, &['l', 'e', 't']) {
        Token::Let
    } else if spells(s, p, n, &['d', 'o']) {
        Token::Do
    } else if spells(s, p, n, &['o', 'n']) {
        Token::On
    } else if spells(s, p, n, &['i', 'n']) {
        Token::In
    } else if spells(s, p, n, &['r', 'e', 'c']) {
        Token::Rec
    } else if spells(s, p, n, &['T', 'r', 'u', 'e']) {
        Token::True
    } else if spells(s, p, n, &['F', 'a', 'l', 's', 'e']) {
        Token::False
    } else if spells(s, p, n, &['I', 'n', 't']) {
        Token::Int
    } else if spells(s, p, n, &['S', 't', 'r', 'i', 'n', 'g']) {
        Token::String
    } else {
        Token::Identifier(text_of(s, p, p + n))
    }
}

fn single_token_exec(c: char) -> (t: Option<Token>)
    ensures
        match t {
            Some(t) => single_token(c) == Some(t@),
            None => single_token(c) is None,
        },
{
    if c == '<' {
        Some(Token::AngleBracketLeft)
    } else if c == '>' {
        Some(Token::AngleBracketRight)
    } else if c == '(' {
        Some(Token::RoundBracketLeft)
    } else if c == ')' {
        Some(Token::RoundBracketRight)
    } else if c == '{' {
        Some(Token::CurlyBracketLeft)
    } else if c == '}' {
        Some(Token::CurlyBracketRight)
    } else if c == '[' {
        Some(Token::SquareBracketLeft)
    } else if c == ']' {
        Some(Token::SquareBracketRight)
    } else if c == ':' {
        Some(Token::Colon)
    } else if c == '-' {
        Some(Token::Minus)
    } else if c == '+' {
        Some(Token::Plus)
    } else if c == '*' {
        Some(Token::Asterisk)
    } else if c == '&' {
        Some(Token::Ampersand)
    } else if c == '|' {
        Some(Token::Pipe)
    } else if c == '!' {
        Some(Token::Exclamation)
    } else if c == '_' {
        Some(Token::Underscore)
    } else {
        None
    }
}

/// What [`scan_at_exec`] finds: for a number, only its length.
enum Scanned {
    Skip,
    Token(Token),
    Integer,
}

/// The longest match at `p`, with the number of characters it takes.
fn scan_at_exec(s: &Vec<char>, p: usize) -> (r: Option<(Scanned, usize)>)
    requires
        p < s.len(),
    ensures
        match r {
            Some((Scanned::Skip, n)) => scan_at(s@, p as int) == Some((Lexeme::Skip, n as nat)),
            Some((Scanned::Token(t), n)) => scan_at(s@, p as int) == Some(
                (Lexeme::Token(t@), n as nat),
            ),
            Some((Scanned::Integer, n)) => scan_at(s@, p as int) == Some(
                (Lexeme::Integer(s@.subrange(p as int, p + n)), n as nat),
            ),
            None => scan_at(s@, p as int) is None,
        },
        match r {
            Some((_, n)) => 1 <= n && p + n <= s@.len(),
            None => true,
        },
{
    let c = s[p];
    if is_space_exec(c) {
        let n = scan_run(s, p + 1, ScriptClass::Space);
        Some((Scanned::Skip, 1 + n))
    } else if c == '#' {
        let n = scan_run(s, p + 1, ScriptClass::CommentChar);
        Some((Scanned::Skip, 1 + n))
    } else if ('a' <= c && c <= 'z') || ('A' <= c && c <= 'Z') {
        let n = 1 + scan_run(s, p + 1, ScriptClass::IdentChar);
        Some((Scanned::Token(word_token_exec(s, p, n)), n))
    } else if ('0' <= c && c <= '9') || ((c == '+' || c == '-') && p + 1 < s.len() && '0' <= s[p
        + 1] && s[p + 1] <= '9') {
        let sign: usize = if '0' <= c && c <= '9' {
            0
        } else {
            1
        };
        let q = p + sign + scan_run(s, p + sign, ScriptClass::Digit);
        if q < s.len() && q + 1 < s.len() && s[q] == '.' && '0' <= s[q + 1] && s[q + 1] <= '9' {
            let e = q + 1 + scan_run(s, q + 1, ScriptClass::Digit);
            Some((Scanned::Token(Token::Float(text_of(s, p, e))), e - p))
        } else {
            Some((Scanned::Integer, q - p))
        }
    } else if c == '.' || c == '/' {
        let m = 1 + scan_run(s, p + 1, ScriptClass::PathChar);
        let n = path_end_exec(s, p, m);
        proof {
            lemma_path_end_bound(s@, p as int, m as nat);
        }
        if n >= 2 {
            Some((Scanned::Token(Token::FilePath(text_of(s, p, p + n))), n))
        } else if c == '.' {
            Some((Scanned::Token(Token::DotSingle), 1))
        } else {
            Some((Scanned::Token(Token::ForwardSlash), 1))
        }
    } else if c == '\'' {
        let m = 1 + scan_run(s, p + 1, ScriptClass::GlobChar);
        let n = glob_end_exec(s, p, m);
        proof {
            lemma_glob_end_bound(s@, p as int, m as nat);
        }
        if n >= 3 {
            Some((Scanned::Token(Token::GlobPath(text_of(s, p, p + n))), n))
        } else {
            None
        }
    } else if c == '"' {
        let n = scan_run(s, p + 1, ScriptClass::StringChar);
        if p + 1 + n < s.len() {
            Some((Scanned::Token(Token::StringLiteral(text_of(s, p + 1, p + 1 + n))), n + 2))
        } else {
            Some((Scanned::Token(Token::Quotation), 1))
        }
    } else if c == '=' {
        if p + 1 < s.len() && s[p + 1] == '>' {
            Some((Scanned::Token(Token::Arrow), 2))
        } else {
            Some((Scanned::Token(Token::Equal), 1))
        }
    } else if c == '\\' {
        if p + 1 < s.len() && s[p + 1] == '*' {
            Some((Scanned::Token(Token::Star), 2))
        } else {
            None
        }
    } else {
        match single_token_exec(c) {
            Some(t) => Some((Scanned::Token(t), 1)),
            None => None,
        }
    }
}

/// Splits `source` into tokens.
///
/// Fails with [`LexerError::InvalidToken`] where some character starts no
/// token, and with [`LexerError::ParseInt`] where a number does not fit in
/// an `isize`; the first such place decides.
pub fn lex(source: &str) -> (r: Result<Vec<Token>, LexerError>)
    ensures
        match r {
            Ok(ts) => spec_lex(source@) == Ok::<_, LexFailure>(tokens_view(ts@)),
            Err(LexerError::InvalidToken) => spec_lex(source@) == Err::<Seq<SpecToken>, _>(
                LexFailure::InvalidToken,
            ),
            Err(LexerError::ParseInt(_)) => spec_lex(source@) == Err::<Seq<SpecToken>, _>(
                LexFailure::ParseInt,
            ),
        },
{
    let s = chars_of(source);
    let mut out: Vec<Token> = Vec::new();
    let mut p: usize = 0;
    while p < s.len()
        invariant
            p <= s@.len(),
            s@ == source@,
            spec_lex(s@) == match lex_from(s@, p as int) {
                Ok(rest) => Ok(tokens_view(out@) + rest),
                Err(e) => Err::<Seq<SpecToken>, LexFailure>(e),
            },
        decreases s@.len() - p,
    {
        match scan_at_exec(&s, p) {
            Some((Scanned::Skip, n)) => {
                p = p + n;
            },
            Some((Scanned::Token(t), n)) => {
                proof {
                    if let Ok(r) = lex_from(s@, p + n) {
                        assert(tokens_view(out@.push(t)) =~= tokens_view(out@) + seq![t@]);
                        assert(tokens_view(out@) + (seq![t@] + r) =~= tokens_view(out@.push(t)) + r);
                    }
                }
                out.push(t);
                p = p + n;
            },
            Some((Scanned::Integer, n)) => {
                let text = text_of(&s, p, p + n);
                match parse_isize(text.as_str()) {
                    Ok(v) => {
                        let t = Token::Number(v);
                        proof {
                            if let Ok(r) = lex_from(s@, p + n) {
                                assert(tokens_view(out@.push(t)) =~= tokens_view(out@) + seq![t@]);
                                assert(tokens_view(out@) + (seq![t@] + r) =~= tokens_view(
                                    out@.push(t),
                                ) + r);
                            }
                        }
                        out.push(t);
                        p = p + n;
                    },
                    Err(e) => {
                        return Err(LexerError::from(e));
                    },
                }
            },
            None => {
                return Err(LexerError::InvalidToken);
            },
        }
    }
    proof {
        assert(tokens_view(out@) + Seq::<SpecToken>::empty() =~= tokens_view(out@));
    }
    Ok(out)
}

// ---------------------------------------------------------------------------
// Writing tokens down.
// ---------------------------------------------------------------------------

/// How an integer is written: an optional `-`, then its decimal digits.
pub open spec fn integer_text(v: int) -> Seq<char> {
    if v < 0 {
        seq!['-'] + unsigned_decimal((-v) as nat)
    } else {
        unsigned_decimal(v as nat)
    }
}

/// A decimal fraction: an optional sign, digits, `.`, digits.
pub open spec fn float_text(f: Seq<char>) -> bool {
    let sign: int = if f.len() > 0 && (f[0] == '+' || f[0] == '-') {
        1
    } else {
        0
    };
    exists|d: int|
        #![trigger f[d]]
        sign < d < f.len() - 1 && f[d] == '.' && (forall|i: int| sign <= i < d ==> is_digit(
            #[trigger] f[i],
        )) && (forall|i: int| d < i < f.len() ==> is_digit(#[trigger] f[i]))
}

/// The text of a token.
pub open spec fn token_text(t: SpecToken) -> Seq<char> {
    match t {
        SpecToken::Let => seq!['l', 'e', 't'],
        SpecToken::Do => seq!['d', 'o'],
        SpecToken::On => seq!['o', 'n'],
        SpecToken::In => seq!['i', 'n'],
        SpecToken::Rec => seq!['r', 'e', 'c'],
        SpecToken::AngleBracketLeft => seq!['<'],
        SpecToken::AngleBracketRight => seq!['>'],
        SpecToken::RoundBracketLeft => seq!['('],
        SpecToken::RoundBracketRight => seq![')'],
        SpecToken::CurlyBracketLeft => seq!['{'],
        SpecToken::CurlyBracketRight => seq!['}'],
        SpecToken::SquareBracketLeft => seq!['['],
        SpecToken::SquareBracketRight => seq![']'],
        SpecToken::True => seq!['T', 'r', 'u', 'e'],
        SpecToken::False => seq!['F', 'a', 'l', 's', 'e'],
        SpecToken::Int => seq!['I', 'n', 't'],
        SpecToken::String => seq!['S', 't', 'r', 'i', 'n', 'g'],
        SpecToken::DotSingle => seq!['.'],
        SpecToken::Colon => seq![':'],
        SpecToken::Arrow => seq!['=', '>'],
        SpecToken::Equal => seq!['='],
        SpecToken::Minus => seq!['-'],
        SpecToken::Plus => seq!['+'],
        SpecToken::ForwardSlash => seq!['/'],
        SpecToken::Asterisk => seq!['*'],
        SpecToken::Star => seq!['\\', '*'],
        SpecToken::Quotation => seq!['"'],
        SpecToken::Ampersand => seq!['&'],
        SpecToken::Pipe => seq!['|'],
        SpecToken::Exclamation => seq!['!'],
        SpecToken::Underscore => seq!['_'],
        SpecToken::Identifier(w) => w,
        SpecToken::Number(n) => integer_text(n as int),
        SpecToken::Float(f) => f,
        SpecToken::FilePath(f) => f,
        SpecToken::GlobPath(g) => g,
        SpecToken::StringLiteral(x) => seq!['"'] + x + seq!['"'],
    }
}

/// Whether the lexer can give the token `t` wherever it is written: a lone
/// `"` only ends a text, so it is left out.
pub open spec fn well_formed(t: SpecToken) -> bool {
    match t {
        SpecToken::Quotation => false,
        SpecToken::Identifier(w) => {
            &&& w.len() >= 1
            &&& is_letter(w[0])
            &&& forall|i: int| 0 <= i < w.len() ==> in_class(ScriptClass::IdentChar, #[trigger] w[i])
            &&& word_token(w) == SpecToken::Identifier(w)
        },
        SpecToken::Float(f) => float_text(f),
        SpecToken::FilePath(f) => {
            &&& f.len() >= 2
            &&& (f[0] == '.' || f[0] == '/')
            &&& forall|i: int| 0 <= i < f.len() ==> in_class(ScriptClass::PathChar, #[trigger] f[i])
            &&& f[f.len() - 1] != '/'
        },
        SpecToken::GlobPath(g) => {
            &&& g.len() >= 3
            &&& g[0] == '\''
            &&& g[g.len() - 1] == '\''
            &&& forall|i: int| 0 <= i < g.len() ==> in_class(ScriptClass::GlobChar, #[trigger] g[i])
        },
        SpecToken::StringLiteral(x) => forall|i: int| 0 <= i < x.len() ==> #[trigger] x[i] != '"',
        _ => true,
    }
}

/// The texts of the tokens, one per line.
pub open spec fn render(ts: Seq<SpecToken>) -> Seq<char>
    decreases ts.len(),
{
    if ts.len() == 0 {
        Seq::empty()
    } else if ts.len() == 1 {
        token_text(ts[0])
    } else {
        token_text(ts[0]) + seq!['\n'] + render(ts.drop_first())
    }
}

proof fn lemma_unsigned_decimal(n: nat)
    ensures
        unsigned_decimal(n).len() >= 1,
        all_decimal_digits(unsigned_decimal(n)),
        digits_value(unsigned_decimal(n)) == n,
    decreases n,
{
    let s = unsigned_decimal(n);
    if n < 10 {
        assert(digit_char(n) as int == '0' as int + n);
        assert(s.drop_last() =~= Seq::<char>::empty());
        assert(digits_value(s.drop_last()) == 0);
        assert(digits_value(s) == digits_value(s.drop_last()) * 10 + digit_value(s.last()));
        assert(is_decimal_digit(s[0]));
    } else {
        lemma_unsigned_decimal(n / 10);
        let d = (n % 10) as nat;
        assert(digit_char(d) as int == '0' as int + d);
        assert(s.drop_last() =~= unsigned_decimal(n / 10));
        assert(s.last() == digit_char(d));
        assert(digit_value(s.last()) == d);
        assert forall|i: int| 0 <= i < s.len() implies is_decimal_digit(#[trigger] s[i]) by {
            if i < s.len() - 1 {
                assert(s[i] == unsigned_decimal(n / 10)[i]);
            }
        }
        assert(digits_value(s) == digits_value(s.drop_last()) * 10 + digit_value(s.last()));
        assert((n / 10) * 10 + d == n);
    }
}

proof fn lemma_integer_text(v: int)
    ensures
        integer_value(integer_text(v)) == Some(v),
        integer_text(v).len() >= 1,
        is_digit(integer_text(v)[0]) || (integer_text(v)[0] == '-' && integer_text(v).len() >= 2
            && is_digit(integer_text(v)[1])),
        forall|i: int| 1 <= i < integer_text(v).len() ==> is_digit(#[trigger] integer_text(v)[i]),
{
    let w = integer_text(v);
    if v < 0 {
        let u = unsigned_decimal((-v) as nat);
        lemma_unsigned_decimal((-v) as nat);
        assert(w.drop_first() =~= u);
        assert(w[1] == u[0]);
        assert(is_decimal_digit(u[0]));
        assert forall|i: int| 1 <= i < w.len() implies is_digit(#[trigger] w[i]) by {
            assert(w[i] == u[i - 1]);
            assert(is_decimal_digit(u[i - 1]));
        }
    } else {
        lemma_unsigned_decimal(v as nat);
        assert(is_decimal_digit(w[0]));
        assert forall|i: int| 1 <= i < w.len() implies is_digit(#[trigger] w[i]) by {
            assert(is_decimal_digit(w[i]));
        }
    }
}

proof fn lemma_run_len_shift(a: Seq<char>, b: Seq<char>, i: int, k: ScriptClass)
    requires
        0 <= i <= b.len(),
    ensures
        run_len(a + b, a.len() + i, k) == run_len(b, i, k),
    decreases b.len() - i,
{
    if i < b.len() {
        assert((a + b)[a.len() + i] == b[i]);
        lemma_run_len_shift(a, b, i + 1, k);
    }
}

proof fn lemma_path_end_shift(a: Seq<char>, b: Seq<char>, i: int, m: nat)
    requires
        0 <= i,
        i + m <= b.len(),
    ensures
        path_end(a + b, a.len() + i, m) == path_end(b, i, m),
    decreases m,
{
    if m >= 2 {
        assert((a + b)[a.len() + i + m - 1] == b[i + m - 1]);
        lemma_path_end_shift(a, b, i, (m - 1) as nat);
    }
}

proof fn lemma_glob_end_shift(a: Seq<char>, b: Seq<char>, i: int, m: nat)
    requires
        0 <= i,
        i + m <= b.len(),
    ensures
        glob_end(a + b, a.len() + i, m) == glob_end(b, i, m),
    decreases m,
{
    if m >= 3 {
        assert((a + b)[a.len() + i + m - 1] == b[i + m - 1]);
        lemma_glob_end_shift(a, b, i, (m - 1) as nat);
    }
}

/// What the lexer finds at a position depends only on what follows it.
proof fn lemma_scan_shift(a: Seq<char>, b: Seq<char>, i: int)
    requires
        0 <= i < b.len(),
    ensures
        scan_at(a + b, a.len() + i) == scan_at(b, i),
{
    let s = a + b;
    let p = a.len() + i;
    assert(s[p] == b[i]);
    if i + 1 < b.len() {
        assert(s[p + 1] == b[i + 1]);
    }
    lemma_run_len_shift(a, b, i + 1, ScriptClass::Space);
    lemma_run_len_shift(a, b, i + 1, ScriptClass::CommentChar);
    lemma_run_len_shift(a, b, i + 1, ScriptClass::IdentChar);
    lemma_run_len_shift(a, b, i + 1, ScriptClass::PathChar);
    lemma_run_len_shift(a, b, i + 1, ScriptClass::GlobChar);
    lemma_run_len_shift(a, b, i + 1, ScriptClass::StringChar);
    lemma_run_len_bound(b, i + 1, ScriptClass::IdentChar);
    lemma_run_len_bound(b, i + 1, ScriptClass::PathChar);
    lemma_run_len_bound(b, i + 1, ScriptClass::GlobChar);
    lemma_run_len_bound(b, i + 1, ScriptClass::StringChar);
    let ni = 1 + run_len(b, i + 1, ScriptClass::IdentChar);
    assert(s.subrange(p, p + ni) =~= b.subrange(i, i + ni));
    let np = 1 + run_len(b, i + 1, ScriptClass::PathChar);
    lemma_path_end_shift(a, b, i, np);
    lemma_path_end_bound(b, i, np);
    let fp = path_end(b, i, np);
    assert(s.subrange(p, p + fp) =~= b.subrange(i, i + fp));
    let ng = 1 + run_len(b, i + 1, ScriptClass::GlobChar);
    lemma_glob_end_shift(a, b, i, ng);
    lemma_glob_end_bound(b, i, ng);
    let fg = glob_end(b, i, ng);
    assert(s.subrange(p, p + fg) =~= b.subrange(i, i + fg));
    let ns = run_len(b, i + 1, ScriptClass::StringChar);
    assert(s.subrange(p + 1, p + 1 + ns) =~= b.subrange(i + 1, i + 1 + ns));
    if number_starts(b, i) {
        let sign: int = if is_digit(b[i]) {
            0
        } else {
            1
        };
        lemma_run_len_shift(a, b, i + sign, ScriptClass::Digit);
        lemma_run_len_bound(b, i + sign, ScriptClass::Digit);
        let q = i + sign + run_len(b, i + sign, ScriptClass::Digit);
        assert(s.subrange(p, a.len() + q) =~= b.subrange(i, q));
        if q + 1 < b.len() {
            assert(s[a.len() + q] == b[q]);
            assert(s[a.len() + q + 1] == b[q + 1]);
            lemma_run_len_shift(a, b, q + 1, ScriptClass::Digit);
            lemma_run_len_bound(b, q + 1, ScriptClass::Digit);
            let e = q + 1 + run_len(b, q + 1, ScriptClass::Digit);
            assert(s.subrange(p, a.len() + e) =~= b.subrange(i, e));
        }
    }
}

proof fn lemma_lex_shift(a: Seq<char>, b: Seq<char>, i: int)
    requires
        0 <= i <= b.len(),
    ensures
        lex_from(a + b, a.len() + i) == lex_from(b, i),
    decreases b.len() - i,
{
    if i < b.len() {
        lemma_scan_shift(a, b, i);
        match scan_at(b, i) {
            Some((_, n)) => {
                if n > 0 && i + n <= b.len() {
                    lemma_lex_shift(a, b, i + n);
                } else if n > 0 {
                    assert(lex_from(a + b, a.len() + i + n) == Ok::<_, LexFailure>(
                        Seq::<SpecToken>::empty(),
                    ));
                    assert(lex_from(b, i + n) == Ok::<_, LexFailure>(Seq::<SpecToken>::empty()));
                }
            },
            None => {},
        }
    }
}

/// `run_len` counts exactly a run that ends at a character outside the
/// class or at the end.
proof fn lemma_run_len_exact(s: Seq<char>, p: int, n: int, k: ScriptClass)
    requires
        0 <= p,
        0 <= n,
        p + n <= s.len(),
        forall|j: int| p <= j < p + n ==> in_class(k, #[trigger] s[j]),
        p + n == s.len() || !in_class(k, s[p + n]),
    ensures
        run_len(s, p, k) == n,
    decreases n,
{
    if n > 0 {
        assert(in_class(k, s[p]));
        lemma_run_len_exact(s, p + 1, n - 1, k);
    }
}

/// What the lexer finds for a written token: the token itself, or for a
/// number its text.
pub open spec fn lexeme_of(t: SpecToken) -> Lexeme {
    match t {
        SpecToken::Number(n) => Lexeme::Integer(integer_text(n as int)),
        _ => Lexeme::Token(t),
    }
}

pub open spec fn rendered_rest(rest: Seq<char>) -> bool {
    rest.len() == 0 || rest[0] == '\n'
}

proof fn lemma_written_prefix(w: Seq<char>, rest: Seq<char>)
    requires
        rendered_rest(rest),
    ensures
        forall|j: int| 0 <= j < w.len() ==> (w + rest)[j] == w[j],
        w.len() < (w + rest).len() ==> (w + rest)[w.len() as int] == '\n',
{
}

proof fn lemma_scan_word(t: SpecToken, rest: Seq<char>)
    requires
        well_formed(t),
        rendered_rest(rest),
        t is Identifier || t is Let || t is Do || t is On || t is In || t is Rec || t is True
            || t is False || t is Int || t is String,
    ensures
        token_text(t).len() >= 1,
        !is_space(token_text(t)[0]),
        scan_at(token_text(t) + rest, 0) == Some((lexeme_of(t), token_text(t).len())),
{
    let w = token_text(t);
    let s = w + rest;
    lemma_written_prefix(w, rest);
    assert(w.len() >= 1);
    assert(is_letter(w[0]));
    assert forall|j: int| 0 <= j < w.len() implies in_class(ScriptClass::IdentChar, #[trigger] w[j])
        by {}
    lemma_run_len_exact(s, 1, w.len() - 1, ScriptClass::IdentChar);
    assert(s.subrange(0, w.len() as int) =~= w);
    assert(word_token(w) == t);
}

proof fn lemma_scan_number(t: SpecToken, rest: Seq<char>)
    requires
        rendered_rest(rest),
        t is Number,
    ensures
        token_text(t).len() >= 1,
        !is_space(token_text(t)[0]),
        scan_at(token_text(t) + rest, 0) == Some((lexeme_of(t), token_text(t).len())),
{
    let n = t->Number_0;
    let w = token_text(t);
    let s = w + rest;
    lemma_written_prefix(w, rest);
    lemma_integer_text(n as int);
    let sign: int = if is_digit(w[0]) {
        0
    } else {
        1
    };
    if w.len() >= 2 {
        assert(s[1] == w[1]);
    }
    lemma_run_len_exact(s, sign, w.len() - sign, ScriptClass::Digit);
    assert(s.subrange(0, w.len() as int) =~= w);
}

proof fn lemma_scan_float(t: SpecToken, rest: Seq<char>)
    requires
        well_formed(t),
        rendered_rest(rest),
        t is Float,
    ensures
        token_text(t).len() >= 1,
        !is_space(token_text(t)[0]),
        scan_at(token_text(t) + rest, 0) == Some((lexeme_of(t), token_text(t).len())),
{
    let f = t->Float_0;
    let s = f + rest;
    lemma_written_prefix(f, rest);
    let sign: int = if f.len() > 0 && (f[0] == '+' || f[0] == '-') {
        1
    } else {
        0
    };
    let d = choose|d: int|
        #![trigger f[d]]
        sign < d < f.len() - 1 && f[d] == '.' && (forall|i: int| sign <= i < d ==> is_digit(
            #[trigger] f[i],
        )) && (forall|i: int| d < i < f.len() ==> is_digit(#[trigger] f[i]));
    assert(is_digit(f[sign]));
    assert(is_digit(f[d + 1]));
    lemma_run_len_exact(s, sign, d - sign, ScriptClass::Digit);
    lemma_run_len_exact(s, d + 1, f.len() - d - 1, ScriptClass::Digit);
    assert(s.subrange(0, f.len() as int) =~= f);
}

proof fn lemma_scan_path(t: SpecToken, rest: Seq<char>)
    requires
        well_formed(t),
        rendered_rest(rest),
        t is FilePath || t is GlobPath,
    ensures
        token_text(t).len() >= 1,
        !is_space(token_text(t)[0]),
        scan_at(token_text(t) + rest, 0) == Some((lexeme_of(t), token_text(t).len())),
{
    let w = token_text(t);
    let s = w + rest;
    lemma_written_prefix(w, rest);
    if t is FilePath {
        lemma_run_len_exact(s, 1, w.len() - 1, ScriptClass::PathChar);
    } else {
        lemma_run_len_exact(s, 1, w.len() - 1, ScriptClass::GlobChar);
    }
    assert(s[w.len() - 1] == w[w.len() - 1]);
    assert(s.subrange(0, w.len() as int) =~= w);
}

proof fn lemma_scan_string(t: SpecToken, rest: Seq<char>)
    requires
        well_formed(t),
        rendered_rest(rest),
        t is StringLiteral,
    ensures
        token_text(t).len() >= 1,
        !is_space(token_text(t)[0]),
        scan_at(token_text(t) + rest, 0) == Some((lexeme_of(t), token_text(t).len())),
{
    let x = t->StringLiteral_0;
    let w = token_text(t);
    let s = w + rest;
    lemma_written_prefix(w, rest);
    assert forall|j: int| 1 <= j < 1 + x.len() implies in_class(
        ScriptClass::StringChar,
        #[trigger] s[j],
    ) by {
        assert(s[j] == x[j - 1]);
    }
    assert(s[1 + x.len() as int] == '"');
    lemma_run_len_exact(s, 1, x.len() as int, ScriptClass::StringChar);
    assert(s.subrange(1, 1 + x.len() as int) =~= x);
}

proof fn lemma_scan_symbol(t: SpecToken, rest: Seq<char>)
    requires
        well_formed(t),
        rendered_rest(rest),
        !(t is Identifier || t is Let || t is Do || t is On || t is In || t is Rec || t is True
            || t is False || t is Int || t is String || t is Number || t is Float || t is FilePath
            || t is GlobPath || t is StringLiteral),
    ensures
        token_text(t).len() >= 1,
        !is_space(token_text(t)[0]),
        scan_at(token_text(t) + rest, 0) == Some((lexeme_of(t), token_text(t).len())),
{
    let w = token_text(t);
    let s = w + rest;
    lemma_written_prefix(w, rest);
    lemma_run_len_exact(s, 1, 0, ScriptClass::PathChar);
}

/// A written token followed by nothing or by a line break is found whole.
proof fn lemma_scan_rendered(t: SpecToken, rest: Seq<char>)
    requires
        well_formed(t),
        rendered_rest(rest),
    ensures
        token_text(t).len() >= 1,
        !is_space(token_text(t)[0]),
        scan_at(token_text(t) + rest, 0) == Some((lexeme_of(t), token_text(t).len())),
{
    if t is Identifier || t is Let || t is Do || t is On || t is In || t is Rec || t is True
        || t is False || t is Int || t is String {
        lemma_scan_word(t, rest);
    } else if t is Number {
        lemma_scan_number(t, rest);
    } else if t is Float {
        lemma_scan_float(t, rest);
    } else if t is FilePath || t is GlobPath {
        lemma_scan_path(t, rest);
    } else if t is StringLiteral {
        lemma_scan_string(t, rest);
    } else {
        lemma_scan_symbol(t, rest);
    }
}

/// White space between tokens is irrelevant to the lexer, and every token
/// but a lone `"` can be written down: the texts of well-formed tokens, one
/// per line, lex back to exactly those tokens.
pub proof fn law_lex_reads_back_tokens_one_per_line(ts: Seq<SpecToken>)
    requires
        forall|i: int| 0 <= i < ts.len() ==> well_formed(#[trigger] ts[i]),
    ensures
        spec_lex(render(ts)) == Ok::<_, LexFailure>(ts),
    decreases ts.len(),
{
    if ts.len() == 0 {
        assert(render(ts) =~= Seq::<char>::empty());
        assert(ts =~= Seq::<SpecToken>::empty());
    } else {
        let t = ts[0];
        let w = token_text(t);
        let more = ts.drop_first();
        assert(well_formed(t));
        assert forall|i: int| 0 <= i < more.len() implies well_formed(#[trigger] more[i]) by {
            assert(more[i] == ts[i + 1]);
        }
        law_lex_reads_back_tokens_one_per_line(more);
        let rest = if ts.len() == 1 {
            Seq::<char>::empty()
        } else {
            seq!['\n'] + render(more)
        };
        assert(render(ts) =~= w + rest);
        lemma_scan_rendered(t, rest);
        let s = w + rest;
        lemma_lex_shift(w, rest, 0);
        if ts.len() == 1 {
            assert(lex_from(rest, 0) == Ok::<_, LexFailure>(Seq::<SpecToken>::empty()));
        } else {
            let r = render(more);
            lemma_scan_rendered(more[0], if more.len() == 1 {
                Seq::<char>::empty()
            } else {
                seq!['\n'] + render(more.drop_first())
            });
            assert(r[0] == token_text(more[0])[0]);
            assert(rest[1] == r[0]);
            lemma_run_len_exact(rest, 1, 0, ScriptClass::Space);
            lemma_lex_shift(seq!['\n'], r, 0);
            assert(lex_from(rest, 0) == lex_from(rest, 1));
            assert(lex_from(rest, 0) == Ok::<_, LexFailure>(more));
        }
        if let SpecToken::Number(v) = t {
            lemma_integer_text(v as int);
            assert(spec_parse_isize(w) == Some(v));
        }
        assert(lex_from(s, w.len() as int) == lex_from(rest, 0));
        assert(seq![t] + more =~= ts);
        assert(seq![t] + Seq::<SpecToken>::empty() =~= seq![t]);
    }
}

} // verus!
