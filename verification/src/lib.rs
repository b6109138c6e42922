//! Bilda: a small configuration language for build systems.
//!
//! The pipeline is `Text -> Tokens -> Ast -> Value`: [`lexer`] groups
//! characters into tokens, [`parser`] groups tokens into an abstract syntax
//! tree following [`grammar`], and [`runtime`] evaluates that tree as
//! [`semantics`] says. [`compiler`] and [`jit_ops`] plan the machine code of
//! a program, and [`script`] reads the `let … in` form of the language.
pub mod text;
pub mod lexer;
pub mod ast;
pub mod grammar;
pub mod parser;
pub mod value;
pub mod semantics;
pub mod runtime;
pub mod compiler;
pub mod jit_ops;
pub mod errors;
pub mod script;

use vstd::prelude::*;

use crate::ast::Ast;
use crate::grammar::{blocks, spec_parse};
use crate::lexer::{lex, spec_lex, LexerError};
use crate::parser::{parse, ParseError};
use crate::script::lexer::{self as script_lexer, LexFailure};

verus! {

/// Why a source text is not a program.
#[derive(Debug, PartialEq)]
pub enum CheckError {
    /// Some character starts no token.
    Lex(LexerError),
    /// The tokens do not form a program.
    Parse(ParseError),
}

/// Checks the syntax of a program text: lexes it, then parses the tokens.
pub fn check_program(source: &str) -> (r: Result<Ast, CheckError>)
    ensures
        match r {
            Ok(ast) => spec_lex(source@) is Some && spec_parse(spec_lex(source@)->0) == Some(ast@),
            Err(CheckError::Lex(_)) => spec_lex(source@) is None,
            Err(CheckError::Parse(e)) => spec_lex(source@) is Some && spec_parse(
                spec_lex(source@)->0,
            ) is None && blocks(spec_lex(source@)->0).1 == e.position,
        },
{
    match lex(source) {
        Ok(tokens) => match parse(tokens.as_slice()) {
            Ok(ast) => Ok(ast),
            Err(e) => Err(CheckError::Parse(e)),
        },
        Err(e) => Err(CheckError::Lex(e)),
    }
}

/// Checks that a script text splits into tokens: the script lexer's verdict,
/// without the tokens.
pub fn check(source: &str) -> (r: Result<(), script_lexer::LexerError>)
    ensures
        match r {
            Ok(()) => script_lexer::spec_lex(source@) is Ok,
            Err(script_lexer::LexerError::InvalidToken) => script_lexer::spec_lex(source@)
                == Err::<Seq<script_lexer::SpecToken>, _>(LexFailure::InvalidToken),
            Err(script_lexer::LexerError::ParseInt(_)) => script_lexer::spec_lex(source@)
                == Err::<Seq<script_lexer::SpecToken>, _>(LexFailure::ParseInt),
        },
{
    match script_lexer::lex(source) {
        Ok(_) => Ok(()),
        Err(e) => Err(e),
    }
}

} // verus!
