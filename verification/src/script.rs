//! The `let … in` form of Bilda scripts: its tokens ([`lexer`]), its syntax
//! tree ([`ast`]), its grammar ([`grammar`]) and parser ([`parser`]), and its
//! arithmetic ([`math`]), its compiler's plans ([`compiler`]) and how its
//! values are written out ([`render`]).
pub mod lexer;
pub mod math;
pub mod ast;
pub mod grammar;
pub mod parser;
pub mod compiler;
pub mod render;
