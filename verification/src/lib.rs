//! An infix arithmetic expression compiler.
//!
//! One line of text is lexed into tokens and run through the shunting-yard
//! algorithm in a single pass, with unary minus rewritten to a subtraction
//! from zero. The pass is verified end to end; its output is a postfix
//! program of stack instructions whose only remaining work, carrying the
//! floating-point arithmetic out, is left to the caller. Malformed input
//! never produces an error: it degrades to a shorter program, in the limit
//! the empty one, which evaluates to zero.
pub mod chars;
pub mod token;
pub mod lexer;
pub mod compile;
pub mod laws;
