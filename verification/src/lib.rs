//! A small scripting language: lexer, parser and interpreter.
//!
//! The library decides everything about a program, from the kind of each
//! token to the value of each expression, and proves what it decides. Three
//! things it leaves to its host, because they are floating-point work or
//! output: the value of a number literal, arithmetic on numbers with the text
//! of a number, and printing. The lexer and the interpreter are therefore
//! machines that the host steps: each step returns what is asked of the host,
//! and the next step takes the answer.
//!
//! Numbers are carried as bit patterns of IEEE 754 binary64 values.
//!
//! What the parser returns is fixed by the grammar in [`grammar`], and what the
//! interpreter does by the steps in [`interpret`]. The modules behind them
//! state what follows: [`semantics`] that the steps compute the meaning of the
//! program as structural recursion gives it, [`balance`] and [`placement`] that
//! no step ever misses what it needs, and [`spelling`] that the parser reads
//! expressions as they are written.

pub mod balance;
pub mod environment;
pub mod exit;
pub mod grammar;
pub mod interpret;
pub mod lex;
pub mod number;
pub mod parse;
pub mod placement;
pub mod semantics;
pub mod spelling;
pub mod stmt;
pub mod token;
