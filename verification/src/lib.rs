//! An arithmetic expression engine: a tokenizer, an operator-precedence
//! reorderer and a stack evaluator over a small numeric value type.
//!
//! A source text is split into tokens (`lexer`), the tokens are brought into
//! evaluation order (`reorder`), and a stack machine runs over them (`eval`).
//! Values are undefined, 64-bit integers or binary64 numbers (`value`,
//! `compare`, `render`). The machine does integer arithmetic itself; binary64
//! numbers are carried as their bits (`binary64`), and arithmetic on them is
//! handed out to the caller as a request, whose answer resumes the machine.
//! `calculator` ties the steps together over a set of variables, and `command`
//! takes the lines of a session apart. `laws` and `promotion` state what holds
//! of these parts together.
pub mod binary64;
pub mod calculator;
pub mod chars;
pub mod collections;
pub mod command;
pub mod compare;
pub mod eval;
pub mod laws;
pub mod lexer;
pub mod number;
pub mod promotion;
pub mod render;
pub mod reorder;
pub mod token;
pub mod value;
