//! Reader, parser, printer and interpreter for a small language of
//! s-expressions with numbers, booleans, `if`, `let1`, `lam`, application
//! and arithmetic, together with the logic of a generator of test files.

pub mod api;
pub mod exp;
pub mod interp;
pub mod sexp;
pub mod testgen;
pub mod text;

pub use api::{parse, run, Error};
pub use exp::{parse_sexp, BinOp, Exp, SyntaxError};
pub use interp::{interp, Env, EvalError, Value};
pub use sexp::{
    is_numeric_char, is_symbol_char, read_boolean, read_list, read_number, read_sexp, read_symbol,
    IntErrorKind, ReadError, SExp,
};
