//! The whole pipeline: text to printed expression, and text to value.

use vstd::prelude::*;
use crate::exp::{
    parse_sexp, spec_parse_sexp, spec_show_plait, Exp, ExpModel, SyntaxError, SyntaxErrorModel,
};
use crate::interp::{evaluates, evaluation, spec_show_value, EvalError, EvalErrorModel, Outcome};
use crate::sexp::{read_sexp, spec_read_sexp, ReadError, ReadErrorModel};
use crate::text::{is_blank, is_blank_str};

verus! {

/// Why text could not be parsed or run.
#[derive(Debug, PartialEq, Eq)]
pub enum Error {
    Read(ReadError),
    /// Something other than white space follows the s-expression.
    LeftoverInput,
    Syntax(SyntaxError),
    Eval(EvalError),
}

pub enum ErrorModel {
    Read(ReadErrorModel),
    LeftoverInput,
    Syntax(SyntaxErrorModel),
    Eval(EvalErrorModel),
}

impl View for Error {
    type V = ErrorModel;

    open spec fn view(&self) -> ErrorModel {
        match self {
            Error::Read(e) => ErrorModel::Read(e@),
            Error::LeftoverInput => ErrorModel::LeftoverInput,
            Error::Syntax(e) => ErrorModel::Syntax(e@),
            Error::Eval(e) => ErrorModel::Eval(e@),
        }
    }
}

pub open spec fn text_view(r: Result<String, Error>) -> Result<Seq<char>, ErrorModel> {
    match r {
        Ok(s) => Ok(s@),
        Err(e) => Err(e@),
    }
}

/// Text to expression: read one s-expression, require that only white
/// space follows it, and parse it.
pub open spec fn spec_front(s: Seq<char>) -> Result<ExpModel, ErrorModel> {
    match spec_read_sexp(s) {
        Err(e) => Err(ErrorModel::Read(e)),
        Ok((x, rest)) => if !is_blank(rest) {
            Err(ErrorModel::LeftoverInput)
        } else {
            match spec_parse_sexp(x) {
                Err(e) => Err(ErrorModel::Syntax(e)),
                Ok(e) => Ok(e),
            }
        },
    }
}

/// What [`parse`] gives: the printed form of the expression.
pub open spec fn spec_parse(s: Seq<char>) -> Result<Seq<char>, ErrorModel> {
    match spec_front(s) {
        Err(e) => Err(e),
        Ok(e) => Ok(spec_show_plait(e)),
    }
}

/// The text either is no expression, or is one whose evaluation in an empty
/// environment ends with a value or an error (it neither runs forever nor
/// overflows `i32` arithmetic, on which the evaluation would not return).
pub open spec fn runs(s: Seq<char>) -> bool {
    match spec_front(s) {
        Err(_) => true,
        Ok(e) => evaluates(e, Map::empty()),
    }
}

/// What [`run`] gives where the text [`runs`]: the shown value, or the error
/// (where the text does not run, there is no result to speak of).
pub open spec fn spec_run(s: Seq<char>) -> Result<Seq<char>, ErrorModel> {
    match spec_front(s) {
        Err(e) => Err(e),
        Ok(e) => match evaluation(e, Map::empty()) {
            Outcome::Value(v) => Ok(spec_show_value(v)),
            Outcome::Error(err) => Err(ErrorModel::Eval(err)),
            _ => arbitrary(),
        },
    }
}

/// Parsing and running read and parse text the same way: where the text is
/// no expression, both give the same error; where running gives a value,
/// parsing gives the printed expression.
pub proof fn lemma_run_fails_where_parse_fails(s: Seq<char>)
    ensures
        spec_front(s) is Err ==> spec_run(s) == spec_parse(s),
        spec_run(s) is Ok ==> spec_parse(s) is Ok,
        spec_parse(s) is Err <==> spec_front(s) is Err,
{
}

fn front(s: &str) -> (r: Result<Exp, Error>)
    ensures
        match r {
            Ok(e) => spec_front(s@) == Ok::<ExpModel, ErrorModel>(e@),
            Err(err) => spec_front(s@) == Err::<ExpModel, ErrorModel>(err@),
        },
{
    let (sexp, rest) = match read_sexp(s) {
        Ok(pair) => pair,
        Err(e) => return Err(Error::Read(e)),
    };
    if !is_blank_str(rest) {
        return Err(Error::LeftoverInput);
    }
    match parse_sexp(&sexp) {
        Ok(e) => Ok(e),
        Err(e) => Err(Error::Syntax(e)),
    }
}

/// Parses text into an expression and gives its printed form, e.g.
/// `{+ 1 2}` gives `(addE (numE 1) (numE 2))`.
pub fn parse(s: &str) -> (r: Result<String, Error>)
    ensures
        text_view(r) == spec_parse(s@),
{
    match front(s) {
        Ok(e) => Ok(e.show_plait()),
        Err(e) => Err(e),
    }
}

/// Parses text, evaluates it in an empty environment and shows the value,
/// e.g. `{+ 1 2}` gives `3`.
pub fn run(s: &str) -> (r: Result<String, Error>)
    requires
        runs(s@),
    ensures
        text_view(r) == spec_run(s@),
{
    let e = match front(s) {
        Ok(e) => e,
        Err(e) => return Err(e),
    };
    match crate::interp::calc(&e) {
        Ok(v) => Ok(v.to_string()),
        Err(err) => Err(Error::Eval(err)),
    }
}

} // verus!
