//! Expressions: the abstract syntax that s-expressions are parsed into, and
//! its printed form.

use vstd::prelude::*;
use crate::sexp::{lemma_read_decimal_roundtrip, spec_read_sexp, ReadErrorModel, SExp, SExpModel};
use crate::text::{int_decimal, push_decimal, str_is};

verus! {

/// Binary arithmetic operations.
#[derive(Copy, Clone, Debug, Eq, PartialEq)]
pub enum BinOp {
    Add,
    Sub,
    Mul,
    Div,
}

/// Expressions.
#[derive(Debug, Eq, PartialEq)]
pub enum Exp {
    Number(i32),
    Boolean(bool),
    Variable(String),
    If(Box<Exp>, Box<Exp>, Box<Exp>),
    Let1(String, Box<Exp>, Box<Exp>),
    Lambda(String, Box<Exp>),
    Apply(Box<Exp>, Box<Exp>),
    BinFn(BinOp, Box<Exp>, Box<Exp>),
}

/// The mathematical value of an [`Exp`].
pub enum ExpModel {
    Number(i32),
    Boolean(bool),
    Variable(Seq<char>),
    If(Box<ExpModel>, Box<ExpModel>, Box<ExpModel>),
    Let1(Seq<char>, Box<ExpModel>, Box<ExpModel>),
    Lambda(Seq<char>, Box<ExpModel>),
    Apply(Box<ExpModel>, Box<ExpModel>),
    BinFn(BinOp, Box<ExpModel>, Box<ExpModel>),
}

pub open spec fn exp_model(e: Exp) -> ExpModel
    decreases e,
{
    match e {
        Exp::Number(n) => ExpModel::Number(n),
        Exp::Boolean(b) => ExpModel::Boolean(b),
        Exp::Variable(x) => ExpModel::Variable(x@),
        Exp::If(c, a, b) => ExpModel::If(
            Box::new(exp_model(*c)),
            Box::new(exp_model(*a)),
            Box::new(exp_model(*b)),
        ),
        Exp::Let1(x, v, b) => ExpModel::Let1(x@, Box::new(exp_model(*v)), Box::new(exp_model(*b))),
        Exp::Lambda(x, b) => ExpModel::Lambda(x@, Box::new(exp_model(*b))),
        Exp::Apply(f, a) => ExpModel::Apply(Box::new(exp_model(*f)), Box::new(exp_model(*a))),
        Exp::BinFn(op, l, r) => ExpModel::BinFn(
            op,
            Box::new(exp_model(*l)),
            Box::new(exp_model(*r)),
        ),
    }
}

impl View for Exp {
    type V = ExpModel;

    open spec fn view(&self) -> ExpModel {
        exp_model(*self)
    }
}

/// Why an s-expression is not an expression; each carries the offending
/// s-expression.
#[derive(Debug, PartialEq, Eq)]
pub enum SyntaxError {
    /// A list of four whose head is a symbol other than `if`.
    NotIf(SExp),
    /// `{lam x body}` whose `x` is not a symbol.
    BadLambda(SExp),
    /// `{let1 {x value} body}` whose binding is not a symbol and a value.
    BadLet1(SExp),
    /// A list of three whose head is a symbol that names no form.
    UnknownOperator(SExp),
    /// Any other list that is no form.
    UnrecognizedForm(SExp),
}

pub enum SyntaxErrorModel {
    NotIf(SExpModel),
    BadLambda(SExpModel),
    BadLet1(SExpModel),
    UnknownOperator(SExpModel),
    UnrecognizedForm(SExpModel),
}

impl View for SyntaxError {
    type V = SyntaxErrorModel;

    open spec fn view(&self) -> SyntaxErrorModel {
        match self {
            SyntaxError::NotIf(s) => SyntaxErrorModel::NotIf(s@),
            SyntaxError::BadLambda(s) => SyntaxErrorModel::BadLambda(s@),
            SyntaxError::BadLet1(s) => SyntaxErrorModel::BadLet1(s@),
            SyntaxError::UnknownOperator(s) => SyntaxErrorModel::UnknownOperator(s@),
            SyntaxError::UnrecognizedForm(s) => SyntaxErrorModel::UnrecognizedForm(s@),
        }
    }
}

pub type ParseResult = Result<ExpModel, SyntaxErrorModel>;

pub open spec fn parse_view(r: Result<Exp, SyntaxError>) -> ParseResult {
    match r {
        Ok(e) => Ok(e@),
        Err(err) => Err(err@),
    }
}

/// The first error of two parses, or both results.
pub open spec fn both(a: ParseResult, b: ParseResult) -> Result<(ExpModel, ExpModel), SyntaxErrorModel> {
    match a {
        Err(e) => Err(e),
        Ok(x) => match b {
            Err(e) => Err(e),
            Ok(y) => Ok((x, y)),
        },
    }
}

/// The operation that a symbol names at the head of a list of three.
pub open spec fn operator_named(f: Seq<char>) -> Option<BinOp> {
    if f == seq!['+'] {
        Some(BinOp::Add)
    } else if f == seq!['-'] {
        Some(BinOp::Sub)
    } else if f == seq!['*'] {
        Some(BinOp::Mul)
    } else if f == seq!['/'] {
        Some(BinOp::Div)
    } else {
        None
    }
}

/// Parsing an s-expression into an expression.
///
/// - `{if c a b}` is a conditional;
/// - `{+ a b}`, `{- a b}`, `{* a b}`, `{/ a b}` are arithmetic;
/// - `{lam x body}` is a function of `x`;
/// - `{let1 {x value} body}` binds `x`;
/// - any other list of two is an application;
/// - numbers, booleans and symbols stand for themselves.
///
/// Sub-expressions are parsed left to right; the first error is the result.
pub open spec fn spec_parse_sexp(s: SExpModel) -> ParseResult
    decreases s,
{
    match s {
        SExpModel::Number(n) => Ok(ExpModel::Number(n)),
        SExpModel::Boolean(b) => Ok(ExpModel::Boolean(b)),
        SExpModel::Symbol(x) => Ok(ExpModel::Variable(x)),
        SExpModel::List(v) => if v.len() == 4 && v[0] is Symbol {
            if v[0]->Symbol_0 == seq!['i', 'f'] {
                match spec_parse_sexp(v[1]) {
                    Err(e) => Err(e),
                    Ok(c) => match both(spec_parse_sexp(v[2]), spec_parse_sexp(v[3])) {
                        Err(e) => Err(e),
                        Ok((a, b)) => Ok(ExpModel::If(Box::new(c), Box::new(a), Box::new(b))),
                    },
                }
            } else {
                Err(SyntaxErrorModel::NotIf(s))
            }
        } else if v.len() == 3 && v[0] is Symbol {
            let f = v[0]->Symbol_0;
            if operator_named(f) is Some {
                match both(spec_parse_sexp(v[1]), spec_parse_sexp(v[2])) {
                    Err(e) => Err(e),
                    Ok((a, b)) => Ok(
                        ExpModel::BinFn(operator_named(f)->Some_0, Box::new(a), Box::new(b)),
                    ),
                }
            } else if f == seq!['l', 'a', 'm'] {
                if v[1] is Symbol {
                    match spec_parse_sexp(v[2]) {
                        Err(e) => Err(e),
                        Ok(b) => Ok(ExpModel::Lambda(v[1]->Symbol_0, Box::new(b))),
                    }
                } else {
                    Err(SyntaxErrorModel::BadLambda(s))
                }
            } else if f == seq!['l', 'e', 't', '1'] {
                if v[1] is List && v[1]->List_0.len() == 2 && v[1]->List_0[0] is Symbol {
                    let a = v[1]->List_0;
                    match both(spec_parse_sexp(a[1]), spec_parse_sexp(v[2])) {
                        Err(e) => Err(e),
                        Ok((x, b)) => Ok(
                            ExpModel::Let1(a[0]->Symbol_0, Box::new(x), Box::new(b)),
                        ),
                    }
                } else {
                    Err(SyntaxErrorModel::BadLet1(s))
                }
            } else {
                Err(SyntaxErrorModel::UnknownOperator(s))
            }
        } else if v.len() == 2 {
            match both(spec_parse_sexp(v[0]), spec_parse_sexp(v[1])) {
                Err(e) => Err(e),
                Ok((f, a)) => Ok(ExpModel::Apply(Box::new(f), Box::new(a))),
            }
        } else {
            Err(SyntaxErrorModel::UnrecognizedForm(s))
        },
    }
}

impl Clone for Exp {
    fn clone(&self) -> (r: Exp)
        ensures
            r@ == self@,
        decreases self,
    {
        match self {
            Exp::Number(n) => Exp::Number(*n),
            Exp::Boolean(b) => Exp::Boolean(*b),
            Exp::Variable(x) => Exp::Variable(x.clone()),
            Exp::If(c, a, b) => Exp::If(
                Box::new((**c).clone()),
                Box::new((**a).clone()),
                Box::new((**b).clone()),
            ),
            Exp::Let1(x, v, b) => Exp::Let1(x.clone(), Box::new((**v).clone()), Box::new((**b).clone())),
            Exp::Lambda(x, b) => Exp::Lambda(x.clone(), Box::new((**b).clone())),
            Exp::Apply(f, a) => Exp::Apply(Box::new((**f).clone()), Box::new((**a).clone())),
            Exp::BinFn(op, l, r) => Exp::BinFn(*op, Box::new((**l).clone()), Box::new((**r).clone())),
        }
    }
}

/// The forms, parsed: where its parts parse, a list with `if`, an
/// operator, `lam` or `let1` at its head parses to that form over the parsed
/// parts, in the order written, and any other list of two parses to an
/// application of the first to the second.
pub proof fn lemma_parse_forms(a: SExpModel, b: SExpModel, c: SExpModel, x: Seq<char>)
    requires
        spec_parse_sexp(a) is Ok,
        spec_parse_sexp(b) is Ok,
        spec_parse_sexp(c) is Ok,
    ensures
        ({
            let pa = spec_parse_sexp(a)->Ok_0;
            let pb = spec_parse_sexp(b)->Ok_0;
            let pc = spec_parse_sexp(c)->Ok_0;
            let sym = |t: Seq<char>| SExpModel::Symbol(t);
            &&& spec_parse_sexp(SExpModel::List(seq![sym(seq!['i', 'f']), a, b, c])) == Ok::<
                ExpModel,
                SyntaxErrorModel,
            >(ExpModel::If(Box::new(pa), Box::new(pb), Box::new(pc)))
            &&& spec_parse_sexp(SExpModel::List(seq![sym(seq!['+']), a, b])) == Ok::<
                ExpModel,
                SyntaxErrorModel,
            >(ExpModel::BinFn(BinOp::Add, Box::new(pa), Box::new(pb)))
            &&& spec_parse_sexp(SExpModel::List(seq![sym(seq!['-']), a, b])) == Ok::<
                ExpModel,
                SyntaxErrorModel,
            >(ExpModel::BinFn(BinOp::Sub, Box::new(pa), Box::new(pb)))
            &&& spec_parse_sexp(SExpModel::List(seq![sym(seq!['*']), a, b])) == Ok::<
                ExpModel,
                SyntaxErrorModel,
            >(ExpModel::BinFn(BinOp::Mul, Box::new(pa), Box::new(pb)))
            &&& spec_parse_sexp(SExpModel::List(seq![sym(seq!['/']), a, b])) == Ok::<
                ExpModel,
                SyntaxErrorModel,
            >(ExpModel::BinFn(BinOp::Div, Box::new(pa), Box::new(pb)))
            &&& spec_parse_sexp(SExpModel::List(seq![sym(seq!['l', 'a', 'm']), sym(x), b]))
                == Ok::<ExpModel, SyntaxErrorModel>(ExpModel::Lambda(x, Box::new(pb)))
            &&& spec_parse_sexp(
                SExpModel::List(
                    seq![sym(seq!['l', 'e', 't', '1']), SExpModel::List(seq![sym(x), a]), b],
                ),
            ) == Ok::<ExpModel, SyntaxErrorModel>(ExpModel::Let1(x, Box::new(pa), Box::new(pb)))
            &&& spec_parse_sexp(SExpModel::List(seq![a, b])) == Ok::<ExpModel, SyntaxErrorModel>(
                ExpModel::Apply(Box::new(pa), Box::new(pb)),
            )
        }),
{
    assert(seq!['l', 'a', 'm'] != seq!['i', 'f']);
    assert(seq!['l', 'a', 'm'].len() != 1);
    assert(seq!['l', 'e', 't', '1'].len() != 1 && seq!['l', 'e', 't', '1'] != seq!['l', 'a', 'm']);
    assert(seq!['+'] != seq!['-']) by {
        assert(seq!['+'][0] != seq!['-'][0]);
    }
    assert(seq!['+'] != seq!['*']) by {
        assert(seq!['+'][0] != seq!['*'][0]);
    }
    assert(seq!['+'] != seq!['/']) by {
        assert(seq!['+'][0] != seq!['/'][0]);
    }
    assert(seq!['-'] != seq!['*']) by {
        assert(seq!['-'][0] != seq!['*'][0]);
    }
    assert(seq!['-'] != seq!['/']) by {
        assert(seq!['-'][0] != seq!['/'][0]);
    }
    assert(seq!['*'] != seq!['/']) by {
        assert(seq!['*'][0] != seq!['/'][0]);
    }
}

/// Parses an s-expression into an expression.
pub fn parse_sexp(sexp: &SExp) -> (r: Result<Exp, SyntaxError>)
    ensures
        parse_view(r) == spec_parse_sexp(sexp@),
    decreases sexp,
{
    match sexp {
        SExp::Number(n) => Ok(Exp::Number(*n)),
        SExp::Boolean(b) => Ok(Exp::Boolean(*b)),
        SExp::Symbol(x) => Ok(Exp::Variable(x.clone())),
        SExp::List(v) => {
            let ghost sv = sexp@->List_0;
            proof {
                assert(*v == (*sexp)->List_0);
                assert(decreases_to!(*sexp => (*sexp)->List_0));
                assert(decreases_to!(*v => v@));
                assert forall|i: int| 0 <= i < v.len() implies decreases_to!(
                    *sexp => #[trigger] v@[i]
                ) by {
                    assert(decreases_to!(v@ => v@[i]));
                }
                assert(sv.len() == v.len());
                assert(sexp@ == SExpModel::List(sv));
                if v.len() > 0 {
                    assert(sv[0] == v@[0]@);
                }
                if v.len() > 1 {
                    assert(sv[1] == v@[1]@);
                }
                if v.len() > 2 {
                    assert(sv[2] == v@[2]@);
                }
                if v.len() > 3 {
                    assert(sv[3] == v@[3]@);
                }
                assert(forall|i: int| 0 <= i < v.len() ==> sv[i] == (#[trigger] v@[i])@);
                reveal_strlit("if");
                reveal_strlit("+");
                reveal_strlit("-");
                reveal_strlit("*");
                reveal_strlit("/");
                reveal_strlit("lam");
                reveal_strlit("let1");
                assert("if"@ =~= seq!['i', 'f']);
                assert("+"@ =~= seq!['+']);
                assert("-"@ =~= seq!['-']);
                assert("*"@ =~= seq!['*']);
                assert("/"@ =~= seq!['/']);
                assert("lam"@ =~= seq!['l', 'a', 'm']);
                assert("let1"@ =~= seq!['l', 'e', 't', '1']);
            }
            let n = v.len();
            if n == 4 {
                if let SExp::Symbol(f) = &v[0] {
                    if str_is(f.as_str(), "if") {
                        let c = match parse_sexp(&v[1]) {
            Ok(x) => x,
            Err(e) => return Err(e),
        };
                        let a = match parse_sexp(&v[2]) {
            Ok(x) => x,
            Err(e) => return Err(e),
        };
                        let b = match parse_sexp(&v[3]) {
            Ok(x) => x,
            Err(e) => return Err(e),
        };
                        Ok(Exp::If(Box::new(c), Box::new(a), Box::new(b)))
                    } else {
                        Err(SyntaxError::NotIf(sexp.duplicate()))
                    }
                } else {
                    Err(SyntaxError::UnrecognizedForm(sexp.duplicate()))
                }
            } else if n == 3 {
                if let SExp::Symbol(f) = &v[0] {
                    let fs = f.as_str();
                    let op = if str_is(fs, "+") {
                        Some(BinOp::Add)
                    } else if str_is(fs, "-") {
                        Some(BinOp::Sub)
                    } else if str_is(fs, "*") {
                        Some(BinOp::Mul)
                    } else if str_is(fs, "/") {
                        Some(BinOp::Div)
                    } else {
                        None
                    };
                    assert(op == operator_named(sv[0]->Symbol_0));
                    if let Some(op) = op {
                        let a = match parse_sexp(&v[1]) {
            Ok(x) => x,
            Err(e) => return Err(e),
        };
                        let b = match parse_sexp(&v[2]) {
            Ok(x) => x,
            Err(e) => return Err(e),
        };
                        Ok(Exp::BinFn(op, Box::new(a), Box::new(b)))
                    } else if str_is(fs, "lam") {
                        if let SExp::Symbol(x) = &v[1] {
                            let b = match parse_sexp(&v[2]) {
            Ok(x) => x,
            Err(e) => return Err(e),
        };
                            Ok(Exp::Lambda(x.clone(), Box::new(b)))
                        } else {
                            Err(SyntaxError::BadLambda(sexp.duplicate()))
                        }
                    } else if str_is(fs, "let1") {
                        if let SExp::List(assign) = &v[1] {
                            if assign.len() == 2 {
                                if let SExp::Symbol(x) = &assign[0] {
                                    proof {
                                        assert(*assign == v@[1]->List_0);
                                        assert(decreases_to!(v@[1] => v@[1]->List_0));
                                        assert(decreases_to!(*assign => assign@));
                                        assert(decreases_to!(assign@ => assign@[1]));
                                        assert(sv[1]->List_0[0] == assign@[0]@);
                                        assert(sv[1]->List_0[1] == assign@[1]@);
                                    }
                                    let value = match parse_sexp(&assign[1]) {
            Ok(x) => x,
            Err(e) => return Err(e),
        };
                                    let b = match parse_sexp(&v[2]) {
            Ok(x) => x,
            Err(e) => return Err(e),
        };
                                    Ok(Exp::Let1(x.clone(), Box::new(value), Box::new(b)))
                                } else {
                                    assert(sv[1]->List_0[0] == assign@[0]@);
                                    Err(SyntaxError::BadLet1(sexp.duplicate()))
                                }
                            } else {
                                Err(SyntaxError::BadLet1(sexp.duplicate()))
                            }
                        } else {
                            Err(SyntaxError::BadLet1(sexp.duplicate()))
                        }
                    } else {
                        Err(SyntaxError::UnknownOperator(sexp.duplicate()))
                    }
                } else {
                    Err(SyntaxError::UnrecognizedForm(sexp.duplicate()))
                }
            } else if n == 2 {
                let f = match parse_sexp(&v[0]) {
            Ok(x) => x,
            Err(e) => return Err(e),
        };
                let a = match parse_sexp(&v[1]) {
            Ok(x) => x,
            Err(e) => return Err(e),
        };
                Ok(Exp::Apply(Box::new(f), Box::new(a)))
            } else {
                Err(SyntaxError::UnrecognizedForm(sexp.duplicate()))
            }
        },
    }
}

/// The name that the printed form gives an operation.
pub open spec fn op_plait(op: BinOp) -> Seq<char> {
    match op {
        BinOp::Add => "addE"@,
        BinOp::Sub => "subE"@,
        BinOp::Mul => "mulE"@,
        BinOp::Div => "divE"@,
    }
}

/// The character that stands for an operation in the surface syntax.
pub open spec fn op_symbol(op: BinOp) -> char {
    match op {
        BinOp::Add => '+',
        BinOp::Sub => '-',
        BinOp::Mul => '*',
        BinOp::Div => '/',
    }
}

impl BinOp {
    /// The name of the operation in the printed form of expressions.
    pub fn show_plait(self) -> (r: &'static str)
        ensures
            r@ == op_plait(self),
    {
        match self {
            BinOp::Add => "addE",
            BinOp::Sub => "subE",
            BinOp::Mul => "mulE",
            BinOp::Div => "divE",
        }
    }

    /// The operation as it is written in the surface syntax and in
    /// messages: `+`, `-`, `*` or `/`.
    pub fn to_string(self) -> (r: String)
        ensures
            r@ == seq![op_symbol(self)],
    {
        proof {
            reveal_strlit("+");
            reveal_strlit("-");
            reveal_strlit("*");
            reveal_strlit("/");
        }
        let s = match self {
            BinOp::Add => "+",
            BinOp::Sub => "-",
            BinOp::Mul => "*",
            BinOp::Div => "/",
        };
        let r = s.to_owned();
        assert(r@ =~= seq![op_symbol(self)]);
        r
    }
}

/// The printed form of an expression, e.g. `(appE (varE 'f) (numE 1))`.
pub open spec fn spec_show_plait(e: ExpModel) -> Seq<char>
    decreases e,
{
    match e {
        ExpModel::Number(i) => "(numE "@ + int_decimal(i as int) + ")"@,
        ExpModel::Boolean(b) => if b {
            "(boolE #t)"@
        } else {
            "(boolE #f)"@
        },
        ExpModel::Variable(s) => "(varE '"@ + s + ")"@,
        ExpModel::If(c, a, b) => "(ifE "@ + spec_show_plait(*c) + " "@ + spec_show_plait(*a) + " "@
            + spec_show_plait(*b) + ")"@,
        ExpModel::Let1(s, a, b) => "(let1E '"@ + s + " "@ + spec_show_plait(*a) + " "@
            + spec_show_plait(*b) + ")"@,
        ExpModel::Lambda(s, b) => "(lamE '"@ + s + " "@ + spec_show_plait(*b) + ")"@,
        ExpModel::Apply(f, a) => "(appE "@ + spec_show_plait(*f) + " "@ + spec_show_plait(*a)
            + ")"@,
        ExpModel::BinFn(op, l, r) => "("@ + op_plait(op) + " "@ + spec_show_plait(*l) + " "@
            + spec_show_plait(*r) + ")"@,
    }
}

/// A number is printed in full: the printed form of a number expression is
/// `(numE `, then text that reads back as exactly that number, then `)`.
pub proof fn lemma_number_printed_in_full(n: i32)
    ensures
        ({
            let p = spec_show_plait(ExpModel::Number(n));
            &&& p.len() >= 7
            &&& p.take(6) == seq!['(', 'n', 'u', 'm', 'E', ' ']
            &&& p.last() == ')'
            &&& spec_read_sexp(p.subrange(6, p.len() - 1)) == Ok::<
                (SExpModel, Seq<char>),
                ReadErrorModel,
            >((SExpModel::Number(n), Seq::empty()))
        }),
{
    reveal_strlit("(numE ");
    reveal_strlit(")");
    let d = int_decimal(n as int);
    let p = spec_show_plait(ExpModel::Number(n));
    assert(p == "(numE "@ + d + ")"@);
    assert(p.take(6) =~= seq!['(', 'n', 'u', 'm', 'E', ' ']);
    assert(p.subrange(6, p.len() - 1) =~= d);
    lemma_read_decimal_roundtrip(n);
}

/// The printed forms: each form is printed as its name, then its parts in
/// the order they are written, each part in its own printed form.
pub proof fn lemma_printed_forms(
    c: ExpModel,
    l: ExpModel,
    r: ExpModel,
    x: Seq<char>,
)
    ensures
        spec_show_plait(ExpModel::Boolean(true)) == "(boolE #t)"@,
        spec_show_plait(ExpModel::Boolean(false)) == "(boolE #f)"@,
        spec_show_plait(ExpModel::Variable(x)) == "(varE '"@ + x + ")"@,
        spec_show_plait(ExpModel::BinFn(BinOp::Add, Box::new(l), Box::new(r))) == "(addE "@
            + spec_show_plait(l) + " "@ + spec_show_plait(r) + ")"@,
        spec_show_plait(ExpModel::BinFn(BinOp::Sub, Box::new(l), Box::new(r))) == "(subE "@
            + spec_show_plait(l) + " "@ + spec_show_plait(r) + ")"@,
        spec_show_plait(ExpModel::BinFn(BinOp::Mul, Box::new(l), Box::new(r))) == "(mulE "@
            + spec_show_plait(l) + " "@ + spec_show_plait(r) + ")"@,
        spec_show_plait(ExpModel::BinFn(BinOp::Div, Box::new(l), Box::new(r))) == "(divE "@
            + spec_show_plait(l) + " "@ + spec_show_plait(r) + ")"@,
        spec_show_plait(ExpModel::If(Box::new(c), Box::new(l), Box::new(r))) == "(ifE "@
            + spec_show_plait(c) + " "@ + spec_show_plait(l) + " "@ + spec_show_plait(r) + ")"@,
        spec_show_plait(ExpModel::Let1(x, Box::new(l), Box::new(r))) == "(let1E '"@ + x + " "@
            + spec_show_plait(l) + " "@ + spec_show_plait(r) + ")"@,
        spec_show_plait(ExpModel::Lambda(x, Box::new(r))) == "(lamE '"@ + x + " "@
            + spec_show_plait(r) + ")"@,
        spec_show_plait(ExpModel::Apply(Box::new(l), Box::new(r))) == "(appE "@ + spec_show_plait(
            l,
        ) + " "@ + spec_show_plait(r) + ")"@,
{
    reveal_strlit("(");
    reveal_strlit("addE");
    reveal_strlit("subE");
    reveal_strlit("mulE");
    reveal_strlit("divE");
    reveal_strlit(" ");
    reveal_strlit("(addE ");
    reveal_strlit("(subE ");
    reveal_strlit("(mulE ");
    reveal_strlit("(divE ");
    let sl = spec_show_plait(l);
    let sr = spec_show_plait(r);
    assert("("@ + "addE"@ + " "@ + sl + " "@ + sr + ")"@ =~= "(addE "@ + sl + " "@ + sr + ")"@);
    assert("("@ + "subE"@ + " "@ + sl + " "@ + sr + ")"@ =~= "(subE "@ + sl + " "@ + sr + ")"@);
    assert("("@ + "mulE"@ + " "@ + sl + " "@ + sr + ")"@ =~= "(mulE "@ + sl + " "@ + sr + ")"@);
    assert("("@ + "divE"@ + " "@ + sl + " "@ + sr + ")"@ =~= "(divE "@ + sl + " "@ + sr + ")"@);
}

impl Exp {
    fn write_plait(&self, out: &mut String)
        ensures
            final(out)@ == old(out)@ + spec_show_plait(self@),
        decreases self,
    {
        let ghost start = out@;
        match self {
            Exp::Number(i) => {
                out.append("(numE ");
                push_decimal(out, *i);
                out.append(")");
            },
            Exp::Boolean(b) => {
                if *b {
                    out.append("(boolE #t)");
                } else {
                    out.append("(boolE #f)");
                }
            },
            Exp::Variable(s) => {
                out.append("(varE '");
                out.append(s.as_str());
                out.append(")");
            },
            Exp::If(c, a, b) => {
                out.append("(ifE ");
                c.write_plait(out);
                out.append(" ");
                a.write_plait(out);
                out.append(" ");
                b.write_plait(out);
                out.append(")");
            },
            Exp::Let1(s, a, b) => {
                out.append("(let1E '");
                out.append(s.as_str());
                out.append(" ");
                a.write_plait(out);
                out.append(" ");
                b.write_plait(out);
                out.append(")");
            },
            Exp::Lambda(s, b) => {
                out.append("(lamE '");
                out.append(s.as_str());
                out.append(" ");
                b.write_plait(out);
                out.append(")");
            },
            Exp::Apply(f, a) => {
                out.append("(appE ");
                f.write_plait(out);
                out.append(" ");
                a.write_plait(out);
                out.append(")");
            },
            Exp::BinFn(op, l, r) => {
                out.append("(");
                out.append(op.show_plait());
                out.append(" ");
                l.write_plait(out);
                out.append(" ");
                r.write_plait(out);
                out.append(")");
            },
        }
        assert(out@ =~= start + spec_show_plait(self@));
    }

    /// The printed form of the expression, e.g. `(numE 3)`.
    pub fn show_plait(&self) -> (r: String)
        ensures
            r@ == spec_show_plait(self@),
    {
        let mut out = String::new();
        self.write_plait(&mut out);
        assert(out@ =~= spec_show_plait(self@));
        out
    }
}

} // verus!
